use vstd::prelude::*;

verus! {

/// A rectangle of terminal cells: its top-left corner and its size.
#[derive(Debug, Clone, Copy, PartialEq, Eq, Default)]
pub struct Rect {
    pub x: u16,
    pub y: u16,
    pub width: u16,
    pub height: u16,
}

/// The least `c` from `from` on with `c * c >= count`, but no more than
/// `u16::MAX`.
pub open spec fn least_root_from(from: nat, count: nat) -> nat
    decreases u16::MAX - from,
{
    if from >= u16::MAX || from * from >= count {
        from
    } else {
        least_root_from(from + 1, count)
    }
}

/// How many columns a grid of `count` tiles has: the ceiling of the square
/// root of `count`, at most `u16::MAX`.
pub open spec fn grid_columns(count: nat) -> nat {
    least_root_from(0, count)
}

/// `count` cut down to 16 bits, as the grid arithmetic takes it.
pub open spec fn count16(count: nat) -> nat {
    count % 0x10000
}

/// How many rows a grid of `count` tiles has.
pub open spec fn grid_rows(count: nat) -> nat {
    (count16(count) + grid_columns(count) - 1) as nat / grid_columns(count)
}

/// The width of a grid cell in `area`: an equal share of the width, at least 1.
pub open spec fn cell_width(area: Rect, count: nat) -> nat {
    let w = area.width as nat / grid_columns(count);
    if w >= 1 {
        w
    } else {
        1
    }
}

/// The height of a grid cell in `area`: an equal share of the height, at
/// least 1.
pub open spec fn cell_height(area: Rect, count: nat) -> nat {
    let h = area.height as nat / grid_rows(count);
    if h >= 1 {
        h
    } else {
        1
    }
}

/// The row of tile `index`, counted in 16 bits.
pub open spec fn tile_row(count: nat, index: nat) -> nat {
    (index % 0x10000) / grid_columns(count)
}

/// The column of tile `index`, counted in 16 bits.
pub open spec fn tile_column(count: nat, index: nat) -> nat {
    (index % 0x10000) % grid_columns(count)
}

/// `a - b`, or 0 where `b` is larger.
pub open spec fn saturating_sub(a: nat, b: nat) -> nat {
    if a >= b {
        (a - b) as nat
    } else {
        0
    }
}

/// The cell of tile `index` of `count` in `area`: row by row, left to right,
/// with the last column and the last row taking what is left of the area.
/// Where the area is too small for a cell per column or row, cells are one
/// cell wide or high and run past the area's edge.
pub open spec fn grid_cell(area: Rect, count: nat, index: nat) -> Rect {
    let row = tile_row(count, index);
    let column = tile_column(count, index);
    let cw = cell_width(area, count);
    let ch = cell_height(area, count);
    Rect {
        x: (area.x + column * cw) as u16,
        y: (area.y + row * ch) as u16,
        width: if column == grid_columns(count) - 1 {
            saturating_sub(area.width as nat, column * cw) as u16
        } else {
            cw as u16
        },
        height: if row == grid_rows(count) - 1 {
            saturating_sub(area.height as nat, row * ch) as u16
        } else {
            ch as u16
        },
    }
}

/// The smaller of `a` and `b`.
pub open spec fn min_nat(a: nat, b: nat) -> nat {
    if a <= b {
        a
    } else {
        b
    }
}

/// `a` cut to the part that lies within `area`, for an `a` whose corner is not
/// above or left of the area's: its corner moved in to the area's right or
/// bottom edge where it lies past it, and its size cut at those edges.
pub open spec fn clip_to(a: Rect, area: Rect) -> Rect {
    let right = (area.x + area.width) as nat;
    let bottom = (area.y + area.height) as nat;
    let x = min_nat(a.x as nat, right);
    let y = min_nat(a.y as nat, bottom);
    Rect {
        x: x as u16,
        y: y as u16,
        width: min_nat(a.width as nat, (right - x) as nat) as u16,
        height: min_nat(a.height as nat, (bottom - y) as nat) as u16,
    }
}

/// The place of tile `index` of `count` in `area`: its grid cell, cut to the
/// area, so that a too small area leaves the tiles that do not fit with no
/// room at its edge rather than past it.
pub open spec fn grid_rect(area: Rect, count: nat, index: nat) -> Rect {
    clip_to(grid_cell(area, count, index), area)
}

/// There is nothing to lay out.
pub open spec fn grid_empty(area: Rect, count: nat) -> bool {
    count == 0 || area.width == 0 || area.height == 0
}

/// Tile `index` of `count` lies at coordinates that fit in 16 bits.
pub open spec fn tile_fits(area: Rect, count: nat, index: nat) -> bool {
    &&& area.x + tile_column(count, index) * cell_width(area, count) <= u16::MAX
    &&& area.y + tile_row(count, index) * cell_height(area, count) <= u16::MAX
}

/// The grid's 16-bit arithmetic works out for `count` tiles in `area`: the
/// row count neither overflows nor is 0, and every tile's corner fits.
pub open spec fn grid_fits(area: Rect, count: nat) -> bool {
    grid_empty(area, count) || {
        &&& count16(count) + grid_columns(count) <= u16::MAX
        &&& grid_rows(count) >= 1
        &&& forall|index: nat| index < count ==> #[trigger] tile_fits(area, count, index)
    }
}

pub proof fn lemma_least_root_bounds(from: nat, count: nat)
    requires
        from <= u16::MAX,
    ensures
        from <= least_root_from(from, count) <= u16::MAX,
        count >= 1 ==> least_root_from(from, count) >= 1,
    decreases u16::MAX - from,
{
    if from == 0 {
        assert(from * from == 0);
    }
    if !(from >= u16::MAX || from * from >= count) {
        lemma_least_root_bounds(from + 1, count);
    }
}

pub proof fn lemma_grid_columns_bounds(count: nat)
    ensures
        grid_columns(count) <= u16::MAX,
        count >= 1 ==> grid_columns(count) >= 1,
{
    lemma_least_root_bounds(0, count);
}

/// How many columns a grid of `count` tiles has.
fn grid_column_count(count: usize) -> (c: u16)
    ensures
        c == grid_columns(count as nat),
{
    let mut c: u32 = 0;
    while c < 65535 && (c as u64) * (c as u64) < (count as u64)
        invariant
            c <= u16::MAX,
            (c as u64) * (c as u64) <= 0xffff_ffff,
            least_root_from(c as nat, count as nat) == grid_columns(count as nat),
        decreases u16::MAX - c,
    {
        c += 1;
        assert((c as u64) * (c as u64) <= 0xffff_ffff) by (nonlinear_arith)
            requires
                c <= 0xffff,
        ;
    }
    c as u16
}

/// `count` cut down to 16 bits.
fn truncate16(count: usize) -> (c: u16)
    ensures
        c == count16(count as nat),
{
    let c: u16 = count as u16;
    assert(c == count % 0x10000) by (bit_vector)
        requires
            c == count as u16,
    ;
    c
}

/// Whether the grid's 16-bit arithmetic works out for `count` tiles in
/// `area`, so that [`compute_grid`] can lay them out.
pub fn grid_fits_in(area: Rect, count: usize) -> (b: bool)
    ensures
        b == grid_fits(area, count as nat),
{
    if count == 0 || area.width == 0 || area.height == 0 {
        return true;
    }
    proof {
        lemma_grid_columns_bounds(count as nat);
    }
    let columns: u16 = grid_column_count(count);
    let c16: u16 = truncate16(count);
    if c16 as u32 + columns as u32 > 65535 {
        return false;
    }
    let rows: u16 = (c16 + columns - 1) / columns;
    if rows == 0 {
        return false;
    }
    let cell_w: u32 = if area.width / columns >= 1 {
        (area.width / columns) as u32
    } else {
        1
    };
    let cell_h: u32 = if area.height / rows >= 1 {
        (area.height / rows) as u32
    } else {
        1
    };
    assert(cell_w == cell_width(area, count as nat));
    assert(cell_h == cell_height(area, count as nat));
    let limit: usize = if count < 65536 {
        count
    } else {
        65536
    };
    let mut index: usize = 0;
    while index < limit
        invariant
            !grid_empty(area, count as nat),
            count16(count as nat) + grid_columns(count as nat) <= u16::MAX,
            grid_rows(count as nat) >= 1,
            limit <= count,
            limit <= 65536,
            count >= 65536 ==> limit == 65536,
            columns == grid_columns(count as nat),
            columns >= 1,
            rows == grid_rows(count as nat),
            cell_w == cell_width(area, count as nat),
            cell_h == cell_height(area, count as nat),
            cell_w <= 65535,
            cell_h <= 65535,
            index <= limit,
            forall|i: nat| i < index ==> #[trigger] tile_fits(area, count as nat, i),
        decreases limit - index,
    {
        let i16: u32 = index as u32;
        assert(i16 % 0x10000 == index);
        let row: u32 = i16 / columns as u32;
        let column: u32 = i16 % columns as u32;
        assert(row == tile_row(count as nat, index as nat));
        assert(column == tile_column(count as nat, index as nat));
        assert(row <= 65535 && column <= 65535);
        assert(column * cell_w <= 65535 * 65535) by (nonlinear_arith)
            requires
                column <= 65535,
                cell_w <= 65535,
        ;
        assert(row * cell_h <= 65535 * 65535) by (nonlinear_arith)
            requires
                row <= 65535,
                cell_h <= 65535,
        ;
        let fits_x = area.x as u64 + column as u64 * cell_w as u64 <= 65535;
        let fits_y = area.y as u64 + row as u64 * cell_h as u64 <= 65535;
        if !(fits_x && fits_y) {
            assert(!tile_fits(area, count as nat, index as nat));
            assert((index as nat) < count as nat);
            assert(!grid_empty(area, count as nat));
            assert(!grid_fits(area, count as nat));
            return false;
        }
        index += 1;
    }
    assert forall|i: nat| i < count implies #[trigger] tile_fits(area, count as nat, i) by {
        let j: nat = i % 0x10000;
        assert(j < limit);
        assert(j % 0x10000 == j);
        assert(tile_fits(area, count as nat, j));
        assert(tile_row(count as nat, i) == tile_row(count as nat, j));
        assert(tile_column(count as nat, i) == tile_column(count as nat, j));
    }
    true
}

/// The places of `count` tiles in `area`: a grid with as many columns as the
/// ceiling of the square root of `count`, filled row by row, with equal cells
/// and the last column and row taking what is left; every place lies within
/// the area, those that find no room there with none.
pub fn compute_grid(area: Rect, count: usize) -> (rects: Vec<Rect>)
    requires
        grid_fits(area, count as nat),
    ensures
        grid_empty(area, count as nat) ==> rects@.len() == 0,
        !grid_empty(area, count as nat) ==> {
            &&& rects@.len() == count
            &&& forall|i: int| 0 <= i < count ==> #[trigger] rects@[i] == grid_rect(area, count as nat, i as nat)
        },
        forall|i: int| 0 <= i < rects@.len() ==> rect_within(#[trigger] rects@[i], area),
{
    if count == 0 || area.width == 0 || area.height == 0 {
        return Vec::new();
    }
    proof {
        lemma_grid_columns_bounds(count as nat);
    }
    let columns: u16 = grid_column_count(count);
    let c16: u16 = truncate16(count);
    let rows: u16 = (c16 + columns - 1) / columns;
    assert(rows == grid_rows(count as nat));
    let cell_w: u16 = if area.width / columns >= 1 {
        area.width / columns
    } else {
        1
    };
    let cell_h: u16 = if area.height / rows >= 1 {
        area.height / rows
    } else {
        1
    };
    assert(cell_w == cell_width(area, count as nat));
    assert(cell_h == cell_height(area, count as nat));
    let mut rects: Vec<Rect> = Vec::new();
    let mut index: usize = 0;
    while index < count
        invariant
            !grid_empty(area, count as nat),
            grid_fits(area, count as nat),
            columns == grid_columns(count as nat),
            columns >= 1,
            rows == grid_rows(count as nat),
            rows >= 1,
            cell_w == cell_width(area, count as nat),
            cell_h == cell_height(area, count as nat),
            index <= count,
            rects@.len() == index,
            forall|i: int| 0 <= i < index ==> #[trigger] rects@[i] == grid_rect(area, count as nat, i as nat),
            forall|i: int| 0 <= i < index ==> rect_within(#[trigger] rects@[i], area),
        decreases count - index,
    {
        let i16: u16 = truncate16(index);
        let row: u16 = i16 / columns;
        let column: u16 = i16 % columns;
        assert(tile_fits(area, count as nat, index as nat));
        assert(row == tile_row(count as nat, index as nat));
        assert(column == tile_column(count as nat, index as nat));
        let x: u16 = area.x + column * cell_w;
        let y: u16 = area.y + row * cell_h;
        let width: u16 = if column == columns - 1 {
            area.width.saturating_sub(column * cell_w)
        } else {
            cell_w
        };
        let height: u16 = if row == rows - 1 {
            area.height.saturating_sub(row * cell_h)
        } else {
            cell_h
        };
        assert(Rect { x, y, width, height } == grid_cell(area, count as nat, index as nat));
        let cell = clip(Rect { x, y, width, height }, area);
        proof {
            lemma_clip_within(Rect { x, y, width, height }, area);
        }
        rects.push(cell);
        index += 1;
    }
    rects
}

/// `a` cut to the part that lies within `area`.
fn clip(a: Rect, area: Rect) -> (c: Rect)
    requires
        area.x <= a.x,
        area.y <= a.y,
    ensures
        c == clip_to(a, area),
{
    let right: u32 = area.x as u32 + area.width as u32;
    let bottom: u32 = area.y as u32 + area.height as u32;
    let x: u32 = if (a.x as u32) <= right {
        a.x as u32
    } else {
        right
    };
    let y: u32 = if (a.y as u32) <= bottom {
        a.y as u32
    } else {
        bottom
    };
    let width: u32 = if (a.width as u32) <= right - x {
        a.width as u32
    } else {
        right - x
    };
    let height: u32 = if (a.height as u32) <= bottom - y {
        a.height as u32
    } else {
        bottom - y
    };
    Rect { x: x as u16, y: y as u16, width: width as u16, height: height as u16 }
}

/// A rectangle cut to an area, whose corner is not above or left of the
/// area's, lies within the area; one that lay within it already is unchanged.
pub proof fn lemma_clip_within(a: Rect, area: Rect)
    requires
        area.x <= a.x,
        area.y <= a.y,
    ensures
        rect_within(clip_to(a, area), area),
        rect_within(a, area) ==> clip_to(a, area) == a,
{
}

proof fn lemma_least_root_shape(from: nat, count: nat)
    requires
        from <= u16::MAX,
        from == 0 || (from - 1) * (from - 1) < count,
    ensures
        least_root_from(from, count) >= u16::MAX || least_root_from(from, count) * least_root_from(from, count) >= count,
        least_root_from(from, count) == 0 || (least_root_from(from, count) - 1) * (least_root_from(from, count) - 1) < count,
    decreases u16::MAX - from,
{
    if !(from >= u16::MAX || from * from >= count) {
        lemma_least_root_shape(from + 1, count);
    }
}

/// The grid has the fewest columns whose square holds all tiles: `c * c` is at
/// least `count`, and `(c - 1) * (c - 1)` is less.
pub proof fn law_grid_columns_least_square(count: nat)
    requires
        1 <= count <= u16::MAX * u16::MAX,
    ensures
        grid_columns(count) * grid_columns(count) >= count,
        (grid_columns(count) - 1) * (grid_columns(count) - 1) < count,
{
    lemma_least_root_shape(0, count);
    lemma_least_root_bounds(0, count);
    let c = grid_columns(count);
    if c >= u16::MAX {
        assert(c == u16::MAX);
    }
}

/// `a` lies within `area`.
pub open spec fn rect_within(a: Rect, area: Rect) -> bool {
    &&& area.x <= a.x
    &&& a.x + a.width <= area.x + area.width
    &&& area.y <= a.y
    &&& a.y + a.height <= area.y + area.height
}

/// `a` and `b` share no cell.
pub open spec fn rects_apart(a: Rect, b: Rect) -> bool {
    ||| a.x + a.width <= b.x
    ||| b.x + b.width <= a.x
    ||| a.y + a.height <= b.y
    ||| b.y + b.height <= a.y
}

/// The area has room for a cell per column and a row per line of tiles, and
/// lies within the 16-bit plane, for a number of tiles that the grid's 16-bit
/// arithmetic takes.
pub open spec fn roomy(area: Rect, count: nat) -> bool {
    &&& 1 <= count
    &&& count + grid_columns(count) <= u16::MAX
    &&& area.width >= grid_columns(count)
    &&& area.height >= grid_rows(count)
    &&& area.x + area.width <= u16::MAX
    &&& area.y + area.height <= u16::MAX
}

proof fn lemma_share(total: nat, parts: nat, k: nat)
    requires
        parts >= 1,
        k <= parts,
    ensures
        k * (total / parts) <= total,
        parts * (total / parts) <= total,
{
    assert(parts * (total / parts) <= total) by (nonlinear_arith)
        requires
            parts >= 1,
    ;
    assert(k * (total / parts) <= parts * (total / parts)) by (nonlinear_arith)
        requires
            k <= parts,
    ;
}

proof fn lemma_div_mod(i: nat, c: nat)
    requires
        c >= 1,
    ensures
        i == (i / c) * c + i % c,
        i % c < c,
{
    assert(i == (i / c) * c + i % c && i % c < c) by (nonlinear_arith)
        requires
            c >= 1,
    ;
}

proof fn lemma_mul_le(a: nat, b: nat, k: nat)
    requires
        a <= b,
    ensures
        a * k <= b * k,
{
    assert(a * k <= b * k) by (nonlinear_arith)
        requires
            a <= b,
    ;
}

/// Facts on one tile of a roomy grid: its row and column are in the grid, and
/// its cell lies within the area and has at least one cell of room.
proof fn lemma_tile(area: Rect, count: nat, i: nat)
    requires
        roomy(area, count),
        i < count,
    ensures
        tile_row(count, i) < grid_rows(count),
        tile_column(count, i) < grid_columns(count),
        tile_fits(area, count, i),
        rect_within(grid_cell(area, count, i), area),
        grid_rect(area, count, i) == grid_cell(area, count, i),
        grid_cell(area, count, i).width >= 1,
        grid_cell(area, count, i).height >= 1,
        grid_cell(area, count, i).x == area.x + tile_column(count, i) * cell_width(area, count),
        grid_cell(area, count, i).y == area.y + tile_row(count, i) * cell_height(area, count),
        tile_column(count, i) < grid_columns(count) - 1 ==> grid_cell(area, count, i).width == cell_width(area, count),
        tile_row(count, i) < grid_rows(count) - 1 ==> grid_cell(area, count, i).height == cell_height(area, count),
{
    lemma_grid_columns_bounds(count);
    let c = grid_columns(count);
    let r = grid_rows(count);
    let w = area.width as nat;
    let h = area.height as nat;
    assert(count16(count) == count);
    assert(i % 0x10000 == i);
    let row = tile_row(count, i);
    let col = tile_column(count, i);
    lemma_div_mod(i, c);
    assert(row == i / c && col == i % c);
    // the row is within the grid
    assert(r == (count + c - 1) as nat / c);
    assert(row < r) by (nonlinear_arith)
        requires
            c >= 1,
            i < count,
            row == i / c,
            r == (count + c - 1) as nat / c,
    ;
    assert(r >= 1);
    assert(w / c >= 1) by (nonlinear_arith)
        requires
            w >= c,
            c >= 1,
    ;
    assert(h / r >= 1) by (nonlinear_arith)
        requires
            h >= r,
            r >= 1,
    ;
    let cw = cell_width(area, count);
    let ch = cell_height(area, count);
    assert(cw == w / c);
    assert(ch == h / r);
    lemma_share(w, c, col);
    lemma_share(w, c, (col + 1) as nat);
    lemma_share(h, r, row);
    lemma_share(h, r, (row + 1) as nat);
    assert((col + 1) * cw == col * cw + cw) by (nonlinear_arith);
    assert((row + 1) * ch == row * ch + ch) by (nonlinear_arith);
    assert((c - 1) as nat * cw + cw == c * cw) by (nonlinear_arith)
        requires
            c >= 1,
    ;
    assert((r - 1) as nat * ch + ch == r * ch) by (nonlinear_arith)
        requires
            r >= 1,
    ;
    assert(rect_within(grid_cell(area, count, i), area));
    lemma_clip_within(grid_cell(area, count, i), area);
}

/// In an area with room for the grid, every tile lies within the area, has
/// at least one cell, and no two tiles share a cell.
pub proof fn law_grid_tiles_fill_apart(area: Rect, count: nat, i: nat, j: nat)
    requires
        roomy(area, count),
        i < count,
        j < count,
    ensures
        grid_fits(area, count),
        rect_within(grid_rect(area, count, i), area),
        grid_rect(area, count, i).width >= 1,
        grid_rect(area, count, i).height >= 1,
        i != j ==> rects_apart(grid_rect(area, count, i), grid_rect(area, count, j)),
{
    lemma_tile(area, count, i);
    lemma_tile(area, count, j);
    assert forall|k: nat| k < count implies #[trigger] tile_fits(area, count, k) by {
        lemma_tile(area, count, k);
    }
    lemma_grid_columns_bounds(count);
    let c = grid_columns(count);
    let cw = cell_width(area, count);
    let ch = cell_height(area, count);
    let (ri, ci) = (tile_row(count, i), tile_column(count, i));
    let (rj, cj) = (tile_row(count, j), tile_column(count, j));
    assert(i % 0x10000 == i && j % 0x10000 == j);
    lemma_div_mod(i, c);
    lemma_div_mod(j, c);
    if i != j {
        if ci < cj {
            lemma_mul_le((ci + 1) as nat, cj, cw);
            assert((ci + 1) * cw == ci * cw + cw) by (nonlinear_arith);
        } else if cj < ci {
            lemma_mul_le((cj + 1) as nat, ci, cw);
            assert((cj + 1) * cw == cj * cw + cw) by (nonlinear_arith);
        } else if ri < rj {
            lemma_mul_le((ri + 1) as nat, rj, ch);
            assert((ri + 1) * ch == ri * ch + ch) by (nonlinear_arith);
        } else if rj < ri {
            lemma_mul_le((rj + 1) as nat, ri, ch);
            assert((rj + 1) * ch == rj * ch + ch) by (nonlinear_arith);
        } else {
            assert(i == j);
        }
    }
}

/// Tiles in one column share their left edge and width, and tiles in one row
/// share their top edge and height.
pub proof fn law_grid_columns_and_rows_align(area: Rect, count: nat, i: nat, j: nat)
    ensures
        tile_column(count, i) == tile_column(count, j) ==> grid_rect(area, count, i).x == grid_rect(
            area,
            count,
            j,
        ).x && grid_rect(area, count, i).width == grid_rect(area, count, j).width,
        tile_row(count, i) == tile_row(count, j) ==> grid_rect(area, count, i).y == grid_rect(
            area,
            count,
            j,
        ).y && grid_rect(area, count, i).height == grid_rect(area, count, j).height,
{
}

/// However small the area, the grid can be laid out: every tile gets a place,
/// cramped into one-cell tiles where the area has too little room, as long as
/// the area and a cell per column and row lie within the 16-bit plane.
pub proof fn law_grid_fits_any_area(area: Rect, count: nat)
    requires
        count + grid_columns(count) <= u16::MAX,
        area.x + area.width <= u16::MAX,
        area.x + grid_columns(count) <= u16::MAX,
        area.y + area.height <= u16::MAX,
        area.y + grid_rows(count) <= u16::MAX,
    ensures
        grid_fits(area, count),
{
    if !grid_empty(area, count) {
        lemma_grid_columns_bounds(count);
        let c = grid_columns(count);
        let r = grid_rows(count);
        assert(count16(count) == count);
        assert(r >= 1) by (nonlinear_arith)
            requires
                c >= 1,
                count >= 1,
                r == (count + c - 1) as nat / c,
        ;
        assert forall|i: nat| i < count implies #[trigger] tile_fits(area, count, i) by {
            let w = area.width as nat;
            let h = area.height as nat;
            let cw = cell_width(area, count);
            let ch = cell_height(area, count);
            let row = tile_row(count, i);
            let col = tile_column(count, i);
            assert(i % 0x10000 == i);
            lemma_div_mod(i, c);
            assert(row < r) by (nonlinear_arith)
                requires
                    c >= 1,
                    i < count,
                    row == i / c,
                    r == (count + c - 1) as nat / c,
            ;
            if w >= c {
                lemma_share(w, c, col);
            } else {
                assert(w / c == 0) by (nonlinear_arith)
                    requires
                        w < c,
                ;
            }
            if h >= r {
                lemma_share(h, r, row);
            } else {
                assert(h / r == 0) by (nonlinear_arith)
                    requires
                        h < r,
                ;
            }
        }
    }
}

/// Wherever the grid can be laid out, every tile lies within the area: a too
/// small area leaves the tiles that do not fit with no room at its edge, and
/// none runs past it.
pub proof fn law_grid_tiles_within(area: Rect, count: nat, i: nat)
    requires
        grid_fits(area, count),
        !grid_empty(area, count),
        i < count,
    ensures
        rect_within(grid_rect(area, count, i), area),
{
    assert(tile_fits(area, count, i));
    lemma_clip_within(grid_cell(area, count, i), area);
}

} // verus!
