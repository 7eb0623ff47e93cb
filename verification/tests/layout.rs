use muxdex::layout::{compute_grid, grid_fits_in, Rect};

#[test]
fn layout_places_four_tiles_in_two_by_two_grid() {
    let rects = compute_grid(
        Rect {
            x: 0,
            y: 0,
            width: 120,
            height: 40,
        },
        4,
    );

    assert_eq!(rects.len(), 4);
    assert_eq!(rects[0].width, rects[1].width);
    assert_eq!(rects[0].height, rects[2].height);
}

#[test]
fn grid_places_tiles_row_by_row() {
    let area = Rect {
        x: 2,
        y: 1,
        width: 100,
        height: 31,
    };
    let rects = compute_grid(area, 5);
    assert_eq!(
        rects,
        vec![
            Rect { x: 2, y: 1, width: 33, height: 15 },
            Rect { x: 35, y: 1, width: 33, height: 15 },
            Rect { x: 68, y: 1, width: 34, height: 15 },
            Rect { x: 2, y: 16, width: 33, height: 16 },
            Rect { x: 35, y: 16, width: 33, height: 16 },
        ]
    );
}

#[test]
fn grid_of_nothing_is_empty() {
    let area = Rect {
        x: 0,
        y: 0,
        width: 10,
        height: 10,
    };
    assert!(compute_grid(area, 0).is_empty());
    assert!(compute_grid(Rect { width: 0, ..area }, 3).is_empty());
    assert!(compute_grid(Rect { height: 0, ..area }, 3).is_empty());
}

#[test]
fn cramped_grid_gives_each_tile_a_cell() {
    let area = Rect {
        x: 0,
        y: 0,
        width: 2,
        height: 1,
    };
    let rects = compute_grid(area, 4);
    assert_eq!(rects[0], Rect { x: 0, y: 0, width: 1, height: 1 });
    assert_eq!(rects[1], Rect { x: 1, y: 0, width: 1, height: 1 });
    assert_eq!(rects[3], Rect { x: 1, y: 1, width: 1, height: 0 });
}

#[test]
fn grid_fit_check_rejects_overflowing_corners() {
    let area = Rect {
        x: 65535,
        y: 0,
        width: 1,
        height: 1,
    };
    assert!(grid_fits_in(area, 1));
    assert!(!grid_fits_in(area, 2));
    assert!(!grid_fits_in(Rect { x: 0, ..area }, 65535));
}

#[test]
fn tiles_of_a_roomy_grid_lie_inside_and_apart() {
    let area = Rect {
        x: 3,
        y: 4,
        width: 50,
        height: 20,
    };
    let rects = compute_grid(area, 7);
    for (i, a) in rects.iter().enumerate() {
        assert!(a.x >= area.x && a.x + a.width <= area.x + area.width);
        assert!(a.y >= area.y && a.y + a.height <= area.y + area.height);
        for b in rects.iter().skip(i + 1) {
            let apart = a.x + a.width <= b.x
                || b.x + b.width <= a.x
                || a.y + a.height <= b.y
                || b.y + b.height <= a.y;
            assert!(apart);
        }
    }
}

#[test]
fn tiny_area_keeps_every_tile_inside() {
    let area = Rect {
        x: 0,
        y: 0,
        width: 1,
        height: 1,
    };
    assert!(grid_fits_in(area, 9));
    let rects = compute_grid(area, 9);
    assert_eq!(rects.len(), 9);
    assert_eq!(rects[0], Rect { x: 0, y: 0, width: 1, height: 1 });
    assert_eq!(rects[8], Rect { x: 1, y: 1, width: 0, height: 0 });
}

#[test]
fn flat_area_leaves_rows_that_do_not_fit_without_room() {
    let area = Rect {
        x: 0,
        y: 0,
        width: 120,
        height: 1,
    };
    let rects = compute_grid(area, 9);
    assert_eq!(rects.len(), 9);
    assert_eq!(rects[0], Rect { x: 0, y: 0, width: 40, height: 1 });
    assert_eq!(rects[2], Rect { x: 80, y: 0, width: 40, height: 1 });
    assert_eq!(rects[3], Rect { x: 0, y: 1, width: 40, height: 0 });
    assert_eq!(rects[8], Rect { x: 80, y: 1, width: 40, height: 0 });
    for r in &rects {
        assert!(r.y + r.height <= area.y + area.height);
        assert!(r.x + r.width <= area.x + area.width);
    }
}
