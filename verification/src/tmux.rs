use ansi_to_tui::IntoText;
use ratatui::text::Text;
use vstd::prelude::*;

use crate::chars::{
    char_vec_views, chars_of, concat_str, contains_chars, has_piece, is_white, lemma_piece_of_part, lemma_trim_bounds, join_strings, join_with, lemma_join_contains, lemma_join_split, string_views, lemma_split_on_nonempty, split_chars, split_on,
    string_of, trim_chars, trim_white,
};

verus! {

/// The escape character that starts an ANSI escape sequence.
pub open spec fn is_escape(c: char) -> bool {
    c == '\u{1b}'
}

/// A final character of a control sequence, in the range `'@'..='~'`.
pub open spec fn is_csi_final(c: char) -> bool {
    '@' <= c && c <= '~'
}

/// How many characters the body of a control sequence takes: everything up to
/// and including the first final character, or all of `s` when there is none.
pub open spec fn csi_body_len(s: Seq<char>) -> nat
    decreases s.len(),
{
    if s.len() == 0 {
        0
    } else if is_csi_final(s[0]) {
        1
    } else {
        1 + csi_body_len(s.drop_first())
    }
}

pub proof fn lemma_csi_body_len_bound(s: Seq<char>)
    ensures
        csi_body_len(s) <= s.len(),
    decreases s.len(),
{
    if s.len() > 0 && !is_csi_final(s[0]) {
        lemma_csi_body_len_bound(s.drop_first());
    }
}

/// `s` with its ANSI escapes removed: an escape followed by `[` starts a control
/// sequence that runs up to and including its final character, and is dropped
/// whole; any other escape character is dropped alone.
pub open spec fn strip_ansi(s: Seq<char>) -> Seq<char>
    decreases s.len(),
{
    if s.len() == 0 {
        seq![]
    } else if !is_escape(s[0]) {
        seq![s[0]].add(strip_ansi(s.drop_first()))
    } else if s.len() >= 2 && s[1] == '[' {
        proof {
            lemma_csi_body_len_bound(s.skip(2));
        }
        strip_ansi(s.skip(2 + csi_body_len(s.skip(2)) as int))
    } else {
        strip_ansi(s.drop_first())
    }
}

fn is_final_char(c: char) -> (b: bool)
    ensures
        b == is_csi_final(c),
{
    '@' <= c && c <= '~'
}

/// Removes the ANSI escape sequences from `raw`.
pub fn strip_ansi_escapes(raw: &str) -> (out: String)
    ensures
        out@ == strip_ansi(raw@),
{
    let cs = chars_of(raw);
    let n = cs.len();
    let mut out: Vec<char> = Vec::new();
    let mut i: usize = 0;
    proof {
        assert(cs@.skip(0) =~= cs@);
    }
    while i < n
        invariant
            n == cs@.len(),
            i <= n,
            strip_ansi(cs@) == out@ + strip_ansi(cs@.skip(i as int)),
        decreases n - i,
    {
        let ch = cs[i];
        let ghost rest = cs@.skip(i as int);
        assert(rest[0] == ch);
        assert(rest.drop_first() =~= cs@.skip(i + 1));
        if ch != '\u{1b}' {
            out.push(ch);
            i += 1;
            assert(strip_ansi(cs@) == out@ + strip_ansi(cs@.skip(i as int))) by {
                assert(out@ =~= out@.drop_last().push(ch));
            }
        } else if i + 1 < n && cs[i + 1] == '[' {
            let start = i + 2;
            let ghost body = cs@.skip(start as int);
            assert(rest.skip(2) =~= body);
            i = start;
            let mut done = false;
            while i < n && !done
                invariant
                    n == cs@.len(),
                    start <= i <= n,
                    body == cs@.skip(start as int),
                    !done ==> csi_body_len(body) == (i - start) + csi_body_len(cs@.skip(i as int)),
                    done ==> csi_body_len(body) == i - start,
                decreases n - i,
            {
                let e = cs[i];
                let ghost t = cs@.skip(i as int);
                assert(t[0] == e);
                assert(t.drop_first() =~= cs@.skip(i + 1));
                if is_final_char(e) {
                    done = true;
                }
                i += 1;
            }
            proof {
                if !done {
                    assert(cs@.skip(i as int).len() == 0);
                }
                assert(rest.skip(2 + csi_body_len(body) as int) =~= cs@.skip(i as int));
            }
        } else {
            i += 1;
        }
    }
    proof {
        assert(cs@.skip(n as int) =~= Seq::<char>::empty());
        assert(out@ + Seq::<char>::empty() =~= out@);
    }
    string_of(&out)
}

/// `s` with every CRLF pair and every lone CR turned into LF.
pub open spec fn unify_newlines(s: Seq<char>) -> Seq<char>
    decreases s.len(),
{
    if s.len() == 0 {
        seq![]
    } else if s[0] == '\r' && s.len() >= 2 && s[1] == '\n' {
        seq!['\n'].add(unify_newlines(s.skip(2)))
    } else if s[0] == '\r' {
        seq!['\n'].add(unify_newlines(s.drop_first()))
    } else {
        seq![s[0]].add(unify_newlines(s.drop_first()))
    }
}

/// `s` without the LF characters at its end.
pub open spec fn trim_trailing_newlines(s: Seq<char>) -> Seq<char>
    decreases s.len(),
{
    if s.len() > 0 && s.last() == '\n' {
        trim_trailing_newlines(s.drop_last())
    } else {
        s
    }
}

/// The lines of `s` once its line breaks are unified to LF and the LFs at its
/// end are dropped.
pub open spec fn normalized_lines(s: Seq<char>) -> Seq<Seq<char>> {
    split_on(trim_trailing_newlines(unify_newlines(s)), '\n')
}

/// Strings holding the character vectors of `v`, in order.
fn strings_of(v: &Vec<Vec<char>>) -> (out: Vec<String>)
    ensures
        string_views(out@) == char_vec_views(v@),
{
    let mut out: Vec<String> = Vec::new();
    let mut i: usize = 0;
    while i < v.len()
        invariant
            i <= v@.len(),
            string_views(out@) == char_vec_views(v@).take(i as int),
        decreases v@.len() - i,
    {
        let ghost o0 = string_views(out@);
        let line = string_of(&v[i]);
        out.push(line);
        assert(string_views(out@) =~= o0.push(v@[i as int]@));
        assert(char_vec_views(v@).take(i + 1) =~= char_vec_views(v@).take(i as int).push(
            v@[i as int]@,
        ));
        i += 1;
    }
    assert(char_vec_views(v@).take(i as int) =~= char_vec_views(v@));
    out
}

/// `raw` cut into its lines: line breaks are unified to LF, the LFs at the end
/// are dropped, and the rest is split at each LF.
pub fn normalize_newlines(raw: &str) -> (lines: Vec<String>)
    ensures
        string_views(lines@) == normalized_lines(raw@),
{
    let cs = chars_of(raw);
    let n = cs.len();
    // Unify the line breaks.
    let mut u: Vec<char> = Vec::new();
    let mut i: usize = 0;
    proof {
        assert(cs@.skip(0) =~= cs@);
    }
    while i < n
        invariant
            n == cs@.len(),
            i <= n,
            unify_newlines(cs@) == u@ + unify_newlines(cs@.skip(i as int)),
        decreases n - i,
    {
        let ghost rest = cs@.skip(i as int);
        let ghost u0 = u@;
        assert(rest[0] == cs@[i as int]);
        assert(rest.drop_first() =~= cs@.skip(i + 1));
        if cs[i] == '\r' && i + 1 < n && cs[i + 1] == '\n' {
            assert(rest.skip(2) =~= cs@.skip(i + 2));
            u.push('\n');
            i += 2;
        } else if cs[i] == '\r' {
            u.push('\n');
            i += 1;
        } else {
            u.push(cs[i]);
            i += 1;
        }
        assert(u@ =~= u0 + seq![u@.last()]);
        assert(u0 + (seq![u@.last()] + unify_newlines(cs@.skip(i as int))) =~= u@
            + unify_newlines(cs@.skip(i as int)));
    }
    proof {
        assert(cs@.skip(n as int) =~= Seq::<char>::empty());
        assert(u@ + Seq::<char>::empty() =~= u@);
    }
    // Drop the line feeds at the end.
    proof {
        assert(u@.take(u@.len() as int) =~= u@);
    }
    while u.len() > 0 && u[u.len() - 1] == '\n'
        invariant
            trim_trailing_newlines(unify_newlines(raw@)) == trim_trailing_newlines(u@),
        decreases u@.len(),
    {
        let ghost u0 = u@;
        u.pop();
        assert(u@ =~= u0.drop_last());
    }
    // Split at each line feed.
    let pieces = split_chars(&u, '\n');
    strings_of(&pieces)
}

/// The size of a tmux pane, in cells.
#[derive(Debug, Clone, PartialEq, Eq)]
pub struct PaneSize {
    pub width: u16,
    pub height: u16,
}

/// One session as `tmux list-panes` reports it: its name, its active pane and
/// that pane's size.
#[derive(Debug, Clone, PartialEq, Eq)]
pub struct TmuxSessionRow {
    pub name: String,
    pub active_pane_id: String,
    pub pane_size: PaneSize,
}

/// What a session row holds, as character sequences.
pub struct SessionRowView {
    pub name: Seq<char>,
    pub active_pane_id: Seq<char>,
    pub pane_size: PaneSize,
}

impl View for TmuxSessionRow {
    type V = SessionRowView;

    open spec fn view(&self) -> SessionRowView {
        SessionRowView {
            name: self.name@,
            active_pane_id: self.active_pane_id@,
            pane_size: self.pane_size,
        }
    }
}

/// Why a decimal number did not parse, with the kinds that `u16::from_str`
/// reports for an unsigned integer.
#[derive(Debug, Clone, Copy, PartialEq, Eq)]
pub enum IntErrorKind {
    Empty,
    InvalidDigit,
    PosOverflow,
}

pub open spec fn is_decimal_digit(c: char) -> bool {
    '0' <= c && c <= '9'
}

pub open spec fn digit_value(c: char) -> nat {
    (c as u32 - '0' as u32) as nat
}

/// Reads the decimal digits `s` after the value `acc` read so far, from left
/// to right: a character that is no digit stops it with `InvalidDigit`, a value
/// above `u16::MAX` with `PosOverflow`, whichever comes first.
pub open spec fn digits_value(acc: nat, s: Seq<char>) -> Result<u16, IntErrorKind>
    decreases s.len(),
{
    if s.len() == 0 {
        Ok(acc as u16)
    } else if !is_decimal_digit(s[0]) {
        Err(IntErrorKind::InvalidDigit)
    } else if acc * 10 + digit_value(s[0]) > u16::MAX {
        Err(IntErrorKind::PosOverflow)
    } else {
        digits_value(acc * 10 + digit_value(s[0]), s.drop_first())
    }
}

/// `s` read as a `u16` the way `str::parse::<u16>` reads it: decimal digits
/// with an optional leading `+`.
pub open spec fn parse_u16_spec(s: Seq<char>) -> Result<u16, IntErrorKind> {
    if s.len() == 0 {
        Err(IntErrorKind::Empty)
    } else if s.len() == 1 && (s[0] == '+' || s[0] == '-') {
        Err(IntErrorKind::InvalidDigit)
    } else if s[0] == '+' {
        digits_value(0, s.drop_first())
    } else {
        digits_value(0, s)
    }
}

/// Reads `s` as a decimal `u16`.
pub fn parse_u16(s: &Vec<char>) -> (r: Result<u16, IntErrorKind>)
    ensures
        r == parse_u16_spec(s@),
{
    let n = s.len();
    if n == 0 {
        return Err(IntErrorKind::Empty);
    }
    if n == 1 && (s[0] == '+' || s[0] == '-') {
        return Err(IntErrorKind::InvalidDigit);
    }
    let mut i: usize = if s[0] == '+' { 1 } else { 0 };
    let ghost digits = s@.skip(i as int);
    assert(s[0] == '+' ==> digits =~= s@.drop_first());
    assert(s[0] != '+' ==> digits =~= s@);
    let mut acc: u32 = 0;
    while i < n
        invariant
            n == s@.len(),
            i <= n,
            acc <= u16::MAX,
            parse_u16_spec(s@) == digits_value(0, digits),
            digits_value(0, digits) == digits_value(acc as nat, s@.skip(i as int)),
        decreases n - i,
    {
        let c = s[i];
        let ghost t = s@.skip(i as int);
        assert(t[0] == c);
        assert(t.drop_first() =~= s@.skip(i + 1));
        if !('0' <= c && c <= '9') {
            return Err(IntErrorKind::InvalidDigit);
        }
        let d = (c as u32) - ('0' as u32);
        let next = acc * 10 + d;
        if next > 65535 {
            return Err(IntErrorKind::PosOverflow);
        }
        acc = next;
        i += 1;
    }
    assert(s@.skip(n as int) =~= Seq::<char>::empty());
    Ok(acc as u16)
}

/// Why a listing of tmux panes could not be read.
#[derive(Debug, Clone, PartialEq, Eq)]
pub enum RowParseError {
    /// A row with neither four nor six `|`-separated fields.
    InvalidRow { line: String },
    /// A row whose width field is no `u16`.
    InvalidWidth { kind: IntErrorKind },
    /// A row whose height field is no `u16`.
    InvalidHeight { kind: IntErrorKind },
}

/// What a [`RowParseError`] holds, with the line as characters.
pub enum RowErrorView {
    InvalidRow { line: Seq<char> },
    InvalidWidth { kind: IntErrorKind },
    InvalidHeight { kind: IntErrorKind },
}

impl View for RowParseError {
    type V = RowErrorView;

    open spec fn view(&self) -> RowErrorView {
        match self {
            RowParseError::InvalidRow { line } => RowErrorView::InvalidRow { line: line@ },
            RowParseError::InvalidWidth { kind } => RowErrorView::InvalidWidth { kind: *kind },
            RowParseError::InvalidHeight { kind } => RowErrorView::InvalidHeight { kind: *kind },
        }
    }
}

/// The rows of `s` as `str::lines` gives them: split at each LF, a final empty
/// piece left out, and a CR just before an LF removed.
pub open spec fn std_lines(s: Seq<char>) -> Seq<Seq<char>> {
    let p = split_on(s, '\n');
    let body = p.drop_last().map_values(|l: Seq<char>| strip_cr(l));
    if p.last().len() == 0 {
        body
    } else {
        body.push(p.last())
    }
}

/// `l` without one CR at its end.
pub open spec fn strip_cr(l: Seq<char>) -> Seq<char> {
    if l.len() > 0 && l.last() == '\r' {
        l.drop_last()
    } else {
        l
    }
}

/// The session name of a `session_name` field: the part before the first `:`.
pub open spec fn session_name_of(field: Seq<char>) -> Seq<char> {
    split_on(field, ':')[0]
}

/// The row built from its four fields, or the first field that is no number.
pub open spec fn build_row_spec(
    name: Seq<char>,
    pane: Seq<char>,
    width: Seq<char>,
    height: Seq<char>,
) -> Result<SessionRowView, RowErrorView> {
    match parse_u16_spec(width) {
        Err(kind) => Err(RowErrorView::InvalidWidth { kind }),
        Ok(w) => match parse_u16_spec(height) {
            Err(kind) => Err(RowErrorView::InvalidHeight { kind }),
            Ok(h) => Ok(
                SessionRowView {
                    name: session_name_of(name),
                    active_pane_id: pane,
                    pane_size: PaneSize { width: w, height: h },
                },
            ),
        },
    }
}

/// What one row says: four fields give a session; six give one when the last
/// two (window active, pane active) are both `1`, and nothing otherwise; any
/// other number of fields is an invalid row.
pub open spec fn row_spec(line: Seq<char>) -> Option<Result<SessionRowView, RowErrorView>> {
    let f = split_on(line, '|');
    if f.len() == 4 {
        Some(build_row_spec(f[0], f[1], f[2], f[3]))
    } else if f.len() == 6 {
        if f[4] == seq!['1'] && f[5] == seq!['1'] {
            Some(build_row_spec(f[0], f[1], f[2], f[3]))
        } else {
            None
        }
    } else {
        Some(Err(RowErrorView::InvalidRow { line }))
    }
}

/// The sessions of `lines`, blank lines skipped, or the first error.
pub open spec fn rows_spec(lines: Seq<Seq<char>>) -> Result<Seq<SessionRowView>, RowErrorView>
    decreases lines.len(),
{
    if lines.len() == 0 {
        Ok(seq![])
    } else if trim_white(lines[0]).len() == 0 {
        rows_spec(lines.drop_first())
    } else {
        match row_spec(lines[0]) {
            None => rows_spec(lines.drop_first()),
            Some(Err(e)) => Err(e),
            Some(Ok(r)) => match rows_spec(lines.drop_first()) {
                Ok(rs) => Ok(seq![r].add(rs)),
                Err(e) => Err(e),
            },
        }
    }
}

/// What `parse_session_rows` gives for the listing `rows`.
pub open spec fn parse_rows_spec(rows: Seq<char>) -> Result<Seq<SessionRowView>, RowErrorView> {
    rows_spec(std_lines(rows))
}

pub open spec fn row_views(v: Seq<TmuxSessionRow>) -> Seq<SessionRowView> {
    v.map_values(|r: TmuxSessionRow| r@)
}

/// The rows of `s` as `str::lines` gives them.
fn lines_of(s: &Vec<char>) -> (lines: Vec<Vec<char>>)
    ensures
        char_vec_views(lines@) == std_lines(s@),
{
    let p = split_chars(s, '\n');
    proof {
        lemma_split_on_nonempty(s@, '\n');
    }
    let k = p.len();
    let ghost pv = char_vec_views(p@);
    let mut out: Vec<Vec<char>> = Vec::new();
    let mut i: usize = 0;
    while i + 1 < k
        invariant
            k == p@.len() >= 1,
            pv == char_vec_views(p@),
            i + 1 <= k,
            char_vec_views(out@) == pv.drop_last().map_values(|l: Seq<char>| strip_cr(l)).take(
                i as int,
            ),
        decreases k - i,
    {
        let mut l: Vec<char> = p[i].clone();
        assert(l@ == pv[i as int]);
        let m = l.len();
        if m > 0 && l[m - 1] == '\r' {
            l.pop();
        }
        let ghost o0 = char_vec_views(out@);
        out.push(l);
        assert(char_vec_views(out@) =~= o0.push(l@));
        assert(pv.drop_last().map_values(|l: Seq<char>| strip_cr(l)).take(i + 1) =~= pv.drop_last().map_values(
            |l: Seq<char>| strip_cr(l),
        ).take(i as int).push(strip_cr(pv[i as int])));
        i += 1;
    }
    assert(pv.drop_last().map_values(|l: Seq<char>| strip_cr(l)).take(i as int) =~= pv.drop_last().map_values(
        |l: Seq<char>| strip_cr(l),
    ));
    let last = p[k - 1].clone();
    if last.len() != 0 {
        let ghost o0 = char_vec_views(out@);
        out.push(last);
        assert(char_vec_views(out@) =~= o0.push(pv.last()));
    }
    out
}

pub open spec fn row_result_view(r: Result<TmuxSessionRow, RowParseError>) -> Result<
    SessionRowView,
    RowErrorView,
> {
    match r {
        Ok(row) => Ok(row@),
        Err(e) => Err(e@),
    }
}

pub open spec fn rows_result_view(r: Result<Vec<TmuxSessionRow>, RowParseError>) -> Result<
    Seq<SessionRowView>,
    RowErrorView,
> {
    match r {
        Ok(rows) => Ok(row_views(rows@)),
        Err(e) => Err(e@),
    }
}

/// `rest` with the sessions `done` put before it.
pub open spec fn prepend_rows(
    done: Seq<SessionRowView>,
    rest: Result<Seq<SessionRowView>, RowErrorView>,
) -> Result<Seq<SessionRowView>, RowErrorView> {
    match rest {
        Ok(rs) => Ok(done + rs),
        Err(e) => Err(e),
    }
}

fn build_session_row(
    name: &Vec<char>,
    active_pane_id: &Vec<char>,
    width: &Vec<char>,
    height: &Vec<char>,
) -> (r: Result<TmuxSessionRow, RowParseError>)
    ensures
        row_result_view(r) == build_row_spec(name@, active_pane_id@, width@, height@),
{
    let name_parts = split_chars(name, ':');
    proof {
        lemma_split_on_nonempty(name@, ':');
    }
    let session = string_of(&name_parts[0]);
    let pane = string_of(active_pane_id);
    let w = match parse_u16(width) {
        Ok(w) => w,
        Err(kind) => {
            return Err(RowParseError::InvalidWidth { kind });
        },
    };
    let h = match parse_u16(height) {
        Ok(h) => h,
        Err(kind) => {
            return Err(RowParseError::InvalidHeight { kind });
        },
    };
    Ok(
        TmuxSessionRow {
            name: session,
            active_pane_id: pane,
            pane_size: PaneSize { width: w, height: h },
        },
    )
}

fn parse_session_row(line: &Vec<char>) -> (r: Option<Result<TmuxSessionRow, RowParseError>>)
    ensures
        match r {
            None => row_spec(line@) is None,
            Some(res) => row_spec(line@) == Some(row_result_view(res)),
        },
{
    let f = split_chars(line, '|');
    let ghost fv = char_vec_views(f@);
    assert(fv.len() == f@.len());
    if f.len() == 4 {
        assert(f@[0]@ == fv[0] && f@[1]@ == fv[1] && f@[2]@ == fv[2] && f@[3]@ == fv[3]);
        Some(build_session_row(&f[0], &f[1], &f[2], &f[3]))
    } else if f.len() == 6 {
        assert(f@[0]@ == fv[0] && f@[1]@ == fv[1] && f@[2]@ == fv[2] && f@[3]@ == fv[3]);
        assert(f@[4]@ == fv[4] && f@[5]@ == fv[5]);
        let one4 = f[4].len() == 1 && f[4][0] == '1';
        let one5 = f[5].len() == 1 && f[5][0] == '1';
        assert(one4 <==> fv[4] =~= seq!['1']);
        assert(one5 <==> fv[5] =~= seq!['1']);
        if one4 && one5 {
            Some(build_session_row(&f[0], &f[1], &f[2], &f[3]))
        } else {
            None
        }
    } else {
        Some(Err(RowParseError::InvalidRow { line: string_of(line) }))
    }
}

/// Reads the sessions that a `tmux list-panes` listing names.
///
/// Each non-blank line of `rows` holds `|`-separated fields: session name,
/// pane id, pane width and pane height, and optionally whether the pane's
/// window is active and whether the pane is active. A line with the two
/// optional fields names a session only for the active pane of its active
/// window. The first line that cannot be read makes the whole listing fail.
pub fn parse_session_rows(rows: &str) -> (r: Result<Vec<TmuxSessionRow>, RowParseError>)
    ensures
        rows_result_view(r) == parse_rows_spec(rows@),
{
    let cs = chars_of(rows);
    let lines = lines_of(&cs);
    let ghost lv = char_vec_views(lines@);
    let mut out: Vec<TmuxSessionRow> = Vec::new();
    let mut i: usize = 0;
    proof {
        assert(lv.skip(0) =~= lv);
        assert(Seq::<SessionRowView>::empty() + Seq::<SessionRowView>::empty() =~= Seq::<
            SessionRowView,
        >::empty());
        match rows_spec(lv) {
            Ok(rs) => {
                assert(row_views(out@) + rs =~= rs);
            },
            Err(_) => {},
        }
    }
    while i < lines.len()
        invariant
            lv == char_vec_views(lines@),
            lv == std_lines(cs@),
            cs@ == rows@,
            i <= lines@.len(),
            rows_spec(lv) == prepend_rows(row_views(out@), rows_spec(lv.skip(i as int))),
        decreases lines@.len() - i,
    {
        let ghost rest = lv.skip(i as int);
        assert(rest[0] == lines@[i as int]@);
        assert(rest.drop_first() =~= lv.skip(i + 1));
        let t = trim_chars(&lines[i]);
        if t.len() == 0 {
        } else {
            match parse_session_row(&lines[i]) {
                None => {},
                Some(Err(e)) => {
                    assert(rows_spec(rest) == Err::<Seq<SessionRowView>, RowErrorView>(e@));
                    return Err(e);
                },
                Some(Ok(row)) => {
                    let ghost o0 = row_views(out@);
                    out.push(row);
                    proof {
                        assert(row_views(out@) =~= o0.push(row@));
                        match rows_spec(lv.skip(i + 1)) {
                            Ok(rs) => {
                                assert(o0 + (seq![row@] + rs) =~= row_views(out@) + rs);
                            },
                            Err(_) => {},
                        }
                    }
                },
            }
        }
        i += 1;
    }
    proof {
        assert(lv.skip(i as int) =~= Seq::<Seq<char>>::empty());
        assert(row_views(out@) + Seq::<SessionRowView>::empty() =~= row_views(out@));
    }
    Ok(out)
}

#[verifier::external_type_specification]
#[verifier::external_body]
pub struct ExText<'a>(Text<'a>);

/// The `Clone` of `ratatui::text::Text`, which `derive` writes: it copies
/// each field, so the copy equals the value it was made from.
pub assume_specification<'a>[ <Text<'a> as Clone>::clone ](t: &Text<'a>) -> (res: Text<'a>)
    ensures
        res == *t,
;

/// What `ansi_to_tui` makes of the bytes of `raw`: styled text, or nothing
/// where it reports an error.
pub uninterp spec fn ansi_text(raw: Seq<char>) -> Option<Text<'static>>;

/// What `Text::raw` makes of `content`: unstyled text, one line per line of
/// `content`.
pub uninterp spec fn plain_text_of(content: Seq<char>) -> Text<'static>;

/// Calls `IntoText::into_text` of `ansi_to_tui` on the bytes of `raw`; its
/// error becomes `None`. The contract says only that the result is the one
/// that `ansi_text` names for `raw`: the parser is a function of the bytes it
/// reads, and nothing else is stated of the text it builds.
#[verifier::external_body]
fn ansi_into_text(raw: &str) -> (t: Option<Text<'static>>)
    ensures
        t == ansi_text(raw@),
{
    raw.into_text().ok()
}

/// Calls `ratatui::text::Text::raw` on `content`; the contract says only that
/// the result is the one that `plain_text_of` names for `content`.
#[verifier::external_body]
fn raw_text(content: String) -> (t: Text<'static>)
    ensures
        t == plain_text_of(content@),
{
    Text::raw(content)
}

/// The styled text that a capture shows: the ANSI-styled text of `raw`, or,
/// where the escapes cannot be read, the plain text of `raw` without them.
pub open spec fn capture_text(raw: Seq<char>) -> Text<'static> {
    match ansi_text(raw) {
        Some(t) => t,
        None => plain_text_of(strip_ansi(raw)),
    }
}

/// The last captured content of a pane.
#[derive(Debug, PartialEq, Eq)]
pub struct PaneSnapshot {
    width: u16,
    height: u16,
    text: Text<'static>,
    plain_lines: Vec<String>,
}

impl Clone for PaneSnapshot {
    fn clone(&self) -> (c: Self)
        ensures
            c@ == self@,
    {
        let lines = self.plain_lines.clone();
        assert(lines@ =~= self.plain_lines@);
        PaneSnapshot {
            width: self.width,
            height: self.height,
            text: self.text.clone(),
            plain_lines: lines,
        }
    }
}

/// What a snapshot holds: the pane's size, its styled text and its plain lines.
pub struct PaneSnapshotView {
    pub width: u16,
    pub height: u16,
    pub text: Text<'static>,
    pub lines: Seq<Seq<char>>,
}

impl View for PaneSnapshot {
    type V = PaneSnapshotView;

    closed spec fn view(&self) -> PaneSnapshotView {
        PaneSnapshotView {
            width: self.width,
            height: self.height,
            text: self.text,
            lines: string_views(self.plain_lines@),
        }
    }
}

/// The snapshot of a capture `raw` of a pane of the given size.
pub open spec fn capture_snapshot(raw: Seq<char>, width: u16, height: u16) -> PaneSnapshotView {
    PaneSnapshotView {
        width,
        height,
        text: capture_text(raw),
        lines: normalized_lines(strip_ansi(raw)),
    }
}

/// A snapshot that shows `message` alone.
pub open spec fn placeholder_snapshot(message: Seq<char>, width: u16, height: u16) -> PaneSnapshotView {
    PaneSnapshotView { width, height, text: plain_text_of(message), lines: seq![message] }
}

impl PaneSnapshot {
    /// The snapshot of `raw`, the output of `tmux capture-pane -e` for a pane
    /// of the given size.
    pub fn from_tmux_capture(raw: &str, width: u16, height: u16) -> (s: Self)
        ensures
            s@ == capture_snapshot(raw@, width, height),
            ansi_text(raw@) matches Some(t) ==> s@.text == t,
    {
        let text = match ansi_into_text(raw) {
            Some(t) => t,
            None => raw_text(strip_ansi_escapes(raw)),
        };
        let stripped = strip_ansi_escapes(raw);
        let plain_lines = normalize_newlines(stripped.as_str());
        PaneSnapshot { width, height, text, plain_lines }
    }

    /// The plain lines of the snapshot.
    pub fn lines(&self) -> (l: &[String])
        ensures
            string_views(l@) == self@.lines,
    {
        self.plain_lines.as_slice()
    }

    /// The plain lines of the snapshot, joined with LF.
    pub fn plain_text(&self) -> (t: String)
        ensures
            t@ == join_with(self@.lines, '\n'),
    {
        join_strings(&self.plain_lines)
    }

    /// The styled text of the snapshot.
    pub fn text(&self) -> (t: &Text<'static>)
        ensures
            *t == self@.text,
    {
        &self.text
    }

    /// A snapshot that shows `message` alone.
    pub fn placeholder(message: &str, width: u16, height: u16) -> (s: Self)
        ensures
            s@ == placeholder_snapshot(message@, width, height),
    {
        let text = raw_text(message.to_owned());
        let mut plain_lines: Vec<String> = Vec::new();
        plain_lines.push(message.to_owned());
        let snapshot = PaneSnapshot { width, height, text, plain_lines };
        assert(string_views(snapshot.plain_lines@) =~= seq![message@]);
        snapshot
    }
}

/// The text of a [`std::num::ParseIntError`] of the given kind.
pub open spec fn int_error_message(kind: IntErrorKind) -> Seq<char> {
    match kind {
        IntErrorKind::Empty => "cannot parse integer from empty string"@,
        IntErrorKind::InvalidDigit => "invalid digit found in string"@,
        IntErrorKind::PosOverflow => "number too large to fit in target type"@,
    }
}

/// The text of a [`RowParseError`].
pub open spec fn row_error_message(e: RowErrorView) -> Seq<char> {
    match e {
        RowErrorView::InvalidRow { line } => "invalid tmux row: "@ + line,
        RowErrorView::InvalidWidth { kind } => "invalid pane width: "@ + int_error_message(kind),
        RowErrorView::InvalidHeight { kind } => "invalid pane height: "@ + int_error_message(
            kind,
        ),
    }
}

impl IntErrorKind {
    /// The text that `ParseIntError` shows for this kind.
    pub fn message(&self) -> (m: &'static str)
        ensures
            m@ == int_error_message(*self),
    {
        match self {
            IntErrorKind::Empty => "cannot parse integer from empty string",
            IntErrorKind::InvalidDigit => "invalid digit found in string",
            IntErrorKind::PosOverflow => "number too large to fit in target type",
        }
    }
}

impl RowParseError {
    /// The text of the error: what is wrong, then the detail.
    pub fn message(&self) -> (m: String)
        ensures
            m@ == row_error_message(self@),
    {
        match self {
            RowParseError::InvalidRow { line } => concat_str("invalid tmux row: ", line.as_str()),
            RowParseError::InvalidWidth { kind } => concat_str(
                "invalid pane width: ",
                kind.message(),
            ),
            RowParseError::InvalidHeight { kind } => concat_str(
                "invalid pane height: ",
                kind.message(),
            ),
        }
    }
}

/// What tmux says when it finds no server to talk to.
pub open spec fn no_server_text() -> Seq<char> {
    "no server running"@
}

/// Why a tmux command failed, in words.
#[derive(Debug, Clone, PartialEq, Eq)]
pub struct ProbeError {
    message: String,
}

impl View for ProbeError {
    type V = Seq<char>;

    closed spec fn view(&self) -> Seq<char> {
        self.message@
    }
}

fn says_no_server(s: &str) -> (b: bool)
    ensures
        b == has_piece(s@, no_server_text()),
{
    let hay = chars_of(s);
    let needle = chars_of("no server running");
    contains_chars(&hay, &needle)
}

impl ProbeError {
    /// The text of the error.
    pub fn message(&self) -> (m: &str)
        ensures
            m@ == self@,
    {
        self.message.as_str()
    }

    /// Whether tmux reported that no server is running.
    pub fn is_no_server_running(&self) -> (b: bool)
        ensures
            b == has_piece(self@, no_server_text()),
    {
        says_no_server(self.message.as_str())
    }

    /// The text of the error, as the string it keeps.
    pub closed spec fn message_string(&self) -> String {
        self.message
    }

    /// The string that holds the text of the error.
    pub fn into_message(self) -> (m: String)
        ensures
            m == self.message_string(),
            m@ == self@,
    {
        self.message
    }

    /// The error with the given text.
    pub fn from_message(message: String) -> (e: Self)
        ensures
            e@ == message@,
    {
        ProbeError { message }
    }
}

/// The error for a tmux command that exited with a failure and wrote
/// `stderr`: the trimmed text alone where tmux says that no server runs, and
/// otherwise that text after `tmux command failed: `.
pub open spec fn command_failure_message(stderr: Seq<char>) -> Seq<char> {
    if has_piece(stderr, no_server_text()) {
        trim_white(stderr)
    } else {
        "tmux command failed: "@ + trim_white(stderr)
    }
}

/// The error for a tmux command that exited with a failure and wrote `stderr`.
pub fn command_failure(stderr: &str) -> (e: ProbeError)
    ensures
        e@ == command_failure_message(stderr@),
{
    let cs = chars_of(stderr);
    let trimmed = string_of(&trim_chars(&cs));
    if says_no_server(stderr) {
        ProbeError::from_message(trimmed)
    } else {
        ProbeError::from_message(concat_str("tmux command failed: ", trimmed.as_str()))
    }
}

/// The error for a tmux that could not be started: that it is missing where
/// the program was not found, and otherwise `detail`, the system's reason,
/// after `failed to run tmux: `.
pub open spec fn spawn_failure_message(not_found: bool, detail: Seq<char>) -> Seq<char> {
    if not_found {
        "tmux is not installed or not on PATH"@
    } else {
        "failed to run tmux: "@ + detail
    }
}

/// The error for a tmux that could not be started, where `not_found` tells
/// whether the program was missing and `detail` is the system's reason.
pub fn spawn_failure(not_found: bool, detail: &str) -> (e: ProbeError)
    ensures
        e@ == spawn_failure_message(not_found, detail@),
{
    if not_found {
        ProbeError::from_message("tmux is not installed or not on PATH".to_owned())
    } else {
        ProbeError::from_message(concat_str("failed to run tmux: ", detail))
    }
}

/// What one poll saw of a session: its name, its active pane, that pane's
/// size, and its capture or why the capture failed.
#[derive(Debug, PartialEq, Eq)]
pub struct ObservedSession {
    pub name: String,
    pub active_pane_id: String,
    pub pane_size: PaneSize,
    pub capture: Result<PaneSnapshot, String>,
}

impl Clone for ObservedSession {
    fn clone(&self) -> (c: Self)
        ensures
            c@ == self@,
    {
        ObservedSession {
            name: self.name.clone(),
            active_pane_id: self.active_pane_id.clone(),
            pane_size: PaneSize { width: self.pane_size.width, height: self.pane_size.height },
            capture: match &self.capture {
                Ok(s) => Ok(s.clone()),
                Err(m) => Err(m.clone()),
            },
        }
    }
}

/// What an observed session holds, as views.
pub struct ObservedSessionView {
    pub name: Seq<char>,
    pub active_pane_id: Seq<char>,
    pub pane_size: PaneSize,
    pub capture: Result<PaneSnapshotView, Seq<char>>,
}

impl View for ObservedSession {
    type V = ObservedSessionView;

    open spec fn view(&self) -> ObservedSessionView {
        ObservedSessionView {
            name: self.name@,
            active_pane_id: self.active_pane_id@,
            pane_size: self.pane_size,
            capture: match self.capture {
                Ok(s) => Ok(s@),
                Err(m) => Err(m@),
            },
        }
    }
}

pub open spec fn observed_views(v: Seq<ObservedSession>) -> Seq<ObservedSessionView> {
    v.map_values(|o: ObservedSession| o@)
}

/// A command's output, or its error's text.
pub open spec fn output_view(r: Result<String, ProbeError>) -> Result<Seq<char>, Seq<char>> {
    match r {
        Ok(s) => Ok(s@),
        Err(e) => Err(e@),
    }
}

/// The format that `list-panes` is asked to print each pane in.
pub const LIST_PANES_FORMAT: &'static str =
    "#{session_name}|#{pane_id}|#{pane_width}|#{pane_height}|#{window_active}|#{pane_active}";

/// Runs tmux.
pub trait CommandRunner {
    /// The runner can answer a run of tmux with the arguments `args` with the
    /// outcome `out`: what tmux printed, or the text of why it failed.
    ///
    /// A runner that does not say how it answers keeps this default, under
    /// which any outcome can come back. Code generic over the runner cannot
    /// see which answers a runner allows; what it proves of them holds of
    /// every runner.
    closed spec fn answered(&self, args: Seq<Seq<char>>, out: Result<Seq<char>, Seq<char>>) -> bool {
        true
    }

    /// Runs tmux with `args`, and gives what it printed or why it failed.
    fn run(&self, args: &[&str]) -> (r: Result<String, ProbeError>)
        ensures
            self.answered(arg_views(args@), output_view(r)),
    ;
}

/// The character sequences of command arguments.
pub open spec fn arg_views(args: Seq<&str>) -> Seq<Seq<char>> {
    args.map_values(|a: &str| a@)
}

/// Watches tmux through a command runner.
pub struct TmuxProbe<R> {
    runner: R,
}

impl<R> TmuxProbe<R> {
    pub closed spec fn runner(&self) -> R {
        self.runner
    }

    /// A probe that runs tmux through `runner`.
    pub fn new(runner: R) -> (p: Self)
        ensures
            p.runner() == runner,
    {
        TmuxProbe { runner }
    }
}

/// The sessions that a `list-panes` outcome names: none where tmux reports
/// that no server runs, whether as an error or in its output; the error of a
/// failed command otherwise; and the sessions of the listing, or why it could
/// not be read.
pub open spec fn listing_sessions(listing: Result<Seq<char>, Seq<char>>) -> Result<
    Seq<SessionRowView>,
    Seq<char>,
> {
    match listing {
        Err(m) => if has_piece(m, no_server_text()) {
            Ok(seq![])
        } else {
            Err(m)
        },
        Ok(text) => if has_piece(text, no_server_text()) {
            Ok(seq![])
        } else {
            match parse_rows_spec(text) {
                Ok(rows) => Ok(rows),
                Err(e) => Err("failed to parse tmux sessions: "@ + row_error_message(e)),
            }
        },
    }
}

pub open spec fn sessions_result_view(r: Result<Vec<TmuxSessionRow>, ProbeError>) -> Result<
    Seq<SessionRowView>,
    Seq<char>,
> {
    match r {
        Ok(rows) => Ok(row_views(rows@)),
        Err(e) => Err(e@),
    }
}

/// The sessions that the outcome of `tmux list-panes` names.
pub fn sessions_from_listing(listing: Result<String, ProbeError>) -> (r: Result<
    Vec<TmuxSessionRow>,
    ProbeError,
>)
    ensures
        sessions_result_view(r) == listing_sessions(output_view(listing)),
{
    match listing {
        Err(error) => {
            if error.is_no_server_running() {
                let none: Vec<TmuxSessionRow> = Vec::new();
                assert(row_views(none@) =~= Seq::<SessionRowView>::empty());
                Ok(none)
            } else {
                Err(error)
            }
        },
        Ok(rows) => {
            if says_no_server(rows.as_str()) {
                let none: Vec<TmuxSessionRow> = Vec::new();
                assert(row_views(none@) =~= Seq::<SessionRowView>::empty());
                return Ok(none);
            }
            match parse_session_rows(rows.as_str()) {
                Ok(sessions) => Ok(sessions),
                Err(error) => {
                    let detail = error.message();
                    Err(
                        ProbeError::from_message(
                            concat_str("failed to parse tmux sessions: ", detail.as_str()),
                        ),
                    )
                },
            }
        },
    }
}

/// What a poll sees of the session `row` whose pane capture had the outcome
/// `capture`.
pub open spec fn observe_spec(row: SessionRowView, capture: Result<Seq<char>, Seq<char>>) -> ObservedSessionView {
    ObservedSessionView {
        name: row.name,
        active_pane_id: row.active_pane_id,
        pane_size: row.pane_size,
        capture: match capture {
            Ok(raw) => Ok(capture_snapshot(raw, row.pane_size.width, row.pane_size.height)),
            Err(m) => Err(m),
        },
    }
}

/// The observation of the session `row` whose pane capture had the outcome
/// `capture`.
pub fn observe_session(row: TmuxSessionRow, capture: Result<String, ProbeError>) -> (o: ObservedSession)
    ensures
        o@ == observe_spec(row@, output_view(capture)),
        o@.name == row@.name,
        o@.active_pane_id == row@.active_pane_id,
        o@.pane_size == row@.pane_size,
{
    let captured = match capture {
        Ok(raw) => Ok(
            PaneSnapshot::from_tmux_capture(
                raw.as_str(),
                row.pane_size.width,
                row.pane_size.height,
            ),
        ),
        Err(error) => Err(error.message().to_owned()),
    };
    ObservedSession {
        name: row.name,
        active_pane_id: row.active_pane_id,
        pane_size: row.pane_size,
        capture: captured,
    }
}

/// The arguments that list every pane with its session, size and activity.
pub open spec fn list_panes_args_spec() -> Seq<Seq<char>> {
    seq!["list-panes"@, "-a"@, "-F"@, LIST_PANES_FORMAT@]
}

/// The arguments that capture the pane `pane_id`, with its escapes.
pub open spec fn capture_args_spec(pane_id: Seq<char>) -> Seq<Seq<char>> {
    seq!["capture-pane"@, "-e"@, "-p"@, "-t"@, pane_id]
}

/// The arguments that kill the session `name`.
pub open spec fn kill_session_args_spec(name: Seq<char>) -> Seq<Seq<char>> {
    seq!["kill-session"@, "-t"@, name]
}

/// The arguments of `tmux list-panes` that a poll runs first.
pub fn list_panes_args() -> (a: [&'static str; 4])
    ensures
        arg_views(a@) == list_panes_args_spec(),
{
    let a = ["list-panes", "-a", "-F", LIST_PANES_FORMAT];
    assert(arg_views(a@) =~= list_panes_args_spec());
    a
}

/// The arguments of `tmux capture-pane` that capture the pane `pane_id`.
pub fn capture_args(pane_id: &str) -> (a: [&str; 5])
    ensures
        arg_views(a@) == capture_args_spec(pane_id@),
{
    let a = ["capture-pane", "-e", "-p", "-t", pane_id];
    assert(arg_views(a@) =~= capture_args_spec(pane_id@));
    a
}

/// The arguments of `tmux kill-session` that kill the session `name`.
pub fn kill_session_args(name: &str) -> (a: [&str; 3])
    ensures
        arg_views(a@) == kill_session_args_spec(name@),
{
    let a = ["kill-session", "-t", name];
    assert(arg_views(a@) =~= kill_session_args_spec(name@));
    a
}

/// The outcome of a poll whose result, as views, is `r`.
pub open spec fn poll_view(r: Result<Vec<ObservedSession>, ProbeError>) -> Result<
    Seq<ObservedSessionView>,
    Seq<char>,
> {
    match r {
        Ok(obs) => Ok(observed_views(obs@)),
        Err(e) => Err(e@),
    }
}

/// The runs of tmux that a piece of code made, in order: the arguments of
/// each and what the runner answered.
pub type CallLog = Seq<(Seq<Seq<char>>, Result<Seq<char>, Seq<char>>)>;

/// Every run in `calls` was answered as `runner` can answer it.
pub open spec fn calls_answered<R: CommandRunner>(runner: R, calls: CallLog) -> bool {
    forall|k: int| 0 <= k < calls.len() ==> #[trigger] runner.answered(calls[k].0, calls[k].1)
}

/// `calls` are the runs of a poll through `runner`, and `r` is its outcome:
/// first `list-panes` with [`list_panes_args_spec`]; where its answer names
/// no sessions for want of a server, or fails, or cannot be read, nothing
/// more is run and `r` is what [`listing_sessions`] gives for it; where it
/// names sessions, one `capture-pane` of each session's active pane follows,
/// in the listing's order, and nothing else, and `r` holds one observation
/// per session made of its row and the answer to its capture (so a failed
/// capture fails for its own session alone).
pub open spec fn poll_trace<R: CommandRunner>(
    runner: R,
    calls: CallLog,
    r: Result<Seq<ObservedSessionView>, Seq<char>>,
) -> bool {
    &&& calls.len() >= 1
    &&& calls[0].0 == list_panes_args_spec()
    &&& calls_answered(runner, calls)
    &&& match listing_sessions(calls[0].1) {
        Err(m) => calls.len() == 1 && r == Err::<Seq<ObservedSessionView>, Seq<char>>(m),
        Ok(rows) => {
            &&& calls.len() == rows.len() + 1
            &&& r matches Ok(obs) && obs.len() == rows.len() && forall|i: int|
                #![trigger rows[i]]
                0 <= i < rows.len() ==> calls[i + 1].0 == capture_args_spec(rows[i].active_pane_id)
                    && obs[i] == observe_spec(rows[i], calls[i + 1].1)
        },
    }
}

/// `r` is the outcome of some poll through `runner`: see [`poll_trace`].
pub open spec fn poll_outcome<R: CommandRunner>(
    runner: R,
    r: Result<Seq<ObservedSessionView>, Seq<char>>,
) -> bool {
    exists|calls: CallLog| #[trigger] poll_trace(runner, calls, r)
}

/// The outcome of a kill, as views.
pub open spec fn kill_view(r: Result<(), ProbeError>) -> Result<(), Seq<char>> {
    match r {
        Ok(()) => Ok(()),
        Err(e) => Err(e@),
    }
}

/// `calls` are the runs of a kill of the session `name` through `runner`, and
/// `r` is its outcome: one `kill-session` of that session, and nothing else,
/// whose failure is passed on as it is.
pub open spec fn kill_trace<R: CommandRunner>(
    runner: R,
    name: Seq<char>,
    calls: CallLog,
    r: Result<(), Seq<char>>,
) -> bool {
    &&& calls.len() == 1
    &&& calls[0].0 == kill_session_args_spec(name)
    &&& calls_answered(runner, calls)
    &&& r == match calls[0].1 {
        Ok(_) => Ok::<(), Seq<char>>(()),
        Err(m) => Err(m),
    }
}

impl<R: CommandRunner> TmuxProbe<R> {
    /// Runs tmux with `args`, and adds the run and its answer to `log`.
    fn run_logged(&self, args: &[&str], Ghost(log): Ghost<CallLog>) -> (res: (
        Result<String, ProbeError>,
        Ghost<CallLog>,
    ))
        ensures
            res.1@ == log.push((arg_views(args@), output_view(res.0))),
            self.runner().answered(arg_views(args@), output_view(res.0)),
    {
        let out = self.runner.run(args);
        (out, Ghost(log.push((arg_views(args@), output_view(out)))))
    }

    /// Polls tmux as [`poll_sessions`](Self::poll_sessions) does, and also
    /// gives the runs of tmux that it made: see [`poll_trace`].
    pub fn poll_sessions_traced(&self) -> (res: (
        Result<Vec<ObservedSession>, ProbeError>,
        Ghost<CallLog>,
    ))
        ensures
            poll_trace(self.runner(), res.1@, poll_view(res.0)),
    {
        let list_args = list_panes_args();
        let (listing, Ghost(log)) = self.run_logged(&list_args, Ghost(Seq::empty()));
        let ghost listing_view = output_view(listing);
        let rows = match sessions_from_listing(listing) {
            Ok(rows) => rows,
            Err(error) => {
                let r: Result<Vec<ObservedSession>, ProbeError> = Err(error);
                assert(poll_view(r) == Err::<Seq<ObservedSessionView>, Seq<char>>(error@));
                assert(log[0] == (list_panes_args_spec(), listing_view));
                return (r, Ghost(log));
            },
        };
        let ghost rows_view = row_views(rows@);
        let mut observed: Vec<ObservedSession> = Vec::new();
        let n = rows.len();
        // Reverse the rows, so that popping gives them in the listing's order.
        let mut rows = rows;
        let mut rest: Vec<TmuxSessionRow> = Vec::new();
        while rows.len() > 0
            invariant
                n == rows_view.len(),
                rows@.len() + rest@.len() == n,
                forall|j: int| 0 <= j < rows@.len() ==> #[trigger] rows@[j]@ == rows_view[j],
                forall|j: int| 0 <= j < rest@.len() ==> #[trigger] rest@[j]@ == rows_view[n - 1 - j],
            decreases rows@.len(),
        {
            let row = rows.pop().unwrap();
            rest.push(row);
        }
        // Capture the sessions in the order of the listing.
        let mut i: usize = 0;
        while i < n
            invariant
                n == rows_view.len(),
                listing_sessions(listing_view) == Ok::<Seq<SessionRowView>, Seq<char>>(rows_view),
                i <= n,
                observed@.len() == i,
                log.len() == i + 1,
                log[0] == (list_panes_args_spec(), listing_view),
                calls_answered(self.runner(), log),
                rest@.len() == n - i,
                forall|j: int| 0 <= j < n - i ==> #[trigger] rest@[j]@ == rows_view[n - 1 - j],
                forall|j: int|
                    #![trigger rows_view[j]]
                    0 <= j < i ==> log[j + 1].0 == capture_args_spec(rows_view[j].active_pane_id)
                        && observed@[j]@ == observe_spec(rows_view[j], log[j + 1].1),
            decreases n - i,
        {
            let row = rest.pop().unwrap();
            assert(row@ == rows_view[i as int]);
            let args = capture_args(row.active_pane_id.as_str());
            let ghost before = log;
            let (capture, Ghost(next)) = self.run_logged(&args, Ghost(log));
            proof {
                log = next;
                assert forall|k: int| 0 <= k < log.len() implies #[trigger] self.runner().answered(
                    log[k].0,
                    log[k].1,
                ) by {
                    if k < before.len() {
                        assert(log[k] == before[k]);
                    }
                }
                assert forall|j: int| #![trigger rows_view[j]] 0 <= j < i implies log[j + 1]
                    == before[j + 1] by {}
            }
            let o = observe_session(row, capture);
            observed.push(o);
            i += 1;
        }
        let r: Result<Vec<ObservedSession>, ProbeError> = Ok(observed);
        proof {
            let obs = observed_views(observed@);
            assert(poll_view(r) == Ok::<Seq<ObservedSessionView>, Seq<char>>(obs));
            assert forall|j: int|
                #![trigger rows_view[j]]
                0 <= j < rows_view.len() implies log[j + 1].0 == capture_args_spec(
                    rows_view[j].active_pane_id,
                ) && obs[j] == observe_spec(rows_view[j], log[j + 1].1) by {
                assert(obs[j] == observed@[j]@);
            }
        }
        (r, Ghost(log))
    }

    /// Lists the sessions with their active panes, and captures each of those
    /// panes: first `list-panes` with [`list_panes_args`], then, for each
    /// session that the listing names, in order, `capture-pane` with
    /// [`capture_args`] of its active pane, and nothing else.
    ///
    /// What tmux answers is not known here; the result is the outcome of a
    /// poll whose runs are those that [`poll_trace`] describes.
    pub fn poll_sessions(&self) -> (r: Result<Vec<ObservedSession>, ProbeError>)
        ensures
            exists|calls: CallLog| #[trigger] poll_trace(self.runner(), calls, poll_view(r)),
    {
        let (r, Ghost(calls)) = self.poll_sessions_traced();
        assert(poll_trace(self.runner(), calls, poll_view(r)));
        r
    }

    /// Kills the session `session_name` as [`kill_session`](Self::kill_session)
    /// does, and also gives the runs of tmux that it made: see [`kill_trace`].
    pub fn kill_session_traced(&self, session_name: &str) -> (res: (
        Result<(), ProbeError>,
        Ghost<CallLog>,
    ))
        ensures
            kill_trace(self.runner(), session_name@, res.1@, kill_view(res.0)),
    {
        let args = kill_session_args(session_name);
        let (outcome, Ghost(log)) = self.run_logged(&args, Ghost(Seq::empty()));
        assert(log[0] == (kill_session_args_spec(session_name@), output_view(outcome)));
        let r = match outcome {
            Ok(_) => Ok(()),
            Err(error) => Err(error),
        };
        (r, Ghost(log))
    }

    /// Kills the session `session_name` with `tmux kill-session -t`, and
    /// nothing else, and passes on whether tmux succeeded.
    pub fn kill_session(&self, session_name: &str) -> (r: Result<(), ProbeError>)
        ensures
            exists|calls: CallLog| #[trigger] kill_trace(self.runner(), session_name@, calls, kill_view(r)),
    {
        let (r, Ghost(calls)) = self.kill_session_traced(session_name);
        assert(kill_trace(self.runner(), session_name@, calls, kill_view(r)));
        r
    }
}

/// A session row as the listing gives it: a session name without the `:` of
/// a window suffix and without the `|` that separates fields, and a pane id
/// without a `|`.
pub open spec fn plain_row(r: SessionRowView) -> bool {
    &&& !r.name.contains(':')
    &&& !r.name.contains('|')
    &&& !r.active_pane_id.contains('|')
}

proof fn lemma_row_spec_plain(line: Seq<char>)
    requires
        row_spec(line) matches Some(Ok(_)),
    ensures
        row_spec(line) matches Some(Ok(r)) && plain_row(r),
{
    let f = split_on(line, '|');
    lemma_join_split(line, '|');
    assert(!f[0].contains('|') && !f[1].contains('|'));
    lemma_join_split(f[0], ':');
    lemma_split_on_nonempty(f[0], ':');
    let name = split_on(f[0], ':')[0];
    assert(!name.contains(':'));
    if name.contains('|') {
        lemma_join_contains(split_on(f[0], ':'), ':', 0, '|');
    }
}

proof fn lemma_rows_plain(lines: Seq<Seq<char>>, i: int)
    requires
        rows_spec(lines) matches Ok(v) && 0 <= i < v.len(),
    ensures
        rows_spec(lines) matches Ok(v) && plain_row(v[i]),
    decreases lines.len(),
{
    if trim_white(lines[0]).len() == 0 {
        lemma_rows_plain(lines.drop_first(), i);
    } else {
        match row_spec(lines[0]) {
            None => {
                lemma_rows_plain(lines.drop_first(), i);
            },
            Some(Err(_)) => {},
            Some(Ok(r)) => {
                lemma_row_spec_plain(lines[0]);
                if i > 0 {
                    lemma_rows_plain(lines.drop_first(), i - 1);
                }
            },
        }
    }
}

/// Every session that a listing names is a plain row: its name is the part of
/// the `session_name` field before any `:`, and no field holds a `|`.
pub proof fn law_parsed_rows_are_plain(rows: Seq<char>, i: int)
    requires
        parse_rows_spec(rows) matches Ok(v) && 0 <= i < v.len(),
    ensures
        parse_rows_spec(rows) matches Ok(v) && plain_row(v[i]),
{
    lemma_rows_plain(std_lines(rows), i);
}

/// No escape character is left once the escapes are stripped.
pub proof fn law_strip_removes_escapes(s: Seq<char>)
    ensures
        !strip_ansi(s).contains('\u{1b}'),
    decreases s.len(),
{
    if s.len() == 0 {
    } else if !is_escape(s[0]) {
        law_strip_removes_escapes(s.drop_first());
        let t = seq![s[0]].add(strip_ansi(s.drop_first()));
        if t.contains('\u{1b}') {
            let k = choose|k: int| 0 <= k < t.len() && t[k] == '\u{1b}';
            assert(k > 0);
            assert(strip_ansi(s.drop_first())[k - 1] == '\u{1b}');
        }
    } else if s.len() >= 2 && s[1] == '[' {
        lemma_csi_body_len_bound(s.skip(2));
        law_strip_removes_escapes(s.skip(2 + csi_body_len(s.skip(2)) as int));
    } else {
        law_strip_removes_escapes(s.drop_first());
    }
}

/// Text without escape characters is left as it is.
pub proof fn law_strip_keeps_plain_text(s: Seq<char>)
    requires
        !s.contains('\u{1b}'),
    ensures
        strip_ansi(s) == s,
    decreases s.len(),
{
    if s.len() > 0 {
        assert(s[0] != '\u{1b}');
        assert(!s.drop_first().contains('\u{1b}')) by {
            if s.drop_first().contains('\u{1b}') {
                let k = choose|k: int| 0 <= k < s.drop_first().len() && s.drop_first()[k] == '\u{1b}';
                assert(s[k + 1] == '\u{1b}');
            }
        }
        law_strip_keeps_plain_text(s.drop_first());
        assert(seq![s[0]] + s.drop_first() =~= s);
    }
}

proof fn lemma_unify_chars(s: Seq<char>, c: char)
    requires
        c != '\n',
        unify_newlines(s).contains(c),
    ensures
        s.contains(c),
        c != '\r',
    decreases s.len(),
{
    let u = unify_newlines(s);
    let k = choose|k: int| 0 <= k < u.len() && u[k] == c;
    if s[0] == '\r' && s.len() >= 2 && s[1] == '\n' {
        assert(k > 0);
        assert(unify_newlines(s.skip(2))[k - 1] == c);
        lemma_unify_chars(s.skip(2), c);
        let j = choose|j: int| 0 <= j < s.skip(2).len() && s.skip(2)[j] == c;
        assert(s[j + 2] == c);
    } else if s[0] == '\r' {
        assert(k > 0);
        assert(unify_newlines(s.drop_first())[k - 1] == c);
        lemma_unify_chars(s.drop_first(), c);
        let j = choose|j: int| 0 <= j < s.drop_first().len() && s.drop_first()[j] == c;
        assert(s[j + 1] == c);
    } else if k == 0 {
        assert(s[0] == c);
    } else {
        assert(unify_newlines(s.drop_first())[k - 1] == c);
        lemma_unify_chars(s.drop_first(), c);
        let j = choose|j: int| 0 <= j < s.drop_first().len() && s.drop_first()[j] == c;
        assert(s[j + 1] == c);
    }
}

proof fn lemma_trim_newlines_chars(s: Seq<char>, c: char)
    requires
        trim_trailing_newlines(s).contains(c),
    ensures
        s.contains(c),
    decreases s.len(),
{
    if s.len() > 0 && s.last() == '\n' {
        lemma_trim_newlines_chars(s.drop_last(), c);
        let j = choose|j: int| 0 <= j < s.drop_last().len() && s.drop_last()[j] == c;
        assert(s[j] == c);
    }
}

/// The plain lines of a capture, joined with LF, are the capture without its
/// escapes, with its line breaks unified to LF and the LFs at its end dropped;
/// and no line holds an LF, a CR or an escape character.
pub proof fn law_capture_lines(raw: Seq<char>, width: u16, height: u16)
    ensures
        join_with(capture_snapshot(raw, width, height).lines, '\n') == trim_trailing_newlines(
            unify_newlines(strip_ansi(raw)),
        ),
        forall|i: int|
            0 <= i < capture_snapshot(raw, width, height).lines.len() ==> {
                let line = #[trigger] capture_snapshot(raw, width, height).lines[i];
                &&& !line.contains('\n')
                &&& !line.contains('\r')
                &&& !line.contains('\u{1b}')
            },
{
    let t = trim_trailing_newlines(unify_newlines(strip_ansi(raw)));
    let lines = capture_snapshot(raw, width, height).lines;
    lemma_join_split(t, '\n');
    assert forall|i: int| 0 <= i < lines.len() implies {
        let line = #[trigger] lines[i];
        &&& !line.contains('\n')
        &&& !line.contains('\r')
        &&& !line.contains('\u{1b}')
    } by {
        if lines[i].contains('\r') {
            lemma_join_contains(lines, '\n', i, '\r');
            lemma_trim_newlines_chars(unify_newlines(strip_ansi(raw)), '\r');
            lemma_unify_chars(strip_ansi(raw), '\r');
        }
        if lines[i].contains('\u{1b}') {
            lemma_join_contains(lines, '\n', i, '\u{1b}');
            lemma_trim_newlines_chars(unify_newlines(strip_ansi(raw)), '\u{1b}');
            lemma_unify_chars(strip_ansi(raw), '\u{1b}');
            law_strip_removes_escapes(raw);
        }
    }
}

/// `a` is a subsequence of `b`: its characters occur in `b` in the same order,
/// though not always side by side.
pub open spec fn is_subsequence(a: Seq<char>, b: Seq<char>) -> bool
    decreases b.len(),
{
    if a.len() == 0 {
        true
    } else if b.len() == 0 {
        false
    } else if a[0] == b[0] {
        is_subsequence(a.drop_first(), b.drop_first())
    } else {
        is_subsequence(a, b.drop_first())
    }
}

proof fn lemma_subsequence_tail(a: Seq<char>, b: Seq<char>)
    requires
        a.len() > 0,
        is_subsequence(a, b),
    ensures
        is_subsequence(a.drop_first(), b),
    decreases b.len(), 1int,
{
    if a[0] == b[0] {
        lemma_subsequence_extend(a.drop_first(), b);
    } else {
        lemma_subsequence_tail(a, b.drop_first());
        lemma_subsequence_extend(a.drop_first(), b);
    }
}

proof fn lemma_subsequence_extend(a: Seq<char>, b: Seq<char>)
    requires
        b.len() > 0,
        is_subsequence(a, b.drop_first()),
    ensures
        is_subsequence(a, b),
    decreases b.len(), 0int,
{
    if a.len() > 0 && a[0] == b[0] {
        lemma_subsequence_tail(a, b.drop_first());
    }
}

proof fn lemma_subsequence_skip(a: Seq<char>, b: Seq<char>, k: int)
    requires
        0 <= k <= b.len(),
        is_subsequence(a, b.skip(k)),
    ensures
        is_subsequence(a, b),
    decreases k,
{
    if k > 0 {
        assert(b.skip(k - 1).drop_first() =~= b.skip(k));
        lemma_subsequence_extend(a, b.skip(k - 1));
        lemma_subsequence_skip(a, b, k - 1);
    } else {
        assert(b.skip(0) =~= b);
    }
}

/// Stripping the escapes only removes characters: what is left comes from the
/// text, in the text's order.
pub proof fn law_strip_is_subsequence(s: Seq<char>)
    ensures
        is_subsequence(strip_ansi(s), s),
    decreases s.len(),
{
    if s.len() == 0 {
    } else if !is_escape(s[0]) {
        law_strip_is_subsequence(s.drop_first());
        let t = seq![s[0]].add(strip_ansi(s.drop_first()));
        assert(t[0] == s[0]);
        assert(t.drop_first() =~= strip_ansi(s.drop_first()));
    } else if s.len() >= 2 && s[1] == '[' {
        lemma_csi_body_len_bound(s.skip(2));
        let k = 2 + csi_body_len(s.skip(2)) as int;
        law_strip_is_subsequence(s.skip(k));
        lemma_subsequence_skip(strip_ansi(s), s, k);
    } else {
        law_strip_is_subsequence(s.drop_first());
        lemma_subsequence_extend(strip_ansi(s), s);
    }
}

/// A line that is not blank and that is no valid row.
pub open spec fn bad_line(l: Seq<char>) -> bool {
    trim_white(l).len() > 0 && row_spec(l) matches Some(Err(_))
}

/// The lines of a listing fail to parse exactly when one of them is a bad
/// line, and then with the error of the first bad line; otherwise every line
/// is blank, skipped, or a row.
pub proof fn law_rows_fail_at_first_bad_line(lines: Seq<Seq<char>>)
    ensures
        rows_spec(lines) is Err <==> exists|i: int| 0 <= i < lines.len() && #[trigger] bad_line(lines[i]),
        rows_spec(lines) matches Err(e) ==> exists|i: int|
            0 <= i < lines.len() && #[trigger] bad_line(lines[i]) && row_spec(lines[i]) == Some(
                Err::<SessionRowView, RowErrorView>(e),
            ) && forall|j: int| 0 <= j < i ==> !bad_line(#[trigger] lines[j]),
    decreases lines.len(),
{
    if lines.len() > 0 {
        let t = lines.drop_first();
        law_rows_fail_at_first_bad_line(t);
        assert forall|i: int| 0 < i < lines.len() implies #[trigger] lines[i] == t[i - 1] by {}
        if bad_line(lines[0]) {
            assert(rows_spec(lines) is Err);
            assert forall|j: int| 0 <= j < 0 implies !bad_line(#[trigger] lines[j]) by {}
        } else {
            if exists|i: int| 0 <= i < t.len() && #[trigger] bad_line(t[i]) {
                let i = choose|i: int| 0 <= i < t.len() && #[trigger] bad_line(t[i]);
                assert(bad_line(lines[i + 1]));
            }
            if exists|i: int| 0 <= i < lines.len() && #[trigger] bad_line(lines[i]) {
                let i = choose|i: int| 0 <= i < lines.len() && #[trigger] bad_line(lines[i]);
                assert(bad_line(t[i - 1]));
            }
            if let Err(e) = rows_spec(lines) {
                let i = choose|i: int|
                    0 <= i < t.len() && #[trigger] bad_line(t[i]) && row_spec(t[i]) == Some(
                        Err::<SessionRowView, RowErrorView>(e),
                    ) && forall|j: int| 0 <= j < i ==> !bad_line(#[trigger] t[j]);
                assert(bad_line(lines[i + 1]));
                assert forall|j: int| 0 <= j < i + 1 implies !bad_line(#[trigger] lines[j]) by {
                    if j > 0 {
                        assert(lines[j] == t[j - 1]);
                    }
                }
            }
        }
    }
}

/// The error of a failed command says that no server runs exactly when what
/// tmux wrote says so.
pub proof fn law_command_failure_no_server(stderr: Seq<char>)
    ensures
        has_piece(command_failure_message(stderr), no_server_text()) <==> has_piece(
            stderr,
            no_server_text(),
        ),
{
    reveal_strlit("no server running");
    reveal_strlit("tmux command failed: ");
    let needle = no_server_text();
    let (a, b) = lemma_trim_bounds(stderr);
    let trimmed = trim_white(stderr);
    if has_piece(stderr, needle) {
        let i = choose|i: int|
            0 <= i && i + needle.len() <= stderr.len() && #[trigger] stderr.subrange(
                i,
                i + needle.len(),
            ) == needle;
        assert(stderr[i] == stderr.subrange(i, i + needle.len())[0]);
        assert(stderr[i + 16] == stderr.subrange(i, i + needle.len())[16]);
        assert(!is_white(stderr[i]));
        assert(!is_white(stderr[i + 16]));
        assert(a <= i);
        assert(i + 17 <= b);
        assert(trimmed.subrange(i - a, i - a + 17) =~= stderr.subrange(i, i + 17));
        assert(has_piece(trimmed, needle));
    } else {
        let prefix = "tmux command failed: "@;
        let msg = prefix + trimmed;
        if has_piece(msg, needle) {
            let i = choose|i: int|
                0 <= i && i + needle.len() <= msg.len() && #[trigger] msg.subrange(
                    i,
                    i + needle.len(),
                ) == needle;
            assert(msg[i] == msg.subrange(i, i + needle.len())[0]);
            assert(msg[i + 1] == msg.subrange(i, i + needle.len())[1]);
            if i < 21 {
                assert(msg[i] == prefix[i]);
                assert(msg[i + 1] == prefix[i + 1] || i == 20);
                assert(false);
            }
            assert(trimmed.subrange(i - 21, i - 21 + 17) =~= msg.subrange(i, i + 17));
            assert(has_piece(trimmed, needle));
            lemma_piece_of_part(stderr, a, b, needle);
        }
    }
}

proof fn lemma_unify_without_cr(s: Seq<char>)
    requires
        !s.contains('\r'),
    ensures
        unify_newlines(s) == s,
    decreases s.len(),
{
    if s.len() > 0 {
        assert(!s.drop_first().contains('\r')) by {
            if s.drop_first().contains('\r') {
                let k = choose|k: int| 0 <= k < s.drop_first().len() && s.drop_first()[k] == '\r';
                assert(s[k + 1] == '\r');
            }
        }
        assert(s[0] != '\r');
        lemma_unify_without_cr(s.drop_first());
        assert(seq![s[0]].add(s.drop_first()) =~= s);
    }
}

/// A capture with no escape, no CR and no LF at its end reads back whole: its
/// plain lines, joined with LF, are the capture itself.
pub proof fn law_plain_capture_reads_back(raw: Seq<char>, width: u16, height: u16)
    requires
        !raw.contains('\u{1b}'),
        !raw.contains('\r'),
        !(raw.len() > 0 && raw.last() == '\n'),
    ensures
        join_with(capture_snapshot(raw, width, height).lines, '\n') == raw,
{
    law_capture_lines(raw, width, height);
    law_strip_keeps_plain_text(raw);
    lemma_unify_without_cr(raw);
}

/// An observation keeps its session's row: the session's name, the pane id
/// that the listing gave (the pane that was captured) and that pane's size;
/// and its capture fails, with the same text, exactly when the capture run
/// failed.
pub proof fn law_observation_keeps_row(row: SessionRowView, c: Result<Seq<char>, Seq<char>>)
    ensures
        observe_spec(row, c).name == row.name,
        observe_spec(row, c).active_pane_id == row.active_pane_id,
        observe_spec(row, c).pane_size == row.pane_size,
        observe_spec(row, c).capture is Err <==> c is Err,
        forall|m: Seq<char>| c == Err::<Seq<char>, Seq<char>>(m) ==> observe_spec(row, c).capture
            == Err::<PaneSnapshotView, Seq<char>>(m),
        forall|raw: Seq<char>|
            c == Ok::<Seq<char>, Seq<char>>(raw) ==> (observe_spec(row, c).capture matches Ok(snap)
                && snap.width == row.pane_size.width && snap.height == row.pane_size.height),
{
}

/// In a poll whose listing names sessions, the observations follow the rows
/// one for one: each carries its row's name, the pane id that its row gave
/// and its size, and its capture was run on that very pane id.
pub proof fn law_poll_observations_follow_rows<R: CommandRunner>(
    runner: R,
    calls: CallLog,
    r: Result<Seq<ObservedSessionView>, Seq<char>>,
    rows: Seq<SessionRowView>,
    i: int,
)
    requires
        poll_trace(runner, calls, r),
        listing_sessions(calls[0].1) == Ok::<Seq<SessionRowView>, Seq<char>>(rows),
        0 <= i < rows.len(),
    ensures
        r is Ok,
        r matches Ok(obs) ==> {
            &&& obs.len() == rows.len()
            &&& obs[i].name == rows[i].name
            &&& obs[i].active_pane_id == rows[i].active_pane_id
            &&& obs[i].pane_size == rows[i].pane_size
            &&& calls[i + 1].0 == capture_args_spec(obs[i].active_pane_id)
        },
{
    assert(rows[i] == rows[i]);
    law_observation_keeps_row(rows[i], calls[i + 1].1);
}

/// Where the ANSI parser reads a capture, the snapshot's styled text is what
/// the parser built; the plain text of the stripped capture stands in only
/// where the parser fails.
pub proof fn law_capture_text_is_the_parse(raw: Seq<char>, width: u16, height: u16)
    ensures
        forall|t: Text<'static>| ansi_text(raw) == Some(t) ==> capture_snapshot(raw, width, height).text == t,
        ansi_text(raw) is None ==> capture_snapshot(raw, width, height).text == plain_text_of(
            strip_ansi(raw),
        ),
{
}

} // verus!
