use vstd::prelude::*;

use crate::app::{App, AppErrorView};
use crate::chars::concat_str;
use crate::layout::{compute_grid, grid_empty, grid_fits, grid_rect, Rect};
use crate::store::{
    compare_names, record_ref_views, Accent, NameOrder, SessionRecord, SessionRecordView,
    SessionStatus,
};

verus! {

/// What the empty dashboard says.
pub open spec fn empty_state_message() -> Seq<char> {
    "No tmux sessions detected. Tiles appear automatically when sessions start."@
}

/// What the footer says.
pub open spec fn footer_message() -> Seq<char> {
    "tab/shift-tab move  x close  q quit"@
}

/// The text of the empty dashboard.
pub fn render_empty_state_text(_app: &App) -> (t: String)
    ensures
        t@ == empty_state_message(),
{
    "No tmux sessions detected. Tiles appear automatically when sessions start.".to_owned()
}

/// The key hints of the footer.
pub fn footer_text() -> (t: &'static str)
    ensures
        t@ == footer_message(),
{
    "tab/shift-tab move  x close  q quit"
}

/// The line set that a tile's border is drawn with.
#[derive(Debug, Clone, Copy, PartialEq, Eq, Structural)]
pub enum BorderKind {
    Double,
    Rounded,
}

/// The border of a tile: double where it is focused, rounded otherwise.
pub fn tile_border_set(is_focused: bool) -> (b: BorderKind)
    ensures
        b == (if is_focused {
            BorderKind::Double
        } else {
            BorderKind::Rounded
        }),
{
    if is_focused {
        BorderKind::Double
    } else {
        BorderKind::Rounded
    }
}

/// How a piece of a title is drawn.
#[derive(Debug, Clone, Copy, PartialEq, Eq, Structural)]
pub enum SpanStyle {
    Plain,
    Bold,
    Gray,
}

/// A piece of a title and how it is drawn.
#[derive(Debug, Clone, PartialEq, Eq)]
pub struct TitleSpan {
    pub content: String,
    pub style: SpanStyle,
}

/// The title of a tile, in pieces.
#[derive(Debug, Clone, PartialEq, Eq)]
pub struct TileTitle {
    pub spans: Vec<TitleSpan>,
}

/// The pieces of a tile title, as text and style.
pub open spec fn title_views(spans: Seq<TitleSpan>) -> Seq<(Seq<char>, SpanStyle)> {
    spans.map_values(|s: TitleSpan| (s.content@, s.style))
}

/// The title of the tile of a session named `name`: the name, bold where the
/// tile is focused, and for a dead session a gray `[killed]` after a space.
pub open spec fn tile_title_spec(name: Seq<char>, dead: bool, is_focused: bool) -> Seq<
    (Seq<char>, SpanStyle),
> {
    let first = (name, if is_focused {
        SpanStyle::Bold
    } else {
        SpanStyle::Plain
    });
    if dead {
        seq![first, (" "@, SpanStyle::Plain), ("[killed]"@, SpanStyle::Gray)]
    } else {
        seq![first]
    }
}

/// The title of the tile of `record`.
pub fn tile_title(record: &SessionRecord, is_focused: bool) -> (t: TileTitle)
    ensures
        title_views(t.spans@) == tile_title_spec(
            record.name@,
            record.status == SessionStatus::Dead,
            is_focused,
        ),
{
    let mut spans: Vec<TitleSpan> = Vec::new();
    spans.push(
        TitleSpan {
            content: record.name.clone(),
            style: if is_focused {
                SpanStyle::Bold
            } else {
                SpanStyle::Plain
            },
        },
    );
    if record.status == SessionStatus::Dead {
        spans.push(TitleSpan { content: " ".to_owned(), style: SpanStyle::Plain });
        spans.push(TitleSpan { content: "[killed]".to_owned(), style: SpanStyle::Gray });
    }
    let t = TileTitle { spans };
    assert(title_views(t.spans@) =~= tile_title_spec(
        record.name@,
        record.status == SessionStatus::Dead,
        is_focused,
    ));
    t
}

/// The line that a tile adds below its snapshot when the last capture failed
/// for `reason`.
pub open spec fn stale_line_spec(reason: Seq<char>) -> Seq<char> {
    "stale: "@ + reason
}

/// The line that a tile adds below its snapshot when the last capture failed.
pub fn stale_line(reason: &str) -> (l: String)
    ensures
        l@ == stale_line_spec(reason@),
{
    concat_str("stale: ", reason)
}

/// What the body of the screen shows.
#[derive(Debug, Clone, PartialEq, Eq)]
pub enum Screen {
    /// Tmux cannot be reached and there is no tile to show: the error alone.
    Unavailable { message: String },
    /// There is no tile to show.
    Empty,
    /// The tiles.
    Tiles,
}

/// What the body of the screen shows for `app`: the fatal error where there is
/// no tile, else the empty state where there is no tile, else the tiles. The
/// kill dialog is drawn over all but the error screen.
pub fn screen_of(app: &App) -> (s: Screen)
    requires
        app.wf(),
    ensures
        match s {
            Screen::Unavailable { message } => {
                &&& app.visible().len() == 0
                &&& app.error() matches Some(e) && e.fatal && message@ == e.message
            },
            Screen::Empty => {
                &&& app.visible().len() == 0
                &&& !(app.error() matches Some(e) && e.fatal)
            },
            Screen::Tiles => app.visible().len() > 0,
        },
{
    let tiles = app.visible_sessions().len();
    if let Some(error) = app.global_error() {
        if tiles == 0 && error.is_fatal() {
            return Screen::Unavailable { message: error.message().to_owned() };
        }
    }
    if tiles == 0 {
        Screen::Empty
    } else {
        Screen::Tiles
    }
}

/// What the footer shows: the key hints, and after them, in red, the text
/// of the error shown, if any.
#[derive(Debug, Clone, PartialEq, Eq)]
pub struct FooterLine {
    pub hint: &'static str,
    pub error: Option<String>,
}

/// The text of an optional string.
pub open spec fn text_of(s: Option<String>) -> Option<Seq<char>> {
    match s {
        Some(t) => Some(t@),
        None => None,
    }
}

/// The error text that the footer shows for the error `error`: its message,
/// fatal or not.
pub open spec fn footer_error_spec(error: Option<AppErrorView>) -> Option<Seq<char>> {
    match error {
        Some(e) => Some(e.message),
        None => None,
    }
}

/// The footer of `app`: the key hints, then the text of the error shown.
pub fn footer_of(app: &App) -> (f: FooterLine)
    ensures
        f.hint@ == footer_message(),
        text_of(f.error) == footer_error_spec(app.error()),
{
    let error = match app.global_error() {
        Some(e) => Some(e.message().to_owned()),
        None => None,
    };
    FooterLine { hint: footer_text(), error }
}

/// The question that the kill dialog asks about the session `session`.
pub open spec fn confirm_prompt_spec(session: Seq<char>) -> Seq<char> {
    "Kill tmux session '"@ + session + "'?"@
}

/// The question that the kill dialog asks about the session `session`.
pub fn confirm_prompt(session: &str) -> (p: String)
    ensures
        p@ == confirm_prompt_spec(session@),
{
    let head = concat_str("Kill tmux session '", session);
    concat_str(head.as_str(), "'?")
}

/// The screen of `app` is the error screen: tmux cannot be reached and there
/// is no tile to show.
pub open spec fn shows_unavailable(app: App) -> bool {
    app.visible().len() == 0 && (app.error() matches Some(e) && e.fatal)
}

/// The question of the kill dialog drawn over the screen of `app`, if one is
/// drawn: none over the error screen, else the dialog's question about its
/// session where the dialog is shown.
pub open spec fn dialog_spec(app: App) -> Option<Seq<char>> {
    if shows_unavailable(app) {
        None
    } else {
        match app.overlay_session() {
            Some(session) => Some(confirm_prompt_spec(session)),
            None => None,
        }
    }
}

/// The question of the kill dialog drawn over the screen of `app`, if any.
pub fn dialog_of(app: &App) -> (d: Option<String>)
    requires
        app.wf(),
    ensures
        text_of(d) == dialog_spec(*app),
{
    if let Screen::Unavailable { .. } = screen_of(app) {
        return None;
    }
    match app.overlay_session_name() {
        Some(session) => Some(confirm_prompt(session)),
        None => None,
    }
}

/// How a tile is coloured: its border in the session's colour, or faded.
#[derive(Debug, Clone, Copy, PartialEq, Eq, Structural)]
pub enum TileTone {
    Accent(Accent),
    Faded,
}

/// How a tile looks: its colour, whether its text is dimmed, its border, its
/// title, and the line that it adds below its snapshot when that is stale.
#[derive(Debug, Clone, PartialEq, Eq)]
pub struct TileLook {
    pub tone: TileTone,
    pub dim: bool,
    pub border: BorderKind,
    pub title: TileTitle,
    pub stale: Option<String>,
}

/// The colour of the tile of a session with the status `status` and the
/// colour `accent`: that colour while it lives, faded once it is dead.
pub open spec fn tile_tone_spec(status: SessionStatus, accent: Accent) -> TileTone {
    match status {
        SessionStatus::Live => TileTone::Accent(accent),
        SessionStatus::Dead => TileTone::Faded,
    }
}

/// `l` is how the tile of the record `r` looks where the tile of the session
/// `focused` is the focused one: the record's colour while it lives, faded
/// and dimmed once it is dead; a double border where it is focused, rounded
/// otherwise; its title; and the stale line of the reason its snapshot is
/// stale, if it is.
pub open spec fn look_of(l: TileLook, r: SessionRecordView, focused: Option<Seq<char>>) -> bool {
    let is_focused = focused == Some(r.name);
    &&& l.tone == tile_tone_spec(r.status, r.accent)
    &&& l.dim == (r.status == SessionStatus::Dead)
    &&& l.border == (if is_focused {
        BorderKind::Double
    } else {
        BorderKind::Rounded
    })
    &&& title_views(l.title.spans@) == tile_title_spec(
        r.name,
        r.status == SessionStatus::Dead,
        is_focused,
    )
    &&& text_of(l.stale) == match r.stale_reason {
        Some(reason) => Some(stale_line_spec(reason)),
        None => None,
    }
}

/// The text of an optional string slice.
pub open spec fn str_text_of(s: Option<&str>) -> Option<Seq<char>> {
    match s {
        Some(t) => Some(t@),
        None => None,
    }
}

/// How the tile of `record` looks where the tile of the session
/// `focused_name` is the focused one.
pub fn tile_look(record: &SessionRecord, focused_name: Option<&str>) -> (l: TileLook)
    ensures
        l.tone == tile_tone_spec(record.status, record.accent),
        l.dim == (record.status == SessionStatus::Dead),
        l.border == (if str_text_of(focused_name) == Some(record.name@) {
            BorderKind::Double
        } else {
            BorderKind::Rounded
        }),
        look_of(l, record@, str_text_of(focused_name)),
{
    let is_focused = match focused_name {
        Some(name) => compare_names(name, record.name.as_str()) == NameOrder::Same,
        None => false,
    };
    let (tone, dim) = match record.status {
        SessionStatus::Live => (TileTone::Accent(record.accent), false),
        SessionStatus::Dead => (TileTone::Faded, true),
    };
    let stale = match &record.stale_reason {
        Some(reason) => Some(stale_line(reason.as_str())),
        None => None,
    };
    TileLook {
        tone,
        dim,
        border: tile_border_set(is_focused),
        title: tile_title(record, is_focused),
        stale,
    }
}

/// The tiles of `app` laid out in the area `content`: the cell of the grid
/// and the look of each visible record, in order, the focused one with a
/// double border; none where the grid has no room.
pub fn place_tiles(app: &App, content: Rect) -> (tiles: Vec<(Rect, TileLook)>)
    requires
        app.wf(),
        grid_fits(content, app.visible().len()),
    ensures
        grid_empty(content, app.visible().len()) ==> tiles@.len() == 0,
        !grid_empty(content, app.visible().len()) ==> {
            &&& tiles@.len() == app.visible().len()
            &&& forall|i: int|
                0 <= i < tiles@.len() ==> (#[trigger] tiles@[i]).0 == grid_rect(
                    content,
                    app.visible().len(),
                    i as nat,
                ) && look_of(tiles@[i].1, app.visible()[i], app.focused_name())
        },
{
    let records = app.visible_sessions();
    let n = records.len();
    let cells = compute_grid(content, n);
    let focused = app.focused_session_name();
    let focused_name: Option<&str> = match &focused {
        Some(name) => Some(name.as_str()),
        None => None,
    };
    assert(str_text_of(focused_name) == app.focused_name());
    let mut tiles: Vec<(Rect, TileLook)> = Vec::new();
    let mut i: usize = 0;
    while i < cells.len()
        invariant
            n == app.visible().len(),
            record_ref_views(records@) == app.visible(),
            grid_empty(content, n as nat) ==> cells@.len() == 0,
            !grid_empty(content, n as nat) ==> cells@.len() == n && forall|j: int|
                0 <= j < n ==> #[trigger] cells@[j] == grid_rect(content, n as nat, j as nat),
            str_text_of(focused_name) == app.focused_name(),
            i <= cells@.len(),
            tiles@.len() == i,
            forall|j: int|
                0 <= j < i ==> (#[trigger] tiles@[j]).0 == cells@[j] && look_of(
                    tiles@[j].1,
                    app.visible()[j],
                    app.focused_name(),
                ),
        decreases cells@.len() - i,
    {
        let record = records[i];
        assert(record@ == app.visible()[i as int]);
        let look = tile_look(record, focused_name);
        tiles.push((cells[i], look));
        i += 1;
    }
    tiles
}

} // verus!
