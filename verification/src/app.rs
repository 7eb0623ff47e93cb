use std::time::SystemTime;

use vstd::prelude::*;
use vstd::std_specs::convert::FromSpecImpl;

use crate::store::{
    lemma_name_lt_irreflexive, lemma_record_map_keys, lemma_record_map_value, lemma_unhidden_visible, lemma_visible_sorted,
    name_lt, names_sorted, record_map, record_ref_views, reconcile_spec, visible_of, SessionRecord,
    SessionRecordView, SessionStatus, SessionStore,
};
use crate::tmux::{
    observed_views, poll_outcome, poll_view, CommandRunner, ObservedSession, ObservedSessionView, ProbeError, TmuxProbe,
};

verus! {

/// A dialog shown over the tiles.
#[derive(Debug, Clone, PartialEq, Eq)]
pub enum OverlayState {
    /// Asks whether to kill the session `session`.
    ConfirmKill { session: String },
}

/// An error to show, and whether it leaves nothing else worth showing.
#[derive(Debug, Clone, PartialEq, Eq)]
pub struct AppError {
    message: String,
    fatal: bool,
}

/// What an error holds: its text and whether it is fatal.
pub struct AppErrorView {
    pub message: Seq<char>,
    pub fatal: bool,
}

impl View for AppError {
    type V = AppErrorView;

    closed spec fn view(&self) -> AppErrorView {
        AppErrorView { message: self.message@, fatal: self.fatal }
    }
}

impl AppError {
    /// The fatal error that tmux cannot be reached, with the text `message`.
    pub fn tmux_unavailable(message: &str) -> (e: Self)
        ensures
            e@ == (AppErrorView { message: message@, fatal: true }),
    {
        AppError { message: message.to_owned(), fatal: true }
    }

    /// An error that leaves the tiles worth showing, with the text `message`.
    pub fn non_fatal(message: &str) -> (e: Self)
        ensures
            e@ == (AppErrorView { message: message@, fatal: false }),
    {
        AppError { message: message.to_owned(), fatal: false }
    }

    /// The text of the error.
    pub fn message(&self) -> (m: &str)
        ensures
            m@ == self@.message,
    {
        self.message.as_str()
    }

    /// Whether the error is fatal.
    pub fn is_fatal(&self) -> (b: bool)
        ensures
            b == self@.fatal,
    {
        self.fatal
    }
}

impl From<ProbeError> for AppError {
    /// A failed probe makes tmux unavailable: a fatal error with its text.
    fn from(value: ProbeError) -> (e: Self)
        ensures
            e@ == (AppErrorView { message: value@, fatal: true }),
    {
        AppError { message: value.into_message(), fatal: true }
    }
}

impl FromSpecImpl<ProbeError> for AppError {
    open spec fn obeys_from_spec() -> bool {
        true
    }

    closed spec fn from_spec(v: ProbeError) -> AppError {
        AppError { message: v.message_string(), fatal: true }
    }
}

/// The clock's current time.
///
/// Calls `std::time::SystemTime::now`; nothing is stated of the time it gives.
#[verifier::external_body]
fn current_time() -> (t: SystemTime) {
    SystemTime::now()
}

/// The focus once the number of visible tiles is `len`: kept where it still
/// points at a tile, moved to the last tile where it points past them, and 0
/// where there are none.
pub open spec fn normalized_focus(focus: nat, len: nat) -> nat {
    if len == 0 {
        0
    } else if focus >= len {
        (len - 1) as nat
    } else {
        focus
    }
}

/// The focus after moving on from `focus` among `len` tiles, from the last tile
/// round to the first.
pub open spec fn next_focus(focus: nat, len: nat) -> nat {
    if len == 0 {
        0
    } else {
        (focus + 1) % len
    }
}

/// The focus after moving back from `focus` among `len` tiles, from the first
/// tile round to the last.
pub open spec fn previous_focus(focus: nat, len: nat) -> nat {
    if len == 0 {
        0
    } else if focus == 0 {
        (len - 1) as nat
    } else {
        (focus - 1) as nat
    }
}

/// `after` is `before` once closing the focused tile was asked for: nothing
/// changes where no tile is focused; for a live session the kill dialog asks
/// about it and nothing else changes; the tile of a dead session is hidden and
/// the focus kept on a tile.
pub open spec fn close_requested(before: App, after: App) -> bool {
    match before.focused_name() {
        None => after.shows_as(before),
        Some(name) => if before.sessions().contains_key(name) && before.sessions()[name].status
            == SessionStatus::Live {
            &&& after.overlay_session() == Some(name)
            &&& after.records() == before.records()
            &&& after.focus() == before.focus()
        } else {
            &&& after.sessions() == before.sessions().insert(
                name,
                SessionRecordView { hidden: true, ..before.sessions()[name] },
            )
            &&& after.focus() == normalized_focus(before.focus(), after.visible().len())
            &&& after.overlay_session() == before.overlay_session()
        },
    }
}

/// The dashboard's state: the sessions, the dialog shown, the focused tile and
/// the error shown.
pub struct App {
    store: SessionStore,
    overlay: Option<OverlayState>,
    focus_index: usize,
    global_error: Option<AppError>,
}

impl App {
    /// The records by name.
    pub open spec fn sessions(&self) -> Map<Seq<char>, SessionRecordView> {
        record_map(self.records())
    }

    /// The records in the order of their names.
    pub closed spec fn records(&self) -> Seq<SessionRecordView> {
        self.store.records_view()
    }

    /// The tiles shown: the records that are not hidden, in name order.
    pub open spec fn visible(&self) -> Seq<SessionRecordView> {
        visible_of(self.records())
    }

    /// The position of the focused tile among the visible ones.
    pub closed spec fn focus(&self) -> nat {
        self.focus_index as nat
    }

    /// The session that the kill dialog asks about, if it is shown.
    pub closed spec fn overlay_session(&self) -> Option<Seq<char>> {
        match self.overlay {
            Some(OverlayState::ConfirmKill { session }) => Some(session@),
            None => None,
        }
    }

    /// The error shown, if any.
    pub closed spec fn error(&self) -> Option<AppErrorView> {
        match self.global_error {
            Some(e) => Some(e@),
            None => None,
        }
    }

    /// A tile of the session `name` is shown.
    pub open spec fn has_tile(&self, name: Seq<char>) -> bool {
        exists|i: int| 0 <= i < self.visible().len() && self.visible()[i].name == name
    }

    /// The name of the focused session, if a tile is focused.
    pub open spec fn focused_name(&self) -> Option<Seq<char>> {
        if self.focus() < self.visible().len() {
            Some(self.visible()[self.focus() as int].name)
        } else {
            None
        }
    }

    /// `self` shows what `other` shows: the same records in the same order,
    /// the same focus and the same dialog.
    pub open spec fn shows_as(&self, other: App) -> bool {
        &&& self.records() == other.records()
        &&& self.focus() == other.focus()
        &&& self.overlay_session() == other.overlay_session()
    }

    /// The state is well formed: the store is, and the focus points at a
    /// visible tile, or is 0 where there is none.
    pub closed spec fn wf(&self) -> bool {
        &&& self.store.wf()
        &&& self.focus() == normalized_focus(self.focus(), self.visible().len())
    }

    /// An empty dashboard: no sessions, no dialog, no error.
    pub fn new() -> (a: Self)
        ensures
            a.wf(),
            a.sessions() == Map::<Seq<char>, SessionRecordView>::empty(),
            a.visible() == Seq::<SessionRecordView>::empty(),
            a.focus() == 0,
            a.overlay_session() is None,
            a.error() is None,
    {
        let a = App {
            store: SessionStore::default(),
            overlay: None,
            focus_index: 0,
            global_error: None,
        };
        assert(a.visible() =~= Seq::<SessionRecordView>::empty());
        a
    }

    /// The tiles shown, in name order.
    pub fn visible_sessions(&self) -> (v: Vec<&SessionRecord>)
        requires
            self.wf(),
        ensures
            record_ref_views(v@) == self.visible(),
    {
        self.store.visible_records()
    }

    /// The dialog shown, if any.
    pub fn overlay(&self) -> (o: Option<&OverlayState>)
        ensures
            match o {
                Some(OverlayState::ConfirmKill { session }) => self.overlay_session() == Some(session@),
                None => self.overlay_session() is None,
            },
    {
        self.overlay.as_ref()
    }

    /// The error shown, if any.
    pub fn global_error(&self) -> (e: Option<&AppError>)
        ensures
            match e {
                Some(e) => self.error() == Some(e@),
                None => self.error() is None,
            },
    {
        self.global_error.as_ref()
    }

    /// Closes the dialog.
    pub fn cancel_overlay(&mut self)
        requires
            old(self).wf(),
        ensures
            final(self).wf(),
            final(self).overlay_session() is None,
            final(self).sessions() == old(self).sessions(),
            final(self).records() == old(self).records(),
            final(self).focus() == old(self).focus(),
            final(self).error() == old(self).error(),
    {
        self.overlay = None;
    }

    /// Shows `error`.
    pub fn set_error(&mut self, error: AppError)
        requires
            old(self).wf(),
        ensures
            final(self).wf(),
            final(self).error() == Some(error@),
            final(self).overlay_session() == old(self).overlay_session(),
            final(self).sessions() == old(self).sessions(),
            final(self).records() == old(self).records(),
            final(self).focus() == old(self).focus(),
    {
        self.global_error = Some(error);
    }

    fn normalize_focus(&mut self)
        requires
            old(self).store.wf(),
        ensures
            final(self).wf(),
            final(self).focus() == normalized_focus(old(self).focus(), old(self).visible().len()),
            final(self).store == old(self).store,
            final(self).overlay == old(self).overlay,
            final(self).global_error == old(self).global_error,
    {
        let visible_len = self.store.visible_records().len();
        if visible_len == 0 {
            self.focus_index = 0;
        } else if self.focus_index >= visible_len {
            self.focus_index = visible_len - 1;
        }
    }

    /// Moves the focus to the next tile, from the last round to the first.
    pub fn move_focus_next(&mut self)
        requires
            old(self).wf(),
        ensures
            final(self).wf(),
            final(self).focus() == next_focus(old(self).focus(), old(self).visible().len()),
            final(self).sessions() == old(self).sessions(),
            final(self).records() == old(self).records(),
            final(self).overlay_session() == old(self).overlay_session(),
            final(self).error() == old(self).error(),
    {
        let len = self.store.visible_records().len();
        if len == 0 {
            self.focus_index = 0;
            return;
        }
        self.focus_index = (self.focus_index + 1) % len;
    }

    /// Moves the focus to the previous tile, from the first round to the last.
    pub fn move_focus_previous(&mut self)
        requires
            old(self).wf(),
        ensures
            final(self).wf(),
            final(self).focus() == previous_focus(old(self).focus(), old(self).visible().len()),
            final(self).sessions() == old(self).sessions(),
            final(self).records() == old(self).records(),
            final(self).overlay_session() == old(self).overlay_session(),
            final(self).error() == old(self).error(),
    {
        let len = self.store.visible_records().len();
        if len == 0 {
            self.focus_index = 0;
            return;
        }
        self.focus_index = if self.focus_index == 0 {
            len - 1
        } else {
            self.focus_index - 1
        };
    }

    /// The name of the focused session, if a tile is focused.
    pub fn focused_session_name(&self) -> (n: Option<String>)
        requires
            self.wf(),
        ensures
            match n {
                Some(name) => self.focused_name() == Some(name@),
                None => self.focused_name() is None,
            },
    {
        let visible = self.store.visible_records();
        if self.focus_index < visible.len() {
            let record = visible[self.focus_index];
            assert(record@ == self.visible()[self.focus() as int]);
            Some(record.name.clone())
        } else {
            None
        }
    }

    /// The session that the kill dialog asks about, if it is shown.
    pub fn overlay_session_name(&self) -> (n: Option<&str>)
        ensures
            match n {
                Some(name) => self.overlay_session() == Some(name@),
                None => self.overlay_session() is None,
            },
    {
        match self.overlay.as_ref() {
            Some(OverlayState::ConfirmKill { session }) => Some(session.as_str()),
            None => None,
        }
    }

    /// Hides the tile of the session `name` and keeps the focus on a tile.
    pub fn hide_session(&mut self, name: &str)
        requires
            old(self).wf(),
        ensures
            final(self).wf(),
            final(self).sessions() == if old(self).sessions().contains_key(name@) {
                old(self).sessions().insert(
                    name@,
                    SessionRecordView { hidden: true, ..old(self).sessions()[name@] },
                )
            } else {
                old(self).sessions()
            },
            final(self).focus() == normalized_focus(old(self).focus(), final(self).visible().len()),
            final(self).overlay_session() == old(self).overlay_session(),
            final(self).error() == old(self).error(),
    {
        self.store.hide_record(name);
        self.normalize_focus();
    }

    /// Asks to close the focused tile: for a live session the kill dialog is
    /// shown and nothing else changes; the tile of a dead session is hidden at
    /// once.
    pub fn request_close_for_focused(&mut self)
        requires
            old(self).wf(),
        ensures
            final(self).wf(),
            final(self).error() == old(self).error(),
            close_requested(*old(self), *final(self)),
    {
        let session = match self.focused_session_name() {
            Some(session) => session,
            None => {
                return;
            },
        };
        proof {
            self.store.lemma_wf();
            let k = self.focus() as int;
            lemma_visible_in_store(self.records(), k);
        }
        if self.store.is_live(session.as_str()) {
            self.overlay = Some(OverlayState::ConfirmKill { session });
        } else {
            self.store.hide_record(session.as_str());
            self.normalize_focus();
        }
    }

    /// Takes in the outcome of a poll seen at `now`: its sessions are recorded
    /// and the error shown is cleared, or its error is shown and the sessions
    /// are kept as they were.
    pub fn apply_probe_result_at(
        &mut self,
        result: Result<Vec<ObservedSession>, AppError>,
        now: SystemTime,
    )
        requires
            old(self).wf(),
        ensures
            final(self).wf(),
            final(self).overlay_session() == old(self).overlay_session(),
            match result {
                Ok(observed) => {
                    &&& final(self).error() is None
                    &&& final(self).sessions() == reconcile_spec(
                        old(self).sessions(),
                        observed_views(observed@),
                        now,
                    )
                    &&& final(self).focus() == normalized_focus(
                        old(self).focus(),
                        final(self).visible().len(),
                    )
                },
                Err(error) => {
                    &&& final(self).error() == Some(error@)
                    &&& final(self).sessions() == old(self).sessions()
                    &&& final(self).records() == old(self).records()
                    &&& final(self).focus() == old(self).focus()
                },
            },
    {
        match result {
            Ok(observed) => {
                self.global_error = None;
                self.store.reconcile(observed, now);
                self.normalize_focus();
            },
            Err(error) => {
                self.global_error = Some(error);
            },
        }
    }

    /// Takes in the outcome of a poll, seen now.
    ///
    /// The time is the clock's, which is not known here; whatever it is, the
    /// poll's sessions are recorded as seen at that time.
    pub fn apply_probe_result(&mut self, result: Result<Vec<ObservedSession>, AppError>)
        requires
            old(self).wf(),
        ensures
            final(self).wf(),
            final(self).overlay_session() == old(self).overlay_session(),
            match result {
                Ok(observed) => {
                    &&& final(self).error() is None
                    &&& exists|now: SystemTime|
                        final(self).sessions() == #[trigger] reconcile_spec(
                            old(self).sessions(),
                            observed_views(observed@),
                            now,
                        )
                    &&& final(self).focus() == normalized_focus(
                        old(self).focus(),
                        final(self).visible().len(),
                    )
                },
                Err(error) => {
                    &&& final(self).error() == Some(error@)
                    &&& final(self).sessions() == old(self).sessions()
                    &&& final(self).records() == old(self).records()
                    &&& final(self).focus() == old(self).focus()
                },
            },
    {
        let now = current_time();
        self.apply_probe_result_at(result, now);
    }
}

/// A key that was pressed.
#[derive(Debug, Clone, Copy, PartialEq, Eq, Structural)]
pub enum Key {
    Char(char),
    Tab,
    BackTab,
    Left,
    Right,
    Up,
    Down,
    Enter,
    Esc,
    Other,
}

/// What the user asks for.
#[derive(Debug, Clone, Copy, PartialEq, Eq, Structural)]
pub enum Command {
    Quit,
    FocusNext,
    FocusPrevious,
    Cancel,
    Confirm,
    Close,
    Ignore,
}

/// What a key asks for: `q` or control-`c` quits; tab, right, down, `j` and
/// `l` move the focus on; back-tab, left, up, `h` and `k` move it back; escape
/// cancels the dialog; enter confirms it; `x` closes the focused tile.
pub open spec fn key_command_spec(key: Key, control: bool) -> Command {
    match key {
        Key::Char('q') => Command::Quit,
        Key::Tab | Key::Right | Key::Down | Key::Char('j') | Key::Char('l') => Command::FocusNext,
        Key::BackTab | Key::Left | Key::Up | Key::Char('h') | Key::Char('k') => Command::FocusPrevious,
        Key::Esc => Command::Cancel,
        Key::Enter => Command::Confirm,
        Key::Char('x') => Command::Close,
        Key::Char('c') if control => Command::Quit,
        _ => Command::Ignore,
    }
}

/// What the key `key`, pressed with control held or not, asks for.
pub fn key_command(key: Key, control: bool) -> (c: Command)
    ensures
        c == key_command_spec(key, control),
        (key == Key::Tab || key == Key::Right || key == Key::Down || key == Key::Char('j') || key
            == Key::Char('l')) ==> c == Command::FocusNext,
        (key == Key::BackTab || key == Key::Left || key == Key::Up || key == Key::Char('h') || key
            == Key::Char('k')) ==> c == Command::FocusPrevious,
{
    match key {
        Key::Char('q') => Command::Quit,
        Key::Tab | Key::Right | Key::Down | Key::Char('j') | Key::Char('l') => Command::FocusNext,
        Key::BackTab | Key::Left | Key::Up | Key::Char('h') | Key::Char('k') => Command::FocusPrevious,
        Key::Esc => Command::Cancel,
        Key::Enter => Command::Confirm,
        Key::Char('x') => Command::Close,
        Key::Char('c') if control => Command::Quit,
        _ => Command::Ignore,
    }
}

/// What the event loop does next.
#[derive(Debug, Clone, PartialEq, Eq)]
pub enum Step {
    /// Keep going.
    Continue,
    /// Stop.
    Quit,
    /// Kill the session with this name, then report the outcome with
    /// [`App::finish_kill`].
    Kill(String),
}

impl App {
    /// Carries out `command`: moves the focus, closes or confirms the dialog,
    /// or asks to close the focused tile. Confirming the kill dialog asks the
    /// loop to kill its session; nothing else is changed before the kill.
    ///
    /// A kill is asked for only on confirmation of the dialog, and only of
    /// the session that the dialog asked about; and the dialog comes to ask
    /// about a session only when closing its focused tile was asked for.
    pub fn handle_command(&mut self, command: Command) -> (step: Step)
        requires
            old(self).wf(),
        ensures
            final(self).wf(),
            final(self).error() == old(self).error(),
            step matches Step::Kill(s) ==> command == Command::Confirm
                && old(self).overlay_session() == Some(s@),
            final(self).overlay_session() is Some && final(self).overlay_session()
                != old(self).overlay_session() ==> command == Command::Close
                && final(self).overlay_session() == old(self).focused_name(),
            match command {
                Command::Quit => step == Step::Quit && final(self).shows_as(*old(self)),
                Command::Ignore => step == Step::Continue && final(self).shows_as(*old(self)),
                Command::Confirm => {
                    &&& final(self).shows_as(*old(self))
                    &&& match old(self).overlay_session() {
                        Some(name) => step matches Step::Kill(s) && s@ == name,
                        None => step == Step::Continue,
                    }
                },
                Command::FocusNext => {
                    &&& step == Step::Continue
                    &&& final(self).records() == old(self).records()
                    &&& final(self).overlay_session() == old(self).overlay_session()
                    &&& final(self).focus() == next_focus(old(self).focus(), old(self).visible().len())
                },
                Command::FocusPrevious => {
                    &&& step == Step::Continue
                    &&& final(self).records() == old(self).records()
                    &&& final(self).overlay_session() == old(self).overlay_session()
                    &&& final(self).focus() == previous_focus(
                        old(self).focus(),
                        old(self).visible().len(),
                    )
                },
                Command::Cancel => {
                    &&& step == Step::Continue
                    &&& final(self).records() == old(self).records()
                    &&& final(self).focus() == old(self).focus()
                    &&& final(self).overlay_session() is None
                },
                Command::Close => step == Step::Continue && close_requested(*old(self), *final(self)),
            },
    {
        match command {
            Command::Quit => Step::Quit,
            Command::FocusNext => {
                self.move_focus_next();
                Step::Continue
            },
            Command::FocusPrevious => {
                self.move_focus_previous();
                Step::Continue
            },
            Command::Cancel => {
                self.cancel_overlay();
                Step::Continue
            },
            Command::Confirm => match self.overlay_session_name() {
                Some(session) => Step::Kill(session.to_owned()),
                None => Step::Continue,
            },
            Command::Close => {
                self.request_close_for_focused();
                Step::Continue
            },
            Command::Ignore => Step::Continue,
        }
    }

    /// Takes in the outcome of killing the session `session`: where the kill
    /// succeeded its tile is hidden; where it failed the tile stays and the
    /// failure is shown as an error that is not fatal. The dialog is closed
    /// either way.
    pub fn finish_kill(&mut self, session: &str, outcome: Result<(), ProbeError>)
        requires
            old(self).wf(),
        ensures
            final(self).wf(),
            final(self).overlay_session() is None,
            match outcome {
                Ok(()) => {
                    &&& final(self).sessions() == if old(self).sessions().contains_key(session@) {
                        old(self).sessions().insert(
                            session@,
                            SessionRecordView { hidden: true, ..old(self).sessions()[session@] },
                        )
                    } else {
                        old(self).sessions()
                    }
                    &&& final(self).focus() == normalized_focus(old(self).focus(), final(self).visible().len())
                    &&& final(self).error() == old(self).error()
                },
                Err(e) => {
                    &&& final(self).sessions() == old(self).sessions()
                    &&& final(self).records() == old(self).records()
                    &&& final(self).focus() == old(self).focus()
                    &&& final(self).error() == Some(AppErrorView { message: e@, fatal: false })
                },
            },
    {
        match outcome {
            Ok(()) => {
                self.hide_session(session);
                self.cancel_overlay();
            },
            Err(error) => {
                self.set_error(AppError::non_fatal(error.message()));
                self.cancel_overlay();
            },
        }
    }

    /// Polls tmux through `probe` and takes in the outcome: a failed poll
    /// makes tmux unavailable, a fatal error with the poll's error text.
    ///
    /// What tmux answers is not known here; the poll's outcome is one that
    /// [`poll_outcome`] allows for the probe's runner, and the state takes it
    /// in: its sessions are recorded, at the clock's time, and the error is
    /// cleared; or its error is shown as fatal and the sessions are kept.
    pub fn refresh<R: CommandRunner>(&mut self, probe: &TmuxProbe<R>)
        requires
            old(self).wf(),
        ensures
            final(self).wf(),
            final(self).overlay_session() == old(self).overlay_session(),
            exists|polled: Result<Seq<ObservedSessionView>, Seq<char>>|
                #[trigger] poll_outcome(probe.runner(), polled) && match polled {
                    Ok(obs) => {
                        &&& final(self).error() is None
                        &&& exists|now: SystemTime|
                            final(self).sessions() == #[trigger] reconcile_spec(
                                old(self).sessions(),
                                obs,
                                now,
                            )
                        &&& final(self).focus() == normalized_focus(
                            old(self).focus(),
                            final(self).visible().len(),
                        )
                    },
                    Err(m) => {
                        &&& final(self).error() == Some(AppErrorView { message: m, fatal: true })
                        &&& final(self).sessions() == old(self).sessions()
                        &&& final(self).records() == old(self).records()
                        &&& final(self).focus() == old(self).focus()
                    },
                },
    {
        let polled = probe.poll_sessions();
        let ghost polled_view = poll_view(polled);
        let result = match polled {
            Ok(observed) => Ok(observed),
            Err(error) => Err(AppError::from(error)),
        };
        self.apply_probe_result(result);
        assert(poll_outcome(probe.runner(), polled_view));
    }
}

/// In a well-formed state the records come in strictly increasing order of
/// name, each filed under its own name; the tiles are the records that are
/// not hidden, one per session and in name order; a name has a tile exactly
/// when it has a record that is not hidden; and the focus is on a tile, or 0
/// where there is none.
pub proof fn law_one_tile_per_session(app: &App)
    requires
        app.wf(),
    ensures
        names_sorted(app.records()),
        forall|i: int|
            0 <= i < app.records().len() ==> #[trigger] app.sessions().contains_key(
                app.records()[i].name,
            ) && app.sessions()[app.records()[i].name] == app.records()[i],
        forall|k: Seq<char>| #[trigger]
            app.sessions().contains_key(k) ==> exists|i: int|
                0 <= i < app.records().len() && app.records()[i].name == k,
        forall|i: int, j: int|
            0 <= i < j < app.visible().len() ==> name_lt(
                #[trigger] app.visible()[i].name,
                #[trigger] app.visible()[j].name,
            ) && app.visible()[i].name != app.visible()[j].name,
        forall|i: int|
            0 <= i < app.visible().len() ==> #[trigger] app.sessions().contains_key(
                app.visible()[i].name,
            ) && app.sessions()[app.visible()[i].name] == app.visible()[i]
                && !app.visible()[i].hidden,
        forall|k: Seq<char>|
            #![trigger app.sessions().contains_key(k)]
            #![trigger app.has_tile(k)]
            (app.sessions().contains_key(k) && !app.sessions()[k].hidden) <==> app.has_tile(k),
        app.focus() == normalized_focus(app.focus(), app.visible().len()),
{
    lemma_records_filed(app);
    lemma_tiles_sorted(app);
    lemma_tiles_filed(app);
    assert forall|k: Seq<char>|
        #![trigger app.sessions().contains_key(k)]
        #![trigger app.has_tile(k)]
        (app.sessions().contains_key(k) && !app.sessions()[k].hidden) <==> app.has_tile(k) by {
        lemma_tile_of_name(app, k);
    }
}

/// Each record is filed under its own name, and each name filed is a record's.
proof fn lemma_records_filed(app: &App)
    requires
        app.wf(),
    ensures
        names_sorted(app.records()),
        forall|i: int|
            0 <= i < app.records().len() ==> #[trigger] app.sessions().contains_key(
                app.records()[i].name,
            ) && app.sessions()[app.records()[i].name] == app.records()[i],
        forall|k: Seq<char>| #[trigger]
            app.sessions().contains_key(k) ==> exists|i: int|
                0 <= i < app.records().len() && app.records()[i].name == k,
{
    app.store.lemma_wf();
    let s = app.records();
    assert forall|i: int| 0 <= i < s.len() implies #[trigger] record_map(s).contains_key(s[i].name)
        && record_map(s)[s[i].name] == s[i] by {
        lemma_record_map_value(s, i);
    }
    assert forall|k: Seq<char>| #[trigger] record_map(s).contains_key(k) implies exists|i: int|
        0 <= i < s.len() && s[i].name == k by {
        lemma_record_map_keys(s, k);
    }
}

/// The tiles come in strictly increasing order of name.
proof fn lemma_tiles_sorted(app: &App)
    requires
        app.wf(),
    ensures
        forall|i: int, j: int|
            0 <= i < j < app.visible().len() ==> name_lt(
                #[trigger] app.visible()[i].name,
                #[trigger] app.visible()[j].name,
            ) && app.visible()[i].name != app.visible()[j].name,
{
    app.store.lemma_wf();
    let v = app.visible();
    lemma_visible_sorted(app.records());
    assert forall|i: int, j: int| 0 <= i < j < v.len() implies name_lt(
        #[trigger] v[i].name,
        #[trigger] v[j].name,
    ) && v[i].name != v[j].name by {
        lemma_name_lt_irreflexive(v[i].name);
    }
}

/// Each tile is the record of its name, and is not hidden.
proof fn lemma_tiles_filed(app: &App)
    requires
        app.wf(),
    ensures
        forall|i: int|
            0 <= i < app.visible().len() ==> #[trigger] app.sessions().contains_key(
                app.visible()[i].name,
            ) && app.sessions()[app.visible()[i].name] == app.visible()[i]
                && !app.visible()[i].hidden,
{
    app.store.lemma_wf();
    let v = app.visible();
    assert forall|i: int| 0 <= i < v.len() implies #[trigger] app.sessions().contains_key(v[i].name)
        && app.sessions()[v[i].name] == v[i] && !v[i].hidden by {
        lemma_visible_in_store(app.records(), i);
    }
}

/// A name has a tile exactly when it has a record that is not hidden.
proof fn lemma_tile_of_name(app: &App, k: Seq<char>)
    requires
        app.wf(),
    ensures
        (app.sessions().contains_key(k) && !app.sessions()[k].hidden) <==> app.has_tile(k),
{
    app.store.lemma_wf();
    let s = app.records();
    let v = app.visible();
    if app.sessions().contains_key(k) && !app.sessions()[k].hidden {
        lemma_record_map_keys(s, k);
        let j = choose|j: int| 0 <= j < s.len() && #[trigger] s[j].name == k;
        lemma_record_map_value(s, j);
        lemma_unhidden_visible(s, j);
        let i = choose|i: int| 0 <= i < v.len() && #[trigger] v[i] == s[j];
        assert(v[i].name == k);
    }
    if exists|i: int| 0 <= i < v.len() && v[i].name == k {
        let i = choose|i: int| 0 <= i < v.len() && v[i].name == k;
        lemma_visible_in_store(s, i);
    }
}

/// In a well-formed state the focus is on a visible tile, or is 0 where there
/// is none; so a tile is focused whenever one is shown.
pub proof fn law_focus_on_a_tile(app: &App)
    requires
        app.wf(),
    ensures
        app.visible().len() == 0 ==> app.focus() == 0 && app.focused_name() is None,
        app.visible().len() > 0 ==> app.focus() < app.visible().len() && app.focused_name() is Some,
{
}

/// Moving the focus on and then back, or back and then on, returns it to the
/// tile it was on.
pub proof fn law_focus_moves_undo(focus: nat, len: nat)
    requires
        focus < len,
    ensures
        previous_focus(next_focus(focus, len), len) == focus,
        next_focus(previous_focus(focus, len), len) == focus,
{
    if focus + 1 < len {
        assert((focus + 1) % len == focus + 1) by (nonlinear_arith)
            requires
                focus + 1 < len,
        ;
    } else {
        assert((focus + 1) % len == 0) by (nonlinear_arith)
            requires
                focus + 1 == len,
        ;
    }
    if focus == 0 {
        assert(((len - 1) as nat + 1) % len == 0) by (nonlinear_arith)
            requires
                len >= 1,
        ;
    } else {
        assert(((focus - 1) as nat + 1) % len == focus) by (nonlinear_arith)
            requires
                0 < focus < len,
        ;
    }
}

/// The focused tile is the record of its session, and it is not hidden.
pub proof fn law_focused_tile_is_recorded(app: &App)
    requires
        app.wf(),
        app.focused_name() is Some,
    ensures
        app.sessions().contains_key(app.focused_name()->0),
        app.sessions()[app.focused_name()->0] == app.visible()[app.focus() as int],
        !app.sessions()[app.focused_name()->0].hidden,
{
    app.store.lemma_wf();
    lemma_visible_in_store(app.records(), app.focus() as int);
}

/// Every visible tile is the record of its name.
pub proof fn lemma_visible_in_store(s: Seq<SessionRecordView>, k: int)
    requires
        crate::store::names_sorted(s),
        0 <= k < visible_of(s).len(),
    ensures
        crate::store::record_map(s).contains_key(visible_of(s)[k].name),
        crate::store::record_map(s)[visible_of(s)[k].name] == visible_of(s)[k],
        !visible_of(s)[k].hidden,
    decreases s.len(),
{
    let v = visible_of(s);
    let t = s.drop_last();
    assert(crate::store::names_sorted(t)) by {
        assert forall|a: int, b: int| 0 <= a < b < t.len() implies crate::store::name_lt(#[trigger] t[a].name, #[trigger] t[b].name) by {
            assert(t[a] == s[a] && t[b] == s[b]);
        }
    }
    if s.last().hidden || k < visible_of(t).len() {
        assert(visible_of(t)[k] == v[k]);
        lemma_visible_in_store(t, k);
        // the last record of `s` has a name after every name of `t`
        crate::store::lemma_record_map_keys(t, v[k].name);
        let i = choose|i: int| 0 <= i < t.len() && #[trigger] t[i].name == v[k].name;
        assert(crate::store::name_lt(s[i].name, s.last().name));
        lemma_name_lt_irreflexive(s.last().name);
    } else {
        assert(v[k] == s.last());
    }
}

/// The keys: `q`, and control-`c`, quit; tab, right, down, `j` and `l` move
/// the focus on; back-tab, left, up, `h` and `k` move it back; escape cancels;
/// enter confirms; `x` closes; `c` alone, and other keys, do nothing.
pub proof fn law_key_table(control: bool)
    ensures
        key_command_spec(Key::Char('q'), control) == Command::Quit,
        key_command_spec(Key::Char('c'), true) == Command::Quit,
        key_command_spec(Key::Char('c'), false) == Command::Ignore,
        key_command_spec(Key::Tab, control) == Command::FocusNext,
        key_command_spec(Key::Right, control) == Command::FocusNext,
        key_command_spec(Key::Down, control) == Command::FocusNext,
        key_command_spec(Key::Char('j'), control) == Command::FocusNext,
        key_command_spec(Key::Char('l'), control) == Command::FocusNext,
        key_command_spec(Key::BackTab, control) == Command::FocusPrevious,
        key_command_spec(Key::Left, control) == Command::FocusPrevious,
        key_command_spec(Key::Up, control) == Command::FocusPrevious,
        key_command_spec(Key::Char('h'), control) == Command::FocusPrevious,
        key_command_spec(Key::Char('k'), control) == Command::FocusPrevious,
        key_command_spec(Key::Esc, control) == Command::Cancel,
        key_command_spec(Key::Enter, control) == Command::Confirm,
        key_command_spec(Key::Char('x'), control) == Command::Close,
        key_command_spec(Key::Other, control) == Command::Ignore,
{
}

/// Once the tiles change, the focus stays on its tile while that still
/// exists, moves to the last tile where it points past them, and is 0 where
/// there is none.
pub proof fn law_focus_normalization(focus: nat, len: nat)
    ensures
        len == 0 ==> normalized_focus(focus, len) == 0,
        focus < len ==> normalized_focus(focus, len) == focus,
        0 < len <= focus ==> normalized_focus(focus, len) == len - 1,
{
}

} // verus!
