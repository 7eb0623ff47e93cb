use std::time::{Duration, SystemTime, UNIX_EPOCH};

use muxdex::app::{key_command, App, AppError, Command, Key, OverlayState, Step};
use std::collections::BTreeMap;

use muxdex::tmux::{
    CommandRunner, ObservedSession, PaneSize, PaneSnapshot, ProbeError, TmuxProbe,
    LIST_PANES_FORMAT,
};

struct ScriptedRunner {
    responses: BTreeMap<String, Result<String, String>>,
}

impl CommandRunner for ScriptedRunner {
    fn run(&self, args: &[&str]) -> Result<String, ProbeError> {
        self.responses
            .get(&args.join(" "))
            .cloned()
            .unwrap_or_else(|| Err("unexpected command".to_string()))
            .map_err(ProbeError::from_message)
    }
}

fn observed(name: &str, text: &str) -> ObservedSession {
    ObservedSession {
        name: name.to_string(),
        active_pane_id: "%1".to_string(),
        pane_size: PaneSize {
            width: 80,
            height: 24,
        },
        capture: Ok(PaneSnapshot::from_tmux_capture(text, 80, 24)),
    }
}

fn app_with_live_session(name: &str) -> App {
    let mut app = App::new();
    app.apply_probe_result(Ok(vec![observed(name, "hello")]));
    app
}

fn timestamp(seconds: u64) -> SystemTime {
    UNIX_EPOCH + Duration::from_secs(seconds)
}

#[test]
fn new_app_starts_with_empty_visible_sessions() {
    let app = App::new();

    assert!(app.visible_sessions().is_empty());
    assert!(app.overlay().is_none());
}

#[test]
fn confirm_close_requires_explicit_acceptance_for_live_session() {
    let mut app = app_with_live_session("alpha");
    app.request_close_for_focused();

    assert!(
        matches!(app.overlay(), Some(OverlayState::ConfirmKill { session }) if session == "alpha")
    );

    app.cancel_overlay();
    assert!(app.overlay().is_none());
}

#[test]
fn app_surfaces_probe_errors_without_clearing_existing_tiles() {
    let mut app = app_with_live_session("alpha");

    app.apply_probe_result(Err(AppError::tmux_unavailable("tmux missing")));

    assert!(app.global_error().is_some());
    assert_eq!(app.visible_sessions().len(), 1);
}

#[test]
fn app_errors_keep_their_text_and_fatality() {
    let fatal = AppError::tmux_unavailable("tmux missing");
    assert_eq!(fatal.message(), "tmux missing");
    assert!(fatal.is_fatal());
    let mild = AppError::non_fatal("kill failed");
    assert_eq!(mild.message(), "kill failed");
    assert!(!mild.is_fatal());
    let from_probe = AppError::from(ProbeError::from_message("no tmux".to_string()));
    assert_eq!(from_probe.message(), "no tmux");
    assert!(from_probe.is_fatal());
}

#[test]
fn successful_poll_clears_the_error() {
    let mut app = app_with_live_session("alpha");
    app.apply_probe_result(Err(AppError::tmux_unavailable("tmux missing")));
    app.apply_probe_result(Ok(vec![observed("alpha", "back")]));
    assert!(app.global_error().is_none());
    assert_eq!(app.visible_sessions().len(), 1);
}

#[test]
fn focus_moves_round_the_tiles_and_back() {
    let mut app = App::new();
    app.apply_probe_result_at(
        Ok(vec![
            observed("beta", "b"),
            observed("alpha", "a"),
            observed("gamma", "c"),
        ]),
        timestamp(5),
    );
    assert_eq!(app.focused_session_name().as_deref(), Some("alpha"));
    app.move_focus_next();
    assert_eq!(app.focused_session_name().as_deref(), Some("beta"));
    app.move_focus_previous();
    assert_eq!(app.focused_session_name().as_deref(), Some("alpha"));
    app.move_focus_previous();
    assert_eq!(app.focused_session_name().as_deref(), Some("gamma"));
    app.move_focus_next();
    assert_eq!(app.focused_session_name().as_deref(), Some("alpha"));
}

#[test]
fn focus_on_empty_dashboard_stays_at_nothing() {
    let mut app = App::new();
    app.move_focus_next();
    assert_eq!(app.focused_session_name(), None);
    app.move_focus_previous();
    assert_eq!(app.focused_session_name(), None);
    app.request_close_for_focused();
    assert!(app.overlay().is_none());
}

#[test]
fn closing_a_dead_tile_hides_it_at_once() {
    let mut app = App::new();
    app.apply_probe_result_at(
        Ok(vec![observed("alpha", "a"), observed("beta", "b")]),
        timestamp(1),
    );
    app.move_focus_next();
    app.apply_probe_result_at(Ok(vec![observed("alpha", "a")]), timestamp(2));
    assert_eq!(app.focused_session_name().as_deref(), Some("beta"));
    app.request_close_for_focused();
    assert!(app.overlay().is_none());
    let names: Vec<String> = app
        .visible_sessions()
        .iter()
        .map(|record| record.name.clone())
        .collect();
    assert_eq!(names, vec!["alpha".to_string()]);
    assert_eq!(app.focused_session_name().as_deref(), Some("alpha"));
}

#[test]
fn hidden_session_comes_back_when_seen_again() {
    let mut app = app_with_live_session("alpha");
    app.hide_session("alpha");
    assert!(app.visible_sessions().is_empty());
    assert_eq!(app.focused_session_name(), None);
    app.apply_probe_result(Ok(vec![observed("alpha", "again")]));
    assert_eq!(app.visible_sessions().len(), 1);
}

#[test]
fn keys_map_to_commands() {
    assert_eq!(key_command(Key::Char('q'), false), Command::Quit);
    assert_eq!(key_command(Key::Char('c'), true), Command::Quit);
    assert_eq!(key_command(Key::Char('c'), false), Command::Ignore);
    assert_eq!(key_command(Key::Tab, false), Command::FocusNext);
    assert_eq!(key_command(Key::Char('l'), false), Command::FocusNext);
    assert_eq!(key_command(Key::BackTab, false), Command::FocusPrevious);
    assert_eq!(key_command(Key::Char('k'), false), Command::FocusPrevious);
    assert_eq!(key_command(Key::Esc, false), Command::Cancel);
    assert_eq!(key_command(Key::Enter, false), Command::Confirm);
    assert_eq!(key_command(Key::Char('x'), false), Command::Close);
    assert_eq!(key_command(Key::Other, false), Command::Ignore);
}

#[test]
fn confirming_the_dialog_asks_to_kill_its_session() {
    let mut app = app_with_live_session("alpha");
    assert_eq!(app.handle_command(Command::Confirm), Step::Continue);
    assert_eq!(app.handle_command(Command::Close), Step::Continue);
    assert_eq!(
        app.handle_command(Command::Confirm),
        Step::Kill("alpha".to_string())
    );
    assert_eq!(app.handle_command(Command::Quit), Step::Quit);
}

#[test]
fn successful_kill_hides_the_tile() {
    let mut app = app_with_live_session("alpha");
    app.request_close_for_focused();
    app.finish_kill("alpha", Ok(()));
    assert!(app.overlay().is_none());
    assert!(app.visible_sessions().is_empty());
    assert!(app.global_error().is_none());
}

#[test]
fn failed_kill_keeps_the_tile_and_shows_a_mild_error() {
    let mut app = app_with_live_session("alpha");
    app.request_close_for_focused();
    app.finish_kill(
        "alpha",
        Err(ProbeError::from_message("tmux command failed: no such session".to_string())),
    );
    assert!(app.overlay().is_none());
    assert_eq!(app.visible_sessions().len(), 1);
    let error = app.global_error().unwrap();
    assert!(!error.is_fatal());
    assert_eq!(error.message(), "tmux command failed: no such session");
}

#[test]
fn commands_move_focus_and_close_dialogs() {
    let mut app = App::new();
    app.apply_probe_result(Ok(vec![observed("alpha", "a"), observed("beta", "b")]));
    assert_eq!(app.handle_command(Command::FocusNext), Step::Continue);
    assert_eq!(app.focused_session_name().as_deref(), Some("beta"));
    assert_eq!(app.handle_command(Command::FocusPrevious), Step::Continue);
    assert_eq!(app.focused_session_name().as_deref(), Some("alpha"));
    app.handle_command(Command::Close);
    assert_eq!(app.overlay_session_name(), Some("alpha"));
    assert_eq!(app.handle_command(Command::Ignore), Step::Continue);
    assert_eq!(app.overlay_session_name(), Some("alpha"));
    app.handle_command(Command::Cancel);
    assert_eq!(app.overlay_session_name(), None);
    assert_eq!(app.visible_sessions().len(), 2);
}

#[test]
fn refresh_takes_in_a_poll() {
    let mut responses = BTreeMap::new();
    responses.insert(
        format!("list-panes -a -F {LIST_PANES_FORMAT}"),
        Ok("alpha|%1|80|24|1|1\n".to_string()),
    );
    responses.insert("capture-pane -e -p -t %1".to_string(), Ok("hi".to_string()));
    let probe = TmuxProbe::new(ScriptedRunner { responses });
    let mut app = App::new();
    app.refresh(&probe);
    assert!(app.global_error().is_none());
    assert_eq!(app.focused_session_name().as_deref(), Some("alpha"));

    let broken = TmuxProbe::new(ScriptedRunner {
        responses: BTreeMap::new(),
    });
    app.refresh(&broken);
    let error = app.global_error().unwrap();
    assert!(error.is_fatal());
    assert_eq!(error.message(), "unexpected command");
    assert_eq!(app.visible_sessions().len(), 1);
}
