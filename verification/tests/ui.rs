use std::time::SystemTime;

use muxdex::app::{App, AppError};
use muxdex::store::{Accent, SessionRecord, SessionStatus};
use muxdex::layout::Rect;
use muxdex::tmux::{ObservedSession, PaneSize, PaneSnapshot};
use muxdex::ui::{
    confirm_prompt, dialog_of, footer_of, footer_text, place_tiles, render_empty_state_text,
    screen_of, stale_line, tile_border_set, tile_look, tile_title, BorderKind, Screen, SpanStyle,
    TileTitle, TileTone,
};

fn sample_record() -> SessionRecord {
    SessionRecord {
        name: "alpha".to_string(),
        active_pane_id: "%1".to_string(),
        status: SessionStatus::Live,
        last_seen: SystemTime::UNIX_EPOCH,
        snapshot: PaneSnapshot::placeholder("hello", 10, 3),
        hidden: false,
        accent: Accent::Cyan,
        stale_reason: None,
    }
}

fn dead_record() -> SessionRecord {
    SessionRecord {
        status: SessionStatus::Dead,
        ..sample_record()
    }
}

fn rendered(title: &TileTitle) -> String {
    title
        .spans
        .iter()
        .map(|span| span.content.as_str())
        .collect::<String>()
}

#[test]
fn empty_state_explains_that_sessions_appear_automatically() {
    let app = App::new();
    let text = render_empty_state_text(&app);
    assert!(text.contains("No tmux sessions detected"));
    assert!(text.contains("appear automatically"));
}

#[test]
fn focused_tile_uses_double_border_set() {
    assert_eq!(tile_border_set(true), BorderKind::Double);
    assert_eq!(tile_border_set(false), BorderKind::Rounded);
}

#[test]
fn tile_title_does_not_include_close_glyph() {
    let title = tile_title(&sample_record(), true);
    let rendered = rendered(&title);

    assert!(rendered.contains("alpha"));
    assert!(!rendered.contains('X'));
}

#[test]
fn live_tile_title_omits_status_label() {
    let title = tile_title(&sample_record(), true);
    let rendered = rendered(&title);

    assert!(rendered.contains("alpha"));
    assert!(!rendered.contains("[live]"));
}

#[test]
fn dead_tile_title_uses_killed_label() {
    let title = tile_title(&dead_record(), false);
    let rendered = rendered(&title);

    assert!(rendered.contains("alpha"));
    assert!(rendered.contains("[killed]"));
    assert!(!rendered.contains("[dead]"));
}

#[test]
fn unfocused_tile_title_is_not_bold() {
    let title = tile_title(&sample_record(), false);

    assert_ne!(title.spans[0].style, SpanStyle::Bold);
}

#[test]
fn focused_tile_title_stays_bold() {
    let title = tile_title(&sample_record(), true);

    assert_eq!(title.spans[0].style, SpanStyle::Bold);
}

#[test]
fn footer_omits_confirm_and_cancel_hints() {
    let footer = footer_text();

    assert!(footer.contains("tab/shift-tab move"));
    assert!(footer.contains("x close"));
    assert!(footer.contains("q quit"));
    assert!(!footer.contains("enter confirm"));
    assert!(!footer.contains("esc cancel"));
}

#[test]
fn dead_title_adds_a_gray_label() {
    let title = tile_title(&dead_record(), true);
    assert_eq!(title.spans.len(), 3);
    assert_eq!(title.spans[0].style, SpanStyle::Bold);
    assert_eq!(title.spans[1].content, " ");
    assert_eq!(title.spans[2].style, SpanStyle::Gray);
    assert_eq!(rendered(&title), "alpha [killed]");
}

#[test]
fn stale_line_names_the_reason() {
    assert_eq!(stale_line("capture failed"), "stale: capture failed");
}

#[test]
fn screen_shows_the_fatal_error_only_without_tiles() {
    let mut app = App::new();
    assert_eq!(screen_of(&app), Screen::Empty);
    app.apply_probe_result(Err(AppError::tmux_unavailable("tmux missing")));
    assert_eq!(
        screen_of(&app),
        Screen::Unavailable {
            message: "tmux missing".to_string()
        }
    );
    app.set_error(AppError::non_fatal("kill failed"));
    assert_eq!(screen_of(&app), Screen::Empty);
}

fn observed(name: &str) -> ObservedSession {
    ObservedSession {
        name: name.to_string(),
        active_pane_id: "%1".to_string(),
        pane_size: PaneSize {
            width: 80,
            height: 24,
        },
        capture: Ok(PaneSnapshot::from_tmux_capture("hi", 80, 24)),
    }
}

#[test]
fn live_tile_keeps_its_colour_and_focused_tile_its_double_border() {
    let record = sample_record();
    let look = tile_look(&record, Some("alpha"));
    assert_eq!(look.tone, TileTone::Accent(Accent::Cyan));
    assert!(!look.dim);
    assert_eq!(look.border, BorderKind::Double);
    assert_eq!(rendered(&look.title), "alpha");
    assert_eq!(look.title.spans[0].style, SpanStyle::Bold);
    assert_eq!(look.stale, None);
    let other = tile_look(&record, Some("beta"));
    assert_eq!(other.border, BorderKind::Rounded);
    assert_eq!(other.title.spans[0].style, SpanStyle::Plain);
    assert_eq!(tile_look(&record, None).border, BorderKind::Rounded);
}

#[test]
fn dead_tile_is_faded_and_dimmed() {
    let look = tile_look(&dead_record(), None);
    assert_eq!(look.tone, TileTone::Faded);
    assert!(look.dim);
    assert_eq!(rendered(&look.title), "alpha [killed]");
}

#[test]
fn stale_tile_adds_its_reason() {
    let record = SessionRecord {
        stale_reason: Some("capture failed".to_string()),
        ..sample_record()
    };
    let look = tile_look(&record, None);
    assert_eq!(look.stale, Some("stale: capture failed".to_string()));
}

#[test]
fn footer_shows_any_error_after_the_hints() {
    let mut app = App::new();
    let footer = footer_of(&app);
    assert_eq!(footer.hint, footer_text());
    assert_eq!(footer.error, None);
    app.set_error(AppError::non_fatal("kill failed"));
    assert_eq!(footer_of(&app).error, Some("kill failed".to_string()));
    app.set_error(AppError::tmux_unavailable("tmux missing"));
    assert_eq!(footer_of(&app).error, Some("tmux missing".to_string()));
}

#[test]
fn kill_dialog_asks_about_its_session() {
    assert_eq!(confirm_prompt("work"), "Kill tmux session 'work'?");
    let mut app = App::new();
    app.apply_probe_result(Ok(vec![observed("work")]));
    assert_eq!(dialog_of(&app), None);
    app.request_close_for_focused();
    assert_eq!(dialog_of(&app), Some("Kill tmux session 'work'?".to_string()));
}

#[test]
fn kill_dialog_is_not_drawn_over_the_error_screen() {
    let mut app = App::new();
    app.apply_probe_result(Ok(vec![observed("work")]));
    app.request_close_for_focused();
    app.hide_session("work");
    app.set_error(AppError::tmux_unavailable("tmux missing"));
    assert_eq!(dialog_of(&app), None);
}

#[test]
fn tiles_take_grid_cells_in_name_order() {
    let mut app = App::new();
    app.apply_probe_result(Ok(vec![observed("beta"), observed("alpha")]));
    app.move_focus_next();
    let area = Rect {
        x: 0,
        y: 0,
        width: 100,
        height: 40,
    };
    let tiles = place_tiles(&app, area);
    assert_eq!(tiles.len(), 2);
    assert_eq!(
        tiles[0].0,
        Rect {
            x: 0,
            y: 0,
            width: 50,
            height: 40
        }
    );
    assert_eq!(
        tiles[1].0,
        Rect {
            x: 50,
            y: 0,
            width: 50,
            height: 40
        }
    );
    assert_eq!(rendered(&tiles[0].1.title), "alpha");
    assert_eq!(tiles[0].1.border, BorderKind::Rounded);
    assert_eq!(rendered(&tiles[1].1.title), "beta");
    assert_eq!(tiles[1].1.border, BorderKind::Double);
}

#[test]
fn no_tiles_are_placed_without_room() {
    let mut app = App::new();
    app.apply_probe_result(Ok(vec![observed("alpha")]));
    let area = Rect {
        x: 0,
        y: 0,
        width: 0,
        height: 10,
    };
    assert!(place_tiles(&app, area).is_empty());
}
