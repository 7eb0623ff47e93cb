use std::time::{Duration, UNIX_EPOCH};

use muxdex::store::{accent_for_name, Accent, SessionStatus, SessionStore};
use muxdex::tmux::{ObservedSession, PaneSize, PaneSnapshot};

fn sample_record(name: &str, text: &str) -> ObservedSession {
    ObservedSession {
        name: name.to_string(),
        active_pane_id: "%1".to_string(),
        pane_size: PaneSize {
            width: 80,
            height: 24,
        },
        capture: Ok(PaneSnapshot::from_tmux_capture(text, 80, 24)),
    }
}

fn failed_capture(name: &str, error: &str) -> ObservedSession {
    ObservedSession {
        name: name.to_string(),
        active_pane_id: "%2".to_string(),
        pane_size: PaneSize {
            width: 80,
            height: 24,
        },
        capture: Err(error.to_string()),
    }
}

fn timestamp(seconds: u64) -> std::time::SystemTime {
    UNIX_EPOCH + Duration::from_secs(seconds)
}

#[test]
fn reconcile_marks_missing_session_dead_and_keeps_snapshot() {
    let mut store = SessionStore::default();
    store.upsert_live(sample_record("alpha", "still here"), timestamp(10));

    store.reconcile(Vec::new(), timestamp(20));

    let record = store.get("alpha").unwrap();
    assert!(record.is_dead());
    assert_eq!(record.snapshot.plain_text(), "still here");
}

#[test]
fn reconcile_reactivates_dead_record_when_name_returns() {
    let mut store = SessionStore::default();
    store.upsert_live(sample_record("alpha", "before death"), timestamp(10));
    store.reconcile(Vec::new(), timestamp(20));

    store.reconcile(vec![sample_record("alpha", "after return")], timestamp(30));

    let record = store.get("alpha").unwrap();
    assert!(record.is_live());
    assert_eq!(record.snapshot.plain_text(), "after return");
}

#[test]
fn failed_capture_keeps_last_snapshot_and_marks_it_stale() {
    let mut store = SessionStore::default();
    store.upsert_live(sample_record("alpha", "good frame"), timestamp(1));
    store.reconcile(vec![failed_capture("alpha", "capture failed")], timestamp(2));
    let record = store.get("alpha").unwrap();
    assert!(record.is_live());
    assert_eq!(record.snapshot.plain_text(), "good frame");
    assert_eq!(record.stale_reason.as_deref(), Some("capture failed"));
    assert_eq!(record.active_pane_id, "%2");
    assert_eq!(record.last_seen, timestamp(2));

    store.reconcile(vec![sample_record("alpha", "fresh")], timestamp(3));
    let record = store.get("alpha").unwrap();
    assert_eq!(record.stale_reason, None);
    assert_eq!(record.snapshot.plain_text(), "fresh");
}

#[test]
fn first_failed_capture_shows_placeholder() {
    let mut store = SessionStore::default();
    store.upsert_live(failed_capture("beta", "boom"), timestamp(1));
    let record = store.get("beta").unwrap();
    assert_eq!(record.snapshot.plain_text(), "Snapshot unavailable");
    assert_eq!(record.stale_reason.as_deref(), Some("boom"));
}

#[test]
fn records_stay_one_per_name_in_name_order() {
    let mut store = SessionStore::default();
    store.reconcile(
        vec![
            sample_record("gamma", "g"),
            sample_record("alpha", "a"),
            sample_record("beta", "b"),
            sample_record("alpha", "a2"),
        ],
        timestamp(1),
    );
    let names: Vec<&str> = store
        .visible_records()
        .iter()
        .map(|record| record.name.as_str())
        .collect();
    assert_eq!(names, vec!["alpha", "beta", "gamma"]);
    assert_eq!(store.get("alpha").unwrap().snapshot.plain_text(), "a2");
}

#[test]
fn hidden_records_are_not_visible_until_seen_again() {
    let mut store = SessionStore::default();
    store.reconcile(vec![sample_record("alpha", "a"), sample_record("beta", "b")], timestamp(1));
    store.hide_record("alpha");
    assert!(store.get("alpha").unwrap().hidden);
    assert_eq!(store.visible_records().len(), 1);
    assert!(store.is_live("alpha"));
    store.reconcile(vec![sample_record("beta", "b")], timestamp(2));
    assert!(!store.is_live("alpha"));
    assert_eq!(store.visible_records().len(), 1);
    store.reconcile(vec![sample_record("alpha", "a")], timestamp(3));
    assert_eq!(store.visible_records().len(), 2);
    assert!(store.get("missing").is_none());
    assert!(!store.is_live("missing"));
}

#[test]
fn accents_follow_the_name_hash() {
    assert_eq!(accent_for_name("alpha"), Accent::Yellow);
    assert_eq!(accent_for_name("beta"), Accent::Magenta);
    assert_eq!(accent_for_name("gamma"), Accent::LightRed);
    assert_eq!(accent_for_name(""), Accent::Cyan);
    let mut store = SessionStore::default();
    store.upsert_live(sample_record("alpha", "a"), timestamp(1));
    assert_eq!(store.get("alpha").unwrap().accent, Accent::Yellow);
    assert_eq!(store.get("alpha").unwrap().status, SessionStatus::Live);
}
