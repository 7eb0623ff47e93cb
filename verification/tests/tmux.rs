use std::collections::BTreeMap;

use std::cell::RefCell;

use muxdex::tmux::{
    capture_args, kill_session_args, list_panes_args, spawn_failure, command_failure, normalize_newlines, observe_session, parse_session_rows, parse_u16,
    sessions_from_listing, strip_ansi_escapes, CommandRunner, IntErrorKind, PaneSize,
    PaneSnapshot, ProbeError, RowParseError, TmuxProbe, TmuxSessionRow, LIST_PANES_FORMAT,
};

struct FakeRunner {
    responses: BTreeMap<String, Result<String, String>>,
}

impl FakeRunner {
    fn new<const N: usize>(entries: [(String, Result<String, String>); N]) -> Self {
        Self {
            responses: entries.into_iter().collect(),
        }
    }
}

impl CommandRunner for FakeRunner {
    fn run(&self, args: &[&str]) -> Result<String, ProbeError> {
        self.responses
            .get(&args.join("\0"))
            .cloned()
            .unwrap_or_else(|| Err("missing fake response".to_string()))
            .map_err(ProbeError::from_message)
    }
}

#[test]
fn parse_sessions_extracts_names_and_active_panes() {
    let output = "alpha|%1|120|30\nbeta|%8|200|60\n";
    let sessions = parse_session_rows(output).unwrap();

    assert_eq!(sessions[0].name, "alpha");
    assert_eq!(sessions[0].active_pane_id, "%1");
    assert_eq!(sessions[1].pane_size.width, 200);
}

#[test]
fn parse_snapshot_preserves_cells_and_lines() {
    let raw = "one\ntwo\n";
    let snapshot = PaneSnapshot::from_tmux_capture(raw, 8, 2);

    assert_eq!(snapshot.lines()[0], "one");
    assert_eq!(snapshot.lines()[1], "two");
}

#[test]
fn poll_sessions_preserves_capture_failures_per_session() {
    let probe = TmuxProbe::new(FakeRunner::new([
        (
            format!("list-panes\0-a\0-F\0{LIST_PANES_FORMAT}"),
            Ok("alpha|%1|80|24|1|1\nbeta|%2|80|24|1|1\n".to_string()),
        ),
        (
            "capture-pane\0-e\0-p\0-t\0%1".to_string(),
            Ok("alpha output".to_string()),
        ),
        (
            "capture-pane\0-e\0-p\0-t\0%2".to_string(),
            Err("capture failed".to_string()),
        ),
    ]));

    let observed = probe.poll_sessions().unwrap();

    assert_eq!(observed.len(), 2);
    assert_eq!(
        observed[0].capture.as_ref().unwrap().plain_text(),
        "alpha output"
    );
    assert!(
        matches!(observed[1].capture, Err(ref message) if message.contains("capture failed"))
    );
}

#[test]
fn poll_sessions_returns_empty_when_no_tmux_server_is_running() {
    let probe = TmuxProbe::new(FakeRunner::new([(
        format!("list-panes\0-a\0-F\0{LIST_PANES_FORMAT}"),
        Ok("no server running on /tmp/tmux-501/default\n".to_string()),
    )]));

    let observed = probe.poll_sessions().unwrap();

    assert!(observed.is_empty());
}

#[test]
fn poll_sessions_returns_empty_when_no_tmux_server_is_reported_as_error() {
    let probe = TmuxProbe::new(FakeRunner::new([(
        format!("list-panes\0-a\0-F\0{LIST_PANES_FORMAT}"),
        Err("no server running on /private/tmp/tmux-501/default".to_string()),
    )]));

    let observed = probe.poll_sessions().unwrap();

    assert!(observed.is_empty());
}

#[test]
fn poll_sessions_passes_on_other_listing_errors() {
    let probe = TmuxProbe::new(FakeRunner::new([(
        format!("list-panes\0-a\0-F\0{LIST_PANES_FORMAT}"),
        Err("tmux is not installed or not on PATH".to_string()),
    )]));
    let error = probe.poll_sessions().unwrap_err();
    assert_eq!(error.message(), "tmux is not installed or not on PATH");
}

#[test]
fn poll_sessions_reports_unreadable_listings() {
    let probe = TmuxProbe::new(FakeRunner::new([(
        format!("list-panes\0-a\0-F\0{LIST_PANES_FORMAT}"),
        Ok("alpha|%1|wide|24\n".to_string()),
    )]));
    let error = probe.poll_sessions().unwrap_err();
    assert_eq!(
        error.message(),
        "failed to parse tmux sessions: invalid pane width: invalid digit found in string"
    );
}

#[test]
fn kill_session_reports_the_runner_outcome() {
    let probe = TmuxProbe::new(FakeRunner::new([(
        "kill-session\0-t\0alpha".to_string(),
        Ok(String::new()),
    )]));
    assert!(probe.kill_session("alpha").is_ok());
    let error = probe.kill_session("beta").unwrap_err();
    assert_eq!(error.message(), "missing fake response");
}

#[test]
fn rows_keep_only_active_panes_and_plain_session_names() {
    let rows = parse_session_rows(
        "work:1|%3|80|24|1|0\nwork:1|%4|90|30|1|1\n   \nplay|%5|+7|0|0|1\r\n",
    )
    .unwrap();
    assert_eq!(
        rows,
        vec![TmuxSessionRow {
            name: "work".to_string(),
            active_pane_id: "%4".to_string(),
            pane_size: PaneSize {
                width: 90,
                height: 30
            },
        }]
    );
    assert!(parse_session_rows("").unwrap().is_empty());
}

#[test]
fn row_errors_name_what_is_wrong() {
    assert_eq!(
        parse_session_rows("a|b|c\n"),
        Err(RowParseError::InvalidRow {
            line: "a|b|c".to_string()
        })
    );
    let width = parse_session_rows("a|%1||24").unwrap_err();
    assert_eq!(
        width,
        RowParseError::InvalidWidth {
            kind: IntErrorKind::Empty
        }
    );
    assert_eq!(
        width.message(),
        "invalid pane width: cannot parse integer from empty string"
    );
    let height = parse_session_rows("a|%1|80|70000").unwrap_err();
    assert_eq!(
        height.message(),
        "invalid pane height: number too large to fit in target type"
    );
    assert_eq!(
        RowParseError::InvalidRow {
            line: "x".to_string()
        }
        .message(),
        "invalid tmux row: x"
    );
}

#[test]
fn numbers_parse_as_u16_does() {
    let digits = |s: &str| s.chars().collect::<Vec<char>>();
    assert_eq!(parse_u16(&digits("65535")), Ok(65535));
    assert_eq!(parse_u16(&digits("+12")), Ok(12));
    assert_eq!(parse_u16(&digits("007")), Ok(7));
    assert_eq!(parse_u16(&digits("65536")), Err(IntErrorKind::PosOverflow));
    assert_eq!(parse_u16(&digits("70000x")), Err(IntErrorKind::PosOverflow));
    assert_eq!(parse_u16(&digits("7x0000")), Err(IntErrorKind::InvalidDigit));
    assert_eq!(parse_u16(&digits("+")), Err(IntErrorKind::InvalidDigit));
    assert_eq!(parse_u16(&digits("-1")), Err(IntErrorKind::InvalidDigit));
    assert_eq!(parse_u16(&digits("")), Err(IntErrorKind::Empty));
    for s in ["0", "1", "99", "+5", "65535", "65536", "1x", "", "+", "-", " 1"] {
        let expected = s.parse::<u16>().map_err(|_| ());
        assert_eq!(parse_u16(&digits(s)).map_err(|_| ()), expected, "{s}");
    }
}

#[test]
fn escapes_are_stripped() {
    assert_eq!(strip_ansi_escapes("\u{1b}[31mred\u{1b}[0m plain"), "red plain");
    assert_eq!(strip_ansi_escapes("a\u{1b}b"), "ab");
    assert_eq!(strip_ansi_escapes("a\u{1b}[12;3"), "a");
    assert_eq!(strip_ansi_escapes("no escapes"), "no escapes");
}

#[test]
fn line_breaks_are_normalized() {
    assert_eq!(
        normalize_newlines("a\r\nb\rc\n\n"),
        vec!["a".to_string(), "b".to_string(), "c".to_string()]
    );
    assert_eq!(normalize_newlines(""), vec![String::new()]);
    assert_eq!(
        normalize_newlines("\nx"),
        vec![String::new(), "x".to_string()]
    );
}

#[test]
fn snapshot_keeps_styled_text_and_plain_lines() {
    let snapshot = PaneSnapshot::from_tmux_capture("\u{1b}[31mred\u{1b}[0m\r\nnext\n", 10, 2);
    assert_eq!(snapshot.plain_text(), "red\nnext");
    let styled = PaneSnapshot::from_tmux_capture("\u{1b}[31mred\u{1b}[0m", 10, 2);
    let first: String = styled.text().lines[0]
        .spans
        .iter()
        .map(|span| span.content.as_ref())
        .collect();
    assert_eq!(first, "red");
    let placeholder = PaneSnapshot::placeholder("Snapshot unavailable", 1, 1);
    assert_eq!(placeholder.lines(), ["Snapshot unavailable".to_string()]);
    assert_eq!(placeholder.text().lines.len(), 1);
    let shown: String = placeholder.text().lines[0]
        .spans
        .iter()
        .map(|span| span.content.as_ref())
        .collect();
    assert_eq!(shown, "Snapshot unavailable");
}

#[test]
fn probe_errors_recognize_a_missing_server() {
    assert!(ProbeError::from_message("error: no server running on x".to_string())
        .is_no_server_running());
    assert!(!ProbeError::from_message("no such session".to_string()).is_no_server_running());
}

#[test]
fn command_failures_are_worded_by_their_cause() {
    assert_eq!(
        command_failure("  no server running on /tmp/x\n").message(),
        "no server running on /tmp/x"
    );
    assert_eq!(
        command_failure("can't find session: beta\n").message(),
        "tmux command failed: can't find session: beta"
    );
}

#[test]
fn listing_outcomes_decide_the_sessions() {
    let rows = sessions_from_listing(Ok("a|%1|1|2\n".to_string())).unwrap();
    assert_eq!(rows[0].name, "a");
    assert!(sessions_from_listing(Err(ProbeError::from_message(
        "no server running".to_string()
    )))
    .unwrap()
    .is_empty());
    assert_eq!(
        sessions_from_listing(Err(ProbeError::from_message("boom".to_string())))
            .unwrap_err()
            .message(),
        "boom"
    );
}

#[test]
fn observing_a_session_keeps_its_row_and_capture() {
    let row = TmuxSessionRow {
        name: "a".to_string(),
        active_pane_id: "%9".to_string(),
        pane_size: PaneSize {
            width: 3,
            height: 4,
        },
    };
    let seen = observe_session(row.clone(), Ok("x\ny".to_string()));
    assert_eq!(seen.name, "a");
    assert_eq!(seen.capture.as_ref().unwrap().lines(), ["x".to_string(), "y".to_string()]);
    let failed = observe_session(row, Err(ProbeError::from_message("gone".to_string())));
    assert_eq!(failed.capture, Err("gone".to_string()));
}

struct RecordingRunner {
    responses: BTreeMap<String, Result<String, String>>,
    calls: RefCell<Vec<String>>,
}

impl CommandRunner for RecordingRunner {
    fn run(&self, args: &[&str]) -> Result<String, ProbeError> {
        let key = args.join(" ");
        self.calls.borrow_mut().push(key.clone());
        self.responses
            .get(&key)
            .cloned()
            .unwrap_or_else(|| Err("unexpected command".to_string()))
            .map_err(ProbeError::from_message)
    }
}

impl CommandRunner for &RecordingRunner {
    fn run(&self, args: &[&str]) -> Result<String, ProbeError> {
        (**self).run(args)
    }
}

fn recording(entries: Vec<(String, Result<String, String>)>) -> RecordingRunner {
    RecordingRunner {
        responses: entries.into_iter().collect(),
        calls: RefCell::new(Vec::new()),
    }
}

#[test]
fn command_arguments_are_those_tmux_expects() {
    assert_eq!(list_panes_args(), ["list-panes", "-a", "-F", LIST_PANES_FORMAT]);
    assert_eq!(capture_args("%7"), ["capture-pane", "-e", "-p", "-t", "%7"]);
    assert_eq!(kill_session_args("work"), ["kill-session", "-t", "work"]);
}

#[test]
fn poll_lists_then_captures_each_active_pane_in_order() {
    let listing = format!("list-panes -a -F {LIST_PANES_FORMAT}");
    let runner = recording(vec![
        (
            listing.clone(),
            Ok("beta|%2|80|24|1|1\nalpha|%1|80|24|1|1\n".to_string()),
        ),
        ("capture-pane -e -p -t %2".to_string(), Ok("b".to_string())),
        ("capture-pane -e -p -t %1".to_string(), Ok("a".to_string())),
    ]);
    let probe = TmuxProbe::new(&runner);
    let sessions = probe.poll_sessions().unwrap();
    assert_eq!(
        *runner.calls.borrow(),
        vec![
            listing,
            "capture-pane -e -p -t %2".to_string(),
            "capture-pane -e -p -t %1".to_string(),
        ]
    );
    assert_eq!(sessions.len(), 2);
    assert_eq!(sessions[0].name, "beta");
    assert_eq!(sessions[0].capture.as_ref().unwrap().plain_text(), "b");
    assert_eq!(sessions[1].name, "alpha");
    assert_eq!(sessions[1].capture.as_ref().unwrap().plain_text(), "a");
}

#[test]
fn poll_makes_no_capture_after_a_failed_listing() {
    let runner = recording(vec![]);
    let probe = TmuxProbe::new(&runner);
    let error = probe.poll_sessions().unwrap_err();
    assert_eq!(error.message(), "unexpected command");
    assert_eq!(runner.calls.borrow().len(), 1);
}

#[test]
fn kill_runs_kill_session_on_the_named_session() {
    let runner = recording(vec![(
        "kill-session -t work".to_string(),
        Err("can't find session: work".to_string()),
    )]);
    let probe = TmuxProbe::new(&runner);
    let error = probe.kill_session("work").unwrap_err();
    assert_eq!(error.message(), "can't find session: work");
    assert_eq!(*runner.calls.borrow(), vec!["kill-session -t work".to_string()]);
}

#[test]
fn unstartable_tmux_is_reported_by_its_cause() {
    assert_eq!(
        spawn_failure(true, "No such file or directory").message(),
        "tmux is not installed or not on PATH"
    );
    assert_eq!(
        spawn_failure(false, "Permission denied").message(),
        "failed to run tmux: Permission denied"
    );
}

#[test]
fn traced_poll_and_kill_give_the_same_outcome() {
    let runner = recording(vec![
        (
            format!("list-panes -a -F {LIST_PANES_FORMAT}"),
            Ok("work|%3|80|24|1|1\n".to_string()),
        ),
        ("capture-pane -e -p -t %3".to_string(), Err("gone".to_string())),
        ("kill-session -t work".to_string(), Ok(String::new())),
    ]);
    let probe = TmuxProbe::new(&runner);
    let (sessions, _) = probe.poll_sessions_traced();
    let sessions = sessions.unwrap();
    assert_eq!(sessions.len(), 1);
    assert_eq!(sessions[0].capture, Err("gone".to_string()));
    let (killed, _) = probe.kill_session_traced("work");
    assert!(killed.is_ok());
    assert_eq!(runner.calls.borrow().len(), 3);
}

#[test]
fn plain_capture_reads_back_whole() {
    let snapshot = PaneSnapshot::from_tmux_capture("one\ntwo", 10, 2);
    assert_eq!(snapshot.plain_text(), "one\ntwo");
}
