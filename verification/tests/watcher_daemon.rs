use notes::guard::{daemon_running, marker_pid, parse_i32, pid_marker_content, DaemonVerdict, ProbeResult};
use notes::watcher::{
    event_touches_notes, path_has_note_extension, WatcherAction, WatcherInput, WatcherState,
    COOLDOWN_SECS,
};

#[test]
fn burst_of_events_coalesces_into_one_sync() {
    let mut state = WatcherState::start(0);
    // A burst of rapid saves within one cooldown window.
    for t in [1i64, 2, 3, 4, 5] {
        let action = state.step(WatcherInput::Notification { note_file: true }, t, COOLDOWN_SECS);
        assert!(matches!(action, WatcherAction::Wait));
    }
    // A timeout before the window has elapsed does not sync.
    let action = state.step(WatcherInput::Timeout, 5 + COOLDOWN_SECS - 1, COOLDOWN_SECS);
    assert!(matches!(action, WatcherAction::Wait));
    // After a quiet cooldown, exactly one pass runs.
    let action = state.step(WatcherInput::Timeout, 5 + COOLDOWN_SECS, COOLDOWN_SECS);
    assert!(matches!(action, WatcherAction::RunSync));
    // Further timeouts stay quiet: the burst produced one pass in all.
    let action = state.step(WatcherInput::Timeout, 5 + 2 * COOLDOWN_SECS, COOLDOWN_SECS);
    assert!(matches!(action, WatcherAction::Wait));
}

#[test]
fn irrelevant_events_do_not_mark_dirty() {
    let mut state = WatcherState::start(0);
    let action = state.step(WatcherInput::Notification { note_file: false }, 1, COOLDOWN_SECS);
    assert!(matches!(action, WatcherAction::Wait));
    let action = state.step(WatcherInput::Timeout, 100, COOLDOWN_SECS);
    assert!(matches!(action, WatcherAction::Wait));
}

#[test]
fn watcher_errors_log_and_closure_stops() {
    let mut state = WatcherState::start(0);
    assert!(matches!(state.step(WatcherInput::NotifyError, 1, COOLDOWN_SECS), WatcherAction::LogError));
    assert!(matches!(state.step(WatcherInput::Closed, 2, COOLDOWN_SECS), WatcherAction::Stop));
}

#[test]
fn note_extension_filter_matches_md_ignoring_case() {
    assert!(path_has_note_extension("home/files/a.md"));
    assert!(path_has_note_extension("home/files/A.MD"));
    assert!(path_has_note_extension("a.tar.md"));
    assert!(!path_has_note_extension("home/files/a.txt"));
    assert!(!path_has_note_extension("home/files/.md"));
    assert!(!path_has_note_extension("home/files/amd"));
    assert!(!path_has_note_extension("note.md.bak"));

    let paths = vec!["x.txt".to_string(), "y.md".to_string()];
    assert!(event_touches_notes(&paths));
    let paths = vec!["x.txt".to_string()];
    assert!(!event_touches_notes(&paths));
}

#[test]
fn stale_marker_is_treated_like_no_marker() {
    // A recorded process that is dead: not running, marker flagged stale.
    let content = "424242".to_string();
    let verdict = daemon_running(Some(&content), ProbeResult::NoSuchProcess);
    assert_eq!(verdict, DaemonVerdict::NotRunning { stale_marker: true });
    // No marker at all: same spawn decision, nothing to remove.
    let verdict = daemon_running(None, ProbeResult::Failed);
    assert_eq!(verdict, DaemonVerdict::NotRunning { stale_marker: false });
    // A live process keeps the singleton.
    let verdict = daemon_running(Some(&content), ProbeResult::Alive);
    assert_eq!(verdict, DaemonVerdict::Running);
}

#[test]
fn marker_pid_parses_trimmed_positive_ids() {
    let c = " 123\n".to_string();
    assert_eq!(marker_pid(Some(&c)), Some(123));
    let c = "abc".to_string();
    assert_eq!(marker_pid(Some(&c)), None);
    let c = "-5".to_string();
    assert_eq!(marker_pid(Some(&c)), None);
    let c = "0".to_string();
    assert_eq!(marker_pid(Some(&c)), None);
    assert_eq!(marker_pid(None), None);
}

#[test]
fn pid_marker_round_trips() {
    let content = pid_marker_content(4321);
    assert_eq!(content, "4321");
    assert_eq!(marker_pid(Some(&content)), Some(4321));
}

#[test]
fn parse_i32_accepts_the_type_range_exactly() {
    assert_eq!(parse_i32("2147483647"), Some(2147483647));
    assert_eq!(parse_i32("2147483648"), None);
    assert_eq!(parse_i32("-2147483648"), Some(-2147483648));
    assert_eq!(parse_i32("-2147483649"), None);
    assert_eq!(parse_i32("+42"), Some(42));
    assert_eq!(parse_i32(""), None);
    assert_eq!(parse_i32("12a"), None);
    assert_eq!(parse_i32("+"), None);
}
