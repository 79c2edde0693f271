use hbmon::daemon::daemon::wait_match as loop_wait_match;
use hbmon::daemon::handler::wait_match;
use hbmon::health::State;

#[test]
fn daemon_default_wakes_only_on_terminal() {
    let empty: Vec<String> = vec![];
    assert_eq!(loop_wait_match(State::Done, &empty, false, false), Some("done".to_string()));
    assert_eq!(loop_wait_match(State::Running, &empty, false, false), None);
    assert_eq!(loop_wait_match(State::Running, &empty, true, true), None);
}

#[test]
fn daemon_dep_signal_wakes_early() {
    let u = vec!["dep_missing".to_string()];
    assert_eq!(loop_wait_match(State::Running, &u, true, false), Some("dep_missing".to_string()));
    assert_eq!(loop_wait_match(State::Running, &u, false, false), None);
}

#[test]
fn daemon_stall_and_oom_wake_early() {
    assert_eq!(
        loop_wait_match(State::Stalled, &["stall_suspect".to_string()], false, false),
        Some("stall_suspect".to_string())
    );
    assert_eq!(
        loop_wait_match(State::Running, &["oom_suspect".to_string()], false, true),
        Some("oom_suspect".to_string())
    );
}

#[test]
fn daemon_unknown_names_ignored_until_order_wins() {
    let u = vec!["nope".to_string(), "failed".to_string()];
    assert_eq!(loop_wait_match(State::Failed, &u, false, false), Some("failed".to_string()));
    assert_eq!(loop_wait_match(State::Running, &u, false, false), None);
}

#[test]
fn handler_default_wakes_only_on_terminal() {
    let empty: Vec<String> = vec![];
    assert_eq!(wait_match(State::Done, &empty, false, false), Some("done".to_string()));
    assert_eq!(wait_match(State::Running, &empty, false, false), None);
    assert_eq!(wait_match(State::Running, &empty, true, true), None);
}

#[test]
fn handler_dep_signal_wakes_early() {
    let u = vec!["dep_missing".to_string()];
    assert_eq!(wait_match(State::Running, &u, true, false), Some("dep_missing".to_string()));
    assert_eq!(wait_match(State::Running, &u, false, false), None);
}

#[test]
fn handler_stall_and_oom_wake_early() {
    assert_eq!(
        wait_match(State::Stalled, &["stall_suspect".to_string()], false, false),
        Some("stall_suspect".to_string())
    );
    assert_eq!(
        wait_match(State::Running, &["oom_suspect".to_string()], false, true),
        Some("oom_suspect".to_string())
    );
}

#[test]
fn handler_unknown_names_ignored_until_order_wins() {
    let u = vec!["nope".to_string(), "failed".to_string()];
    assert_eq!(wait_match(State::Failed, &u, false, false), Some("failed".to_string()));
    assert_eq!(wait_match(State::Running, &u, false, false), None);
}

#[test]
fn aliases_match_canonical_states() {
    assert_eq!(
        wait_match(State::Stalled, &["stalled".to_string()], false, false),
        Some("stalled".to_string())
    );
    assert_eq!(
        wait_match(State::OomKilled, &["oom_killed".to_string()], false, false),
        Some("oom_killed".to_string())
    );
}

#[test]
fn terminal_state_wakes_even_when_not_listed() {
    let u = vec!["stall_suspect".to_string()];
    assert_eq!(wait_match(State::Done, &u, false, false), Some("done".into()));
    assert_eq!(wait_match(State::Failed, &u, false, false), Some("failed".into()));
    assert_eq!(wait_match(State::DepMissing, &u, false, false), Some("dep_missing".into()));
    assert_eq!(wait_match(State::Timeout, &u, false, false), Some("timeout".into()));
    assert_eq!(wait_match(State::OomKilled, &u, false, false), Some("oom_suspect".into()));
}

#[test]
fn non_terminal_states_still_wait() {
    let u = vec!["done".to_string()];
    assert_eq!(wait_match(State::Running, &u, false, false), None);
    assert_eq!(wait_match(State::Stalled, &u, false, false), None);
    assert_eq!(
        wait_match(State::Stalled, &["stall_suspect".to_string()], false, false),
        Some("stall_suspect".to_string())
    );
}
