use hbmon::daemon::daemon::{Monitor, MonitorConfig};
use hbmon::health::State;

#[test]
fn monitor_starts_running_and_clean() {
    let m = Monitor::new(4);
    assert_eq!(m.state, State::Running);
    assert!(!m.dep_found && !m.oom_hit);
    assert_eq!(m.oom_base, 4);
}

#[test]
fn observe_reports_io_growth_and_new_children() {
    let mut m = Monitor::new(0);
    let a = m.observe(100, 2, false);
    assert_eq!(a.io_delta, 100);
    assert!(a.new_child && a.active);
    let b = m.observe(100, 2, false);
    assert_eq!(b.io_delta, 0);
    assert!(!b.new_child && !b.active);
    let c = m.observe(40, 1, true);
    assert_eq!(c.io_delta, 0);
    assert!(!c.new_child && c.active);
    assert_eq!(m.prev_io, 40);
    assert_eq!(m.prev_count, 1);
}

#[test]
fn stall_edges_move_state() {
    let mut m = Monitor::new(0);
    m.stall_edges(true, false);
    assert_eq!(m.state, State::Stalled);
    m.stall_edges(false, false);
    assert_eq!(m.state, State::Stalled);
    m.stall_edges(false, true);
    assert_eq!(m.state, State::Running);
}

#[test]
fn cgroup_oom_counts_only_new_kills() {
    let mut m = Monitor::new(2);
    assert!(!m.cgroup_oom(2, true));
    assert!(!m.oom_hit);
    assert!(m.cgroup_oom(3, true));
    assert!(m.oom_hit);
    assert_eq!(m.oom_base, 3);
    assert_eq!(m.state, State::Running);
    assert!(m.cgroup_oom(5, false));
    assert_eq!(m.state, State::OomKilled);
}

#[test]
fn finish_priorities() {
    let mut m = Monitor::new(0);
    assert_eq!(m.finish(false, None, true), None);
    assert_eq!(m.state, State::Running);
    assert_eq!(Monitor::new(0).finish(true, Some(0), true), Some((State::Timeout, 124)));
    assert_eq!(Monitor::new(0).finish(false, Some(0), true), Some((State::Done, 0)));
    assert_eq!(Monitor::new(0).finish(false, Some(7), true), Some((State::Failed, 1)));
    assert_eq!(Monitor::new(0).finish(false, None, false), Some((State::Failed, 3)));
    let mut d = Monitor::new(0);
    d.dep_seen();
    d.kernel_oom();
    assert_eq!(d.finish(false, Some(0), false), Some((State::DepMissing, 2)));
    assert_eq!(d.state, State::DepMissing);
    let mut o = Monitor::new(0);
    o.kernel_oom();
    assert_eq!(o.state, State::OomKilled);
    assert_eq!(o.finish(false, Some(0), true), Some((State::OomKilled, 137)));
}

#[test]
fn outcome_codes_match_state_codes() {
    for (t, e, a) in [(true, None, true), (false, Some(0), true), (false, Some(9), true)] {
        let (s, c) = Monitor::new(0).finish(t, e, a).unwrap();
        assert_eq!(s.exit_code(c), c);
    }
    let (s, c) = Monitor::new(0).finish(false, None, false).unwrap();
    assert_eq!((s, c), (State::Failed, 3));
}

#[test]
fn wants_dep_scan_until_found() {
    let mut m = Monitor::new(0);
    assert!(m.wants_dep_scan());
    m.dep_seen();
    assert!(!m.wants_dep_scan());
}

#[test]
fn config_defaults_follow_convention() {
    let c = MonitorConfig::new(
        "abc".to_string(),
        None,
        None,
        vec!["make".to_string()],
        Some(5),
        None,
        "/work".to_string(),
    );
    assert_eq!(c.sock, "/tmp/hbmon-abc.sock");
    assert_eq!(c.log, "/tmp/hbmon-abc.jsonl");
    assert_eq!(c.pidfile, "/tmp/hbmon-abc.pid");
    assert_eq!(c.out, "/tmp/hbmon-abc.out");
    assert_eq!(c.workdir, "/work");
    assert_eq!(c.timeout_sec, Some(5));
    let e = MonitorConfig::new(
        "abc".to_string(),
        Some("/x.sock".to_string()),
        Some("/y.jsonl".to_string()),
        vec![],
        None,
        Some("l".to_string()),
        "/".to_string(),
    );
    assert_eq!(e.sock, "/x.sock");
    assert_eq!(e.log, "/y.jsonl");
    assert_eq!(e.pidfile, "/tmp/hbmon-abc.pid");
    assert_eq!(e.label, Some("l".to_string()));
}
