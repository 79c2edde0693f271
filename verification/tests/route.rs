use hbmon::cli::exec::ExecArgs;
use hbmon::cli::watch::WatchArgs;
use hbmon::daemon::daemon::MonitorConfig;
use hbmon::daemon::route::{kill_plan, kill_reported, plan_request, shutdown_signals, KillPlan, RequestPlan};
use hbmon::platform::paths::uuid_from_base;
use hbmon::platform::signal::Sig;

fn plan(op: Option<&str>) -> RequestPlan {
    plan_request(op.map(|s| s.to_string()), None, None, None, None, Vec::new(), None, None)
}

fn refused(code: &str, message: &str) -> RequestPlan {
    RequestPlan::Refuse { code: code.to_string(), message: message.to_string() }
}

#[test]
fn route_missing_or_unknown_op_is_refused() {
    assert_eq!(plan(None), refused("INVALID_REQUEST", "missing op"));
    assert_eq!(plan(Some("")), refused("INVALID_REQUEST", "missing op"));
    assert_eq!(plan(Some("reboot")), refused("UNKNOWN_OP", "unknown op: reboot"));
    assert_eq!(plan(Some("Status")), refused("UNKNOWN_OP", "unknown op: Status"));
}

#[test]
fn route_defaults_fill_in() {
    assert_eq!(plan(Some("status")), RequestPlan::Status { compact: false });
    assert_eq!(plan(Some("metrics")), RequestPlan::Metrics);
    assert_eq!(plan(Some("log_tail")), RequestPlan::LogTail { n: 20, event: None });
    assert_eq!(plan(Some("wait")), RequestPlan::Wait { poll_ms: 500, until: Vec::new() });
    assert_eq!(plan(Some("kill")), RequestPlan::Kill { signal: Sig::Term });
    assert_eq!(plan(Some("shutdown")), RequestPlan::Shutdown { force: false });
}

#[test]
fn route_carries_given_fields() {
    let op = || Some("status".to_string());
    assert_eq!(
        plan_request(op(), Some(true), None, None, None, Vec::new(), None, None),
        RequestPlan::Status { compact: true }
    );
    assert_eq!(
        plan_request(Some("log_tail".to_string()), None, Some(5), Some("exit".to_string()), None, Vec::new(), None, None),
        RequestPlan::LogTail { n: 5, event: Some("exit".to_string()) }
    );
    assert_eq!(
        plan_request(Some("kill".to_string()), None, None, None, None, Vec::new(), Some(9), None),
        RequestPlan::Kill { signal: Sig::Kill }
    );
    assert_eq!(
        plan_request(Some("kill".to_string()), None, None, None, None, Vec::new(), Some(77), None),
        RequestPlan::Kill { signal: Sig::Term }
    );
    assert_eq!(
        plan_request(Some("shutdown".to_string()), None, None, None, None, Vec::new(), None, Some(true)),
        RequestPlan::Shutdown { force: true }
    );
}

#[test]
fn route_wait_poll_floor_and_until() {
    let until = vec!["done".to_string(), "stalled".to_string()];
    assert_eq!(
        plan_request(Some("wait".to_string()), None, None, None, Some(10), until.clone(), None, None),
        RequestPlan::Wait { poll_ms: 50, until: until.clone() }
    );
    assert_eq!(
        plan_request(Some("wait".to_string()), None, None, None, Some(750), until.clone(), None, None),
        RequestPlan::Wait { poll_ms: 750, until }
    );
    let bad = vec!["done".to_string(), "finished".to_string(), "nope".to_string()];
    assert_eq!(
        plan_request(Some("wait".to_string()), None, None, None, None, bad, None, None),
        refused(
            "INVALID_UNTIL",
            "unknown until signal: finished (valid: done,failed,dep_missing,timeout,stall_suspect,oom_suspect)"
        )
    );
}

#[test]
fn kill_decision_by_root_and_liveness() {
    assert_eq!(kill_plan(None, true), KillPlan::NotFound);
    assert_eq!(kill_plan(Some(0), true), KillPlan::NotFound);
    assert_eq!(kill_plan(Some(42), true), KillPlan::Signal(42));
    assert_eq!(kill_plan(Some(42), false), KillPlan::AlreadyDead);
    assert!(kill_reported(KillPlan::Signal(42)));
    assert!(!kill_reported(KillPlan::AlreadyDead));
    assert!(!kill_reported(KillPlan::NotFound));
}

#[test]
fn shutdown_sends_term_then_kill_when_forced() {
    assert_eq!(shutdown_signals(None, true), Vec::<Sig>::new());
    assert_eq!(shutdown_signals(Some(0), true), Vec::<Sig>::new());
    assert_eq!(shutdown_signals(Some(7), false), vec![Sig::Term]);
    assert_eq!(shutdown_signals(Some(7), true), vec![Sig::Term, Sig::Kill]);
}

#[test]
fn empty_command_is_refused() {
    let cfg = |cmd: Vec<String>| {
        MonitorConfig::new("u1".to_string(), None, None, cmd, None, None, "/".to_string())
    };
    assert_eq!(cfg(Vec::new()).check_command(), Err("no command to watch".to_string()));
    assert_eq!(cfg(vec!["make".to_string()]).check_command(), Ok(()));
    let e = ExecArgs { timeout_sec: None, format: "human".to_string(), cmd: Vec::new() };
    assert_eq!(e.check_command(), Err("usage: hbmon exec -- <cmd> [args...]".to_string()));
    let e = ExecArgs { timeout_sec: None, format: "human".to_string(), cmd: vec!["true".to_string()] };
    assert_eq!(e.check_command(), Ok(()));
    let w = WatchArgs {
        uuid: None,
        sock: None,
        log: None,
        pid: None,
        detach: false,
        timeout_sec: None,
        label: None,
        max_log_mb: None,
        cmd: Vec::new(),
    };
    assert_eq!(w.check_command(), Err("usage: hbmon watch [--detach] -- <cmd> [args...]".to_string()));
}

#[test]
fn artifact_in_any_directory_gives_uuid() {
    let u = Some("ab_9-Z".to_string());
    for dir in ["", "/", "/var/run/", "rel/dir/", r"C:\Temp\", r"C:\x/y\", r"a\b/"] {
        for ext in ["", ".sock", ".jsonl", ".pid", ".out"] {
            assert_eq!(uuid_from_base(&format!("{dir}hbmon-ab_9-Z{ext}")), u, "{dir} {ext}");
        }
    }
}
