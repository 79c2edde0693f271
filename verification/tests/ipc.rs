use hbmon::ipc::protocol::{validate_until, IPC_OPS};

#[test]
fn ipc_ops_locked() {
    assert_eq!(IPC_OPS, ["status", "metrics", "log_tail", "wait", "kill", "shutdown"]);
}

#[test]
fn validate_until_accepts_canonical_and_aliases() {
    let ok = [
        "done",
        "failed",
        "dep_missing",
        "timeout",
        "stall_suspect",
        "oom_suspect",
        "stalled",
        "oom_killed",
    ]
    .iter()
    .map(|s| s.to_string())
    .collect::<Vec<_>>();
    assert_eq!(validate_until(&ok), None);
    assert_eq!(validate_until(&[]), None);
}

#[test]
fn validate_until_rejects_unknown_first() {
    let u = ["done".to_string(), "bogus".to_string()];
    assert_eq!(validate_until(&u), Some("bogus".to_string()));
}
