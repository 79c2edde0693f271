use hbmon::platform::paths::{
    default_log, default_out, default_pidfile, default_sock, from_env, from_explicit,
    from_explicit_windows, sock_display, uuid_from_base,
};

#[test]
fn paths_uuid_from_artifact_names() {
    assert_eq!(uuid_from_base("hbmon-a3f9c1e2.sock"), Some("a3f9c1e2".to_string()));
    assert_eq!(uuid_from_base("hbmon-a3f9c1e2.jsonl"), Some("a3f9c1e2".to_string()));
    assert_eq!(uuid_from_base(r"\\.\pipe\hbmon-a3f9c1e2"), Some("a3f9c1e2".to_string()));
    assert_eq!(uuid_from_base("hbmon-.sock"), None);
    assert_eq!(uuid_from_base("other-a3f9c1e2.sock"), None);
    assert_eq!(uuid_from_base("hbmon-"), None);
}

#[test]
fn default_addrs_match_convention() {
    let s = default_sock("a3f9c1e2");
    assert_eq!(sock_display(&s), "/tmp/hbmon-a3f9c1e2.sock");
    assert!(default_log("a3f9c1e2").ends_with("hbmon-a3f9c1e2.jsonl"));
    assert!(default_pidfile("a3f9c1e2").ends_with("hbmon-a3f9c1e2.pid"));
    assert!(default_out("a3f9c1e2").ends_with("hbmon-a3f9c1e2.out"));
}

#[test]
fn env_value_maps_to_sock() {
    let s = from_env("/tmp/hbmon-x.sock");
    assert_eq!(sock_display(&s), "/tmp/hbmon-x.sock");
}

#[test]
fn explicit_windows_forms_recover_uuid() {
    assert_eq!(from_explicit_windows(r"\\.\pipe\hbmon-abc"), r"\\.\pipe\hbmon-abc");
    assert_eq!(from_explicit_windows("/tmp/hbmon-abc.sock"), r"\\.\pipe\hbmon-abc");
    assert_eq!(from_explicit_windows("hbmon-abc"), r"\\.\pipe\hbmon-abc");
}

#[test]
fn explicit_unix_is_identity() {
    let p = "/tmp/hbmon-abc.sock";
    assert_eq!(sock_display(&from_explicit(p)), p);
}
