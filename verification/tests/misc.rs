use hbmon::cli::exec::{clip_scan_line, exec_deadline, exec_outcome};
use hbmon::cli::wait::wait_exit_code;
use hbmon::cli::{live_candidates, resolve_sock};
use hbmon::cli::events::terminal_code;
use hbmon::eventlog::{event_needle, first_window, rotation_drop, tail_step, validate_tmp_path, TailStep};
use hbmon::health::State;
use hbmon::platform::paths::{from_explicit, sock_display};

#[test]
fn long_lines_cut_at_char_boundary() {
    assert_eq!(clip_scan_line("short"), "short");
    let exact = "a".repeat(65536);
    assert_eq!(clip_scan_line(&exact), exact);
    let over = format!("{}{}", "a".repeat(65535), "é");
    let cut = clip_scan_line(&over);
    assert_eq!(cut, format!("{}…", "a".repeat(65535)));
}

#[test]
fn exec_summary_codes() {
    assert_eq!(exec_outcome(true, true, 0), (State::Timeout, 124));
    assert_eq!(exec_outcome(false, true, 0), (State::DepMissing, 2));
    assert_eq!(exec_outcome(false, false, 0), (State::Done, 0));
    assert_eq!(exec_outcome(false, false, 3), (State::Failed, 1));
    assert_eq!(exec_deadline(Some(0)), None);
    assert_eq!(exec_deadline(Some(4)), Some(4));
    assert_eq!(exec_deadline(None), None);
}

#[test]
fn wait_codes() {
    assert_eq!(wait_exit_code(true, Some(0)), 124);
    assert_eq!(wait_exit_code(false, Some(2)), 2);
    assert_eq!(wait_exit_code(false, None), 1);
    assert_eq!(wait_exit_code(false, Some(4294967298)), 2);
}

#[test]
fn terminal_reply_codes() {
    assert_eq!(terminal_code(true, "done", Some(0)), Some(0));
    assert_eq!(terminal_code(true, "running", Some(0)), None);
    assert_eq!(terminal_code(false, "done", Some(0)), None);
    assert_eq!(terminal_code(true, "oom_killed", None), Some(1));
}

#[test]
fn socket_resolution_order() {
    let newest = Some(from_explicit("/tmp/hbmon-n.sock"));
    let a = resolve_sock(Some("/a.sock".to_string()), Some("/e.sock".to_string()), None).unwrap();
    assert_eq!(sock_display(&a), "/a.sock");
    let e = resolve_sock(None, Some("/e.sock".to_string()), None).unwrap();
    assert_eq!(sock_display(&e), "/e.sock");
    let n = resolve_sock(None, Some(String::new()), newest).unwrap();
    assert_eq!(sock_display(&n), "/tmp/hbmon-n.sock");
    assert_eq!(
        resolve_sock(None, None, None).err(),
        Some("no monitor found: pass --sock or set HBMON_SOCK".to_string())
    );
}

#[test]
fn probe_candidates_in_entry_order() {
    let es = vec![
        ("hbmon-a.sock".to_string(), "/tmp/hbmon-a.sock".to_string()),
        ("hbmon-a.jsonl".to_string(), "/tmp/hbmon-a.jsonl".to_string()),
        ("junk.sock".to_string(), "/tmp/junk.sock".to_string()),
        ("hbmon-b.sock".to_string(), "/tmp/hbmon-b.sock".to_string()),
    ];
    let c = live_candidates(&es);
    assert_eq!(c.len(), 2);
    assert_eq!(c[0].0, "a");
    assert_eq!(sock_display(&c[1].1), "/tmp/hbmon-b.sock");
}

#[test]
fn tail_window_growth() {
    assert_eq!(first_window(10), 10);
    assert_eq!(first_window(1 << 30), 65536);
    assert_eq!(tail_step(100, 100, 0, 5), TailStep::Done);
    assert_eq!(tail_step(1 << 30, 65536, 5, 5), TailStep::Done);
    assert_eq!(tail_step(1 << 30, 65536, 1, 5), TailStep::Grow(262144));
    assert_eq!(tail_step(100000, 65536, 1, 5), TailStep::Grow(100000));
    assert_eq!(tail_step(1 << 30, 4194304, 1, 5), TailStep::Scan);
    assert_eq!(rotation_drop(25), 3);
}

#[test]
fn needle_and_path_rules() {
    assert_eq!(event_needle("exit"), "\"ev\":\"exit\"");
    assert!(validate_tmp_path("/tmp/hbmon-a.jsonl").is_ok());
    assert_eq!(
        validate_tmp_path("/tmp/../x"),
        Err("invalid path (parent dir): /tmp/../x".to_string())
    );
}
