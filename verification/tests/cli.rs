use hbmon::cli::events::{exit_code_of, match_filter, parse_filter, StreamPos};
use hbmon::cli::list::keep;
use hbmon::cli::{live_probe_addr, sweep_decision};
use hbmon::platform::paths::uuid_from_base;

fn live_set(names: &[&str]) -> Vec<String> {
    names.iter().map(|s| s.to_string()).collect()
}

#[test]
fn filter_parses_csv_and_empty_is_none() {
    assert_eq!(parse_filter(None), None);
    assert_eq!(parse_filter(Some("")), None);
    assert_eq!(parse_filter(Some("  ")), None);
    let f = parse_filter(Some("exit, dep_missing")).unwrap();
    assert!(f.iter().any(|x| x == "exit") && f.iter().any(|x| x == "dep_missing"));
}

#[test]
fn filter_matches_ev_and_keeps_broken_lines() {
    let f = parse_filter(Some("exit"));
    assert!(match_filter(r#"{"v":1,"ev":"exit","code":0}"#, &f));
    assert!(!match_filter(r#"{"v":1,"ev":"metric"}"#, &f));
    assert!(match_filter("bozuk satır", &f));
    assert!(match_filter(r#"{"v":1,"ev":"metric"}"#, &None));
}

#[test]
fn stream_resumes_after_last_seen() {
    let mut pos = StreamPos::default();
    let none: [String; 0] = [];
    assert_eq!(pos.advance(&none), 0);
    let lines = vec!["a".to_string(), "b".to_string()];
    assert_eq!(pos.advance(&lines), 0);
    assert_eq!(pos.advance(&lines), 2);
    let grown = vec!["a".to_string(), "b".to_string(), "c".to_string()];
    assert_eq!(pos.advance(&grown), 2);
    assert_eq!(pos.advance(&["zzz".to_string()]), 0);
}

#[test]
fn stream_keeps_adjacent_duplicates() {
    let mut pos = StreamPos::default();
    pos.advance(&["a".to_string(), "L".to_string()]);
    let tail = vec!["a".to_string(), "L".to_string(), "L".to_string()];
    assert_eq!(pos.advance(&tail), 2);
    let tail3 = vec!["L".to_string(), "L".to_string(), "L".to_string()];
    assert_eq!(pos.advance(&tail3), 2);
    assert_eq!(pos.advance(&tail3), 3);
}

#[test]
fn exit_line_yields_code_others_none() {
    assert_eq!(exit_code_of(r#"{"v":1,"ev":"exit","code":2}"#), Some(2));
    assert_eq!(exit_code_of(r#"{"v":1,"ev":"metric"}"#), None);
    assert_eq!(exit_code_of("bozuk"), None);
}

#[test]
fn exit_line_with_or_without_summary_yields_code() {
    assert_eq!(
        exit_code_of(r#"{"v":1,"ev":"exit","code":0,"summary":"tail…"}"#),
        Some(0)
    );
    assert_eq!(
        exit_code_of(r#"{"v":1,"ev":"exit","uuid":"u","pid":1,"code":1,"state":"failed"}"#),
        Some(1)
    );
}

#[test]
fn list_uuid_from_artifact_names() {
    assert_eq!(uuid_from_base("hbmon-a3f9c1e2.sock"), Some("a3f9c1e2".to_string()));
    assert_eq!(uuid_from_base("hbmon-a3f9c1e2.jsonl"), Some("a3f9c1e2".to_string()));
    assert_eq!(uuid_from_base(r"\\.\pipe\hbmon-a3f9c1e2"), Some("a3f9c1e2".to_string()));
    assert_eq!(uuid_from_base("hbmon-.sock"), None);
    assert_eq!(uuid_from_base("other-a3f9c1e2.sock"), None);
}

#[test]
fn keep_filters_state_and_liveness() {
    let running = Some("running".to_string());
    let null: Option<String> = None;
    assert!(keep(true, &running, &None, false));
    assert!(keep(false, &null, &None, false));
    assert!(keep(true, &running, &Some("running".into()), false));
    assert!(!keep(true, &running, &Some("done".into()), false));
    assert!(!keep(false, &null, &Some("running".into()), false));
    assert!(keep(true, &running, &None, true));
    assert!(!keep(false, &null, &None, true));
    assert!(keep(true, &running, &Some("running".into()), true));
}

#[test]
fn live_family_protected_despite_age() {
    let live = live_set(&["abc123"]);
    assert!(!sweep_decision("hbmon-abc123.sock", &live));
    assert!(!sweep_decision("hbmon-abc123.jsonl", &live));
    assert!(!sweep_decision("hbmon-abc123.out", &live));
    assert!(!sweep_decision("hbmon-abc123.pid", &live));
}

#[test]
fn dead_files_not_protected() {
    let live = live_set(&["abc123"]);
    assert!(sweep_decision("hbmon-dead-x.sock", &live));
    assert!(sweep_decision("hbmon-dead-x.jsonl", &live));
}

#[test]
fn empty_live_set_sweeps_all() {
    let live = live_set(&[]);
    assert!(sweep_decision("hbmon-abc123.sock", &live));
}

#[test]
fn live_probe_addr_platform_rules() {
    assert!(live_probe_addr("abc123", "hbmon-abc123.sock").is_some());
    assert!(live_probe_addr("abc123", "hbmon-abc123.jsonl").is_none());
}
