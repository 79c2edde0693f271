use hbmon::health::dep_missing::{dep_match_from, dep_pattern_at, scan_tail_for_dep, clip_line, match_line};
use hbmon::health::oom::{extract_pid, scan_kernel_log};
use hbmon::health::timeout::{deadline_passed, TimeoutWatchdog};
use hbmon::health::{map_build_exit, State};
use std::collections::HashSet;

#[test]
fn every_pattern_row_recognises_its_message() {
    let cases = [
        ("bash: foo: command not found", "cmd_not_found", "dep_missing:command"),
        ("cat: x: No such file or directory", "no_such_file", "dep_missing:path"),
        ("Error: Cannot find module \"left-pad\"", "npm_module", "dep_missing:npm"),
        ("ModuleNotFoundError: No module named numpy", "py_module", "dep_missing:pymod"),
        ("error: failed to parse manifest at `/x/Cargo.toml`", "cargo_manifest", "dep_missing:crates"),
        ("error: package ID specification `foo` did not match; it lacked", "cabal_pkg", "dep_missing:cabal"),
        ("x.c:1:10: fatal error: zlib.h: No such file", "c_header", "dep_missing:header"),
        ("Could not find libssl in /usr/lib", "ld_lib", "dep_missing:lib"),
        ("Package openssl was not found in the pkg-config search path", "pkg_config", "dep_missing:pkg"),
        ("error: linking with cc failed: exit status: 1", "link_fail", "dep_missing:link"),
    ];
    for (line, id, cat) in cases {
        let m = match_line(line).unwrap();
        assert_eq!(m.pattern_id, id, "{line}");
        assert_eq!(m.category, cat);
        assert_eq!(m.match_text, line);
    }
}

#[test]
fn command_not_found_ignores_case() {
    assert_eq!(match_line("sh: COMMAND NOT FOUND").unwrap().pattern_id, "cmd_not_found");
}

#[test]
fn first_matching_row_wins() {
    // Both "command not found" and "No such file or directory" occur.
    let m = match_line("No such file or directory; command not found").unwrap();
    assert_eq!(m.pattern_id, "cmd_not_found");
}

#[test]
fn verdicts_pick_first_true_row() {
    let mut v = vec![Some(false); 10];
    assert!(dep_match_from(&v, "t".to_string()).is_none());
    v[7] = Some(true);
    v[3] = None;
    v[9] = Some(true);
    let m = dep_match_from(&v, "t".to_string()).unwrap();
    assert_eq!(m.pattern_id, "ld_lib");
    assert_eq!(m.category, "dep_missing:lib");
    assert_eq!(m.match_text, "t");
}

#[test]
fn pattern_table_rows() {
    assert_eq!(dep_pattern_at(0).0, "cmd_not_found");
    assert_eq!(dep_pattern_at(9).1, "dep_missing:link");
}

#[test]
fn clip_keeps_300_chars() {
    let long: String = "é".repeat(400);
    assert_eq!(clip_line(&long).chars().count(), 300);
    assert_eq!(clip_line("short"), "short");
}

#[test]
fn tail_scan_takes_newest_hit_within_50_lines() {
    let mut lines: Vec<String> = Vec::new();
    lines.push("gcc: command not found".to_string());
    for _ in 0..60 {
        lines.push("ok".to_string());
    }
    assert!(scan_tail_for_dep(&lines).is_none());
    lines.push("Error: Cannot find module 'a'".to_string());
    lines.push("cc: x.c: No such file or directory".to_string());
    lines.push("done".to_string());
    let m = scan_tail_for_dep(&lines).unwrap();
    assert_eq!(m.pattern_id, "no_such_file");
}

#[test]
fn oom_pid_follows_process_word() {
    let l: Vec<char> = "Out of memory: Killed process 1234 (cc) total-vm".chars().collect();
    assert_eq!(extract_pid(&l), Some(1234));
    let l2: Vec<char> = "oom-kill: process (1234), pid".chars().collect();
    assert_eq!(extract_pid(&l2), Some(1234));
    let l3: Vec<char> = "process 0 then process x9y".chars().collect();
    assert_eq!(extract_pid(&l3), Some(9));
    let l4: Vec<char> = "Killed process".chars().collect();
    assert_eq!(extract_pid(&l4), None);
}

#[test]
fn kernel_log_scan_reports_watched_newest_first() {
    let text = "[1] Out of memory: Killed process 10 (cc)\n[2] unrelated process 11\n[3] oom-kill: process 12 (ld)\n[4] Killed process 99 (x)\n";
    let mut watched = HashSet::new();
    watched.insert(10u32);
    watched.insert(11u32);
    watched.insert(12u32);
    let hits = scan_kernel_log(text, &watched);
    assert_eq!(hits.len(), 2);
    assert_eq!(hits[0].pid, 12);
    assert_eq!(hits[1].pid, 10);
    assert_eq!(hits[1].text, "[1] Out of memory: Killed process 10 (cc)");
    assert!(scan_kernel_log("", &watched).is_empty());
}

#[test]
fn kernel_log_scan_reads_only_newest_200_lines() {
    let mut text = String::from("Killed process 5 (cc)\n");
    for _ in 0..200 {
        text.push_str("noise\n");
    }
    let mut watched = HashSet::new();
    watched.insert(5u32);
    assert!(scan_kernel_log(&text, &watched).is_empty());
}

#[test]
fn watchdog_limits() {
    let none = TimeoutWatchdog::new(None);
    assert!(!none.expired());
    assert_eq!(none.limit(), 0);
    let zero = TimeoutWatchdog::new(Some(0));
    assert!(zero.expired());
    let long = TimeoutWatchdog::new(Some(3600));
    assert!(!long.expired());
    assert_eq!(long.limit(), 3600);
    assert!(deadline_passed(5, 5));
    assert!(!deadline_passed(5, 4));
}

#[test]
fn raw_exit_mapping() {
    assert_eq!(map_build_exit(0), (State::Done, 0));
    assert_eq!(map_build_exit(-9), (State::Failed, 1));
    assert_eq!(State::Timeout.exit_code(5), 124);
    assert_eq!(State::Running.exit_code(5), 5);
    assert_eq!(State::OomKilled.as_str(), "oom_killed");
}
