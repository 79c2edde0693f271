use hbmon::proc::linux::{cmdline_from_raw, comm_of, rss_mb_from_pages};
use hbmon::cli::watch::{log_cap_bytes, output_keep_from};
use hbmon::metrics::cgroup::{cgroup_dir, parse_kv_u64, parse_io_stat, stats_from, trim_u64};
use hbmon::metrics::cpu::CpuTracker;
use hbmon::metrics::io::parse_io_content;
use hbmon::proc::linux::{cpu_jiffies, parse_stat, StatError};
use hbmon::proc::walk::DescendantWalk;

#[test]
fn kv_skips_lines_without_number() {
    assert_eq!(parse_kv_u64("oom_kill\noom_kill x\noom_kill 4\noom_kill 5\n", "oom_kill"), 4);
    assert_eq!(parse_kv_u64("", "k"), 0);
}

#[test]
fn io_stat_saturates_and_ignores_bad_values() {
    let s = "8:0 rbytes=18446744073709551615 wbytes=x\n8:1 rbytes=1 wbytes=+2\nrbytes=9\n";
    assert_eq!(parse_io_stat(s), (u64::MAX, 2));
}

#[test]
fn one_value_files() {
    assert_eq!(trim_u64(" 42\n"), 42);
    assert_eq!(trim_u64("max"), 0);
}

#[test]
fn stats_from_cgroup_files() {
    let st = stats_from(
        "usage_usec 10\n",
        "2048\n",
        "4096\n",
        "4294967297\n",
        "oom_kill 1\n",
        "8:0 rbytes=5 wbytes=6\n",
    );
    assert_eq!(st.cpu_usec, 10);
    assert_eq!(st.mem_bytes, 2048);
    assert_eq!(st.mem_peak, 4096);
    assert_eq!(st.pids, 1);
    assert_eq!(st.oom_kills, 1);
    assert_eq!((st.io_rbytes, st.io_wbytes), (5, 6));
}

#[test]
fn unified_cgroup_line_names_directory() {
    assert_eq!(
        cgroup_dir("12:cpu:/x\n0::/user.slice/build.scope\n"),
        Some("/sys/fs/cgroup/user.slice/build.scope".to_string())
    );
    assert_eq!(cgroup_dir("0::/\n"), Some("/sys/fs/cgroup/".to_string()));
    assert_eq!(cgroup_dir("1:name=systemd:/\n"), None);
}

#[test]
fn proc_io_last_value_wins() {
    let s = "rchar: 1\nread_bytes: 10\nwrite_bytes: 20\nread_bytes: 30\nwrite_bytes: x\n";
    assert_eq!(parse_io_content(s), (30, 0));
    assert_eq!(parse_io_content(""), (0, 0));
}

#[test]
fn stat_fields_after_last_paren() {
    let line = "42 (my (odd) cmd) S 7 42 42 0 -1 4194304 100 0 0 0 250 50 0 0 20 0 1 0 100 1000000 321 18446744073709551615";
    assert_eq!(parse_stat(line), Ok((7, 250, 50, 321)));
    assert_eq!(cpu_jiffies(line), Some(300));
    assert_eq!(parse_stat("no paren here"), Err(StatError::NoCommEnd));
    assert_eq!(parse_stat("1 (x) S 1 2"), Err(StatError::Short));
    assert_eq!(cpu_jiffies("1 (x) S"), None);
}

#[test]
fn cpu_tracker_keeps_previous_sample() {
    let mut t = CpuTracker::new();
    let (_, first) = t.record(7, 100);
    assert!(first.is_none());
    let (_, second) = t.record(7, 150);
    assert_eq!(second.map(|p| p.1), Some(100));
    t.record(8, 1);
    t.evict_gone(&[8]);
    let (_, again) = t.record(7, 200);
    assert!(again.is_none());
    let (_, eight) = t.record(8, 2);
    assert_eq!(eight.map(|p| p.1), Some(1));
}

fn walk(tree: &[(u32, Vec<u32>)], root: u32, max: usize) -> Vec<u32> {
    let mut w = DescendantWalk::new(root, max);
    while let Some(pid) = w.next() {
        let kids: Vec<u32> = tree.iter().find(|(p, _)| *p == pid).map(|(_, k)| k.clone()).unwrap_or_default();
        w.absorb(&kids);
    }
    w.finish()
}

#[test]
fn descendant_walk_dedups_and_caps() {
    let tree = vec![(1, vec![2, 3]), (3, vec![4, 1]), (4, vec![2])];
    assert_eq!(walk(&tree, 1, 1000), vec![1, 2, 3, 4]);
    assert_eq!(walk(&tree, 1, 2), vec![1, 2]);
    assert_eq!(walk(&tree, 1, 0), vec![1]);
    assert_eq!(walk(&tree, 9, 10), vec![9]);
}

#[test]
fn descendant_walk_is_breadth_first() {
    let tree = vec![(1, vec![2, 3]), (2, vec![4]), (3, vec![5])];
    assert_eq!(walk(&tree, 1, 100), vec![1, 2, 3, 4, 5]);
    assert_eq!(walk(&tree, 1, 4), vec![1, 2, 3, 4]);
    let chain = vec![(1, vec![2, 6]), (2, vec![3]), (3, vec![4]), (6, vec![7])];
    assert_eq!(walk(&chain, 1, 4), vec![1, 2, 6, 3]);
}

#[test]
fn rss_from_pages() {
    assert_eq!(rss_mb_from_pages(256, 4096), 1);
    assert_eq!(rss_mb_from_pages(255, 4096), 0);
    assert_eq!(rss_mb_from_pages(-5, 4096), 0);
}

#[test]
fn command_name_between_outer_parens() {
    assert_eq!(comm_of("1 (a (b) c) S 0"), Some("a (b) c".to_string()));
    assert_eq!(comm_of("1 () S"), Some(String::new()));
    assert_eq!(comm_of("no parens"), None);
    assert_eq!(comm_of(") then ("), None);
}

#[test]
fn cmdline_joins_nul_separated_arguments() {
    assert_eq!(cmdline_from_raw(b"make\0-j8\0\0all\0"), Some("make -j8 all".to_string()));
    assert_eq!(cmdline_from_raw(b""), None);
    assert_eq!(cmdline_from_raw(b"\0\0"), None);
    assert_eq!(cmdline_from_raw(b"a\xffb"), Some("a\u{fffd}b".to_string()));
}

#[test]
fn output_cap_rules() {
    assert_eq!(log_cap_bytes(Some(2)), Some(2 * 1024 * 1024));
    assert_eq!(log_cap_bytes(Some(u64::MAX)), Some(u64::MAX));
    assert_eq!(log_cap_bytes(None), None);
    assert_eq!(output_keep_from(10, 20), None);
    assert_eq!(output_keep_from(21, 20), Some(10));
}
