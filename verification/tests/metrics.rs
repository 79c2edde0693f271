use hbmon::metrics::cgroup::{parse_cpu_stat, parse_io_stat, parse_kv_u64};

#[test]
fn cpu_stat_usage() {
    let s = "usage_usec 123456\nuser_usec 100000\nsystem_usec 23456\n";
    assert_eq!(parse_cpu_stat(s), 123456);
}

#[test]
fn memory_events_oom() {
    let s = "low 0\nhigh 5\nmax 1\noom 0\noom_kill 3\n";
    assert_eq!(parse_kv_u64(s, "oom_kill"), 3);
    assert_eq!(parse_kv_u64(s, "nope"), 0);
}

#[test]
fn io_stat_sums_devices() {
    let s = "8:0 rbytes=100 wbytes=200 rios=1 wios=2\n8:16 rbytes=50 wbytes=25 rios=0 wios=0\n";
    assert_eq!(parse_io_stat(s), (150, 225));
}
