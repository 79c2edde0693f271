use hbmon::platform::detach::{filtered_argv, quote_arg};
use hbmon::platform::paths::newest_sock_among;
use hbmon::platform::signal::{parse_signal, signal_from_upper, Sig};
use hbmon::platform::winffi::{FileTime, JobBasicLimits, JOB_OBJECT_LIMIT_KILL_ON_JOB_CLOSE};
use hbmon::platform::paths::sock_display;

fn v(xs: &[&str]) -> Vec<String> {
    xs.iter().map(|s| s.to_string()).collect()
}

#[test]
fn signal_numbers_round_trip() {
    for s in [Sig::Term, Sig::Kill, Sig::Int, Sig::Hup] {
        assert_eq!(Sig::from_num(s.to_num() as i64), s);
    }
    assert_eq!(Sig::Term.to_num(), 15);
    assert_eq!(Sig::Kill.to_num(), 9);
    assert_eq!(Sig::from_num(42), Sig::Term);
}

#[test]
fn parse_signal_accepts_names_numbers_and_prefix() {
    assert_eq!(parse_signal("TERM"), Ok(Sig::Term));
    assert_eq!(parse_signal("sigkill"), Ok(Sig::Kill));
    assert_eq!(parse_signal("SigInt"), Ok(Sig::Int));
    assert_eq!(parse_signal("1"), Ok(Sig::Hup));
    assert_eq!(parse_signal("SIG9"), Ok(Sig::Kill));
    assert_eq!(parse_signal("usr1"), Err("unknown signal: usr1".to_string()));
    assert_eq!(parse_signal(""), Err("unknown signal: ".to_string()));
}

#[test]
fn parse_signal_uses_unicode_upper_case() {
    // Dotless i upper-cases to an ASCII I.
    assert_eq!(parse_signal("\u{131}nt"), Ok(Sig::Int));
}

#[test]
fn signal_from_upper_names_the_given_text() {
    assert_eq!(signal_from_upper("HUP", "hup"), Ok(Sig::Hup));
    assert_eq!(signal_from_upper("STOP", "stop"), Err("unknown signal: stop".to_string()));
}

#[test]
fn quoting_follows_msvc_rules() {
    assert_eq!(quote_arg(""), "\"\"");
    assert_eq!(quote_arg("plain"), "plain");
    assert_eq!(quote_arg("a\\b"), "a\\b");
    assert_eq!(quote_arg("a b"), "\"a b\"");
    assert_eq!(quote_arg("say \"hi\""), "\"say \\\"hi\\\"\"");
    assert_eq!(quote_arg("dir\\ x\\"), "\"dir\\ x\\\\\"");
    assert_eq!(quote_arg("a\\\"b c"), "\"a\\\\\\\"b c\"");
}

#[test]
fn detach_flag_dropped_once_before_double_dash() {
    assert_eq!(filtered_argv(&v(&["watch", "--detach", "--", "make"])), v(&["watch", "--", "make"]));
    assert_eq!(
        filtered_argv(&v(&["watch", "--detach=true", "--detach", "--", "x"])),
        v(&["watch", "--detach", "--", "x"])
    );
    assert_eq!(
        filtered_argv(&v(&["watch", "--", "tool", "--detach"])),
        v(&["watch", "--", "tool", "--detach"])
    );
    assert_eq!(filtered_argv(&v(&[])), v(&[]));
}

#[test]
fn filetime_joins_halves() {
    let t = FileTime { low: 0x89ab_cdef, high: 0x0123_4567 };
    assert_eq!(t.as_u64(), 0x0123_4567_89ab_cdef);
    assert_eq!(FileTime { low: u32::MAX, high: u32::MAX }.as_u64(), u64::MAX);
}

#[test]
fn job_limits_kill_on_close_only() {
    let l = JobBasicLimits::kill_on_close();
    assert_eq!(l.limit_flags, JOB_OBJECT_LIMIT_KILL_ON_JOB_CLOSE);
    assert_eq!(l.limit_flags, 0x2000);
    assert_eq!(l.active_process_limit, 0);
}

#[test]
fn newest_socket_wins_first_on_ties() {
    let es = vec![
        ("hbmon-a.sock".to_string(), "/tmp/hbmon-a.sock".to_string(), Some(5i128)),
        ("hbmon-b.jsonl".to_string(), "/tmp/hbmon-b.jsonl".to_string(), Some(99i128)),
        ("hbmon-c.sock".to_string(), "/tmp/hbmon-c.sock".to_string(), Some(7i128)),
        ("hbmon-d.sock".to_string(), "/tmp/hbmon-d.sock".to_string(), Some(7i128)),
        ("hbmon-e.sock".to_string(), "/tmp/hbmon-e.sock".to_string(), None),
        ("other.sock".to_string(), "/tmp/other.sock".to_string(), Some(100i128)),
    ];
    let a = newest_sock_among(&es).unwrap();
    assert_eq!(sock_display(&a), "/tmp/hbmon-c.sock");
    assert!(newest_sock_among(&es[4..]).is_none());
}
