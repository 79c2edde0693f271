use hbmon::health::State;
use hbmon::platform::paths::{default_log, default_out, default_pidfile, uuid_from_base};
use hbmon::util::time::{format_epoch_iso, now_iso};
use hbmon::util::uuid::{generate_uuid, validate_uuid};

const ALL: [State; 7] = [
    State::Running,
    State::Stalled,
    State::OomKilled,
    State::Done,
    State::Failed,
    State::DepMissing,
    State::Timeout,
];

#[test]
fn terminal_states_have_distinct_codes() {
    let terminal: Vec<State> = ALL.iter().copied().filter(|s| s.is_terminal()).collect();
    assert_eq!(terminal.len(), 5);
    let codes: Vec<i32> = terminal.iter().map(|s| s.exit_code(42)).collect();
    assert_eq!(codes, vec![137, 0, 1, 2, 124]);
}

#[test]
fn state_names_are_distinct() {
    for a in ALL {
        for b in ALL {
            assert_eq!(a == b, a.as_str() == b.as_str());
        }
    }
}

#[test]
fn artifact_names_give_back_their_uuid() {
    let u = "a3f9c1e27b4d90f2";
    for p in [default_log(u), default_pidfile(u), default_out(u)] {
        let base = p.rsplit('/').next().unwrap();
        assert_eq!(uuid_from_base(base), Some(u.to_string()));
    }
}

#[test]
fn distinct_days_give_distinct_dates() {
    let a = format_epoch_iso(0);
    let b = format_epoch_iso(86400);
    let c = format_epoch_iso(-86400 * 366);
    assert_ne!(a, b);
    assert_ne!(a, c);
    assert_eq!(&b[..10], "1970-01-02");
    assert_eq!(&c[..10], "1968-12-31");
    assert_eq!(format_epoch_iso(951782400), "2000-02-29T00:00:00Z");
    assert_eq!(format_epoch_iso(-2208988800), "1900-01-01T00:00:00Z");
}

#[test]
fn now_iso_has_timestamp_shape() {
    let t = now_iso();
    assert_eq!(t.len(), 20);
    assert!(t.ends_with('Z'));
    assert!(t.as_str() > "2020-01-01T00:00:00Z");
}

#[test]
fn generated_uuids_pass_the_check() {
    for _ in 0..20 {
        assert!(validate_uuid(&generate_uuid()).is_ok());
    }
}

#[test]
fn uuid_errors_quote_the_value() {
    assert_eq!(
        validate_uuid("a b"),
        Err("invalid --uuid (charset [A-Za-z0-9_-]): \"a b\"".to_string())
    );
    assert_eq!(validate_uuid(""), Err("invalid --uuid (len 1..=64): \"\"".to_string()));
}
