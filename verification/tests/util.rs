use hbmon::util::time::format_epoch_iso;
use hbmon::util::uuid::{generate_uuid, validate_uuid};

#[test]
fn epoch_zero_formats() {
    assert_eq!(format_epoch_iso(0), "1970-01-01T00:00:00Z");
}

#[test]
fn known_date_formats() {
    assert_eq!(format_epoch_iso(1788912000), "2026-09-09T00:00:00Z");
}

#[test]
fn leap_day_formats() {
    assert_eq!(format_epoch_iso(1582934400), "2020-02-29T00:00:00Z");
}

#[test]
fn pre_epoch_formats() {
    assert_eq!(format_epoch_iso(-1), "1969-12-31T23:59:59Z");
    assert_eq!(format_epoch_iso(-86400), "1969-12-31T00:00:00Z");
}

#[test]
fn end_of_day_formats() {
    assert_eq!(format_epoch_iso(86399), "1970-01-01T23:59:59Z");
}

#[test]
fn generated_is_16_hex() {
    let u = generate_uuid();
    assert_eq!(u.len(), 16);
    assert!(u.bytes().all(|b| b.is_ascii_hexdigit()));
    assert_ne!(generate_uuid(), u);
}

#[test]
fn validate_accepts_known_shapes() {
    for ok in [
        "a3f9c1e2",
        &generate_uuid(),
        "itest-123-456789789-compact",
        "a-B_9",
    ] {
        assert!(validate_uuid(ok).is_ok(), "{ok}");
    }
}

#[test]
fn validate_rejects_path_escape() {
    for bad in ["", "../evil", "a/b", "a\\b", ".", "..", "a b", "ğ", &"x".repeat(65)] {
        assert!(validate_uuid(bad).is_err(), "{bad:?}");
    }
}
