//! UTC calendar arithmetic: epoch seconds to a proleptic Gregorian
//! `YYYY-MM-DDTHH:MM:SSZ` timestamp, valid for every `i64`, before 1970 too.
use vstd::prelude::*;

verus! {

pub open spec fn is_leap(y: int) -> bool {
    y % 4 == 0 && (y % 100 != 0 || y % 400 == 0)
}

pub open spec fn days_in_month(y: int, m: int) -> int {
    if m == 2 {
        if is_leap(y) {
            29
        } else {
            28
        }
    } else if m == 4 || m == 6 || m == 9 || m == 11 {
        30
    } else {
        31
    }
}

pub open spec fn valid_date(y: int, m: int, d: int) -> bool {
    1 <= m <= 12 && 1 <= d <= days_in_month(y, m)
}

/// Days from 1970-01-01 to the proleptic Gregorian date `y-m-d`: whole
/// 400-year eras, then years of the era counted from March (leap day last),
/// then days into that March-based year.
pub open spec fn days_from_civil(y: int, m: int, d: int) -> int {
    let yy = if m <= 2 { y - 1 } else { y };
    let era = yy / 400;
    let yoe = yy - era * 400;
    let mp = if m > 2 { m - 3 } else { m + 9 };
    let doy = (153 * mp + 2) / 5 + d - 1;
    let doe = yoe * 365 + yoe / 4 - yoe / 100 + doy;
    era * 146097 + doe - 719468
}

/// The calendar day after `y-m-d`.
pub open spec fn next_day(y: int, m: int, d: int) -> (int, int, int) {
    if d < days_in_month(y, m) {
        (y, m, d + 1)
    } else if m < 12 {
        (y, m + 1, 1)
    } else {
        (y + 1, 1, 1)
    }
}

/// The day count starts at 1970-01-01.
pub proof fn law_epoch_is_day_zero()
    ensures
        days_from_civil(1970, 1, 1) == 0,
{
}

/// Within a March-based year, consecutive months start `days_in_month` apart.
proof fn lemma_month_offsets(y: int, m: int)
    requires
        1 <= m <= 12,
        m != 2,
    ensures
        ({
            let mp = if m > 2 { m - 3 } else { m + 9 };
            (153 * (mp + 1) + 2) / 5 - (153 * mp + 2) / 5 == days_in_month(y, m)
        }),
{
    if m == 1 {
    } else if m == 3 {
    } else if m == 4 {
    } else if m == 5 {
    } else if m == 6 {
    } else if m == 7 {
    } else if m == 8 {
    } else if m == 9 {
    } else if m == 10 {
    } else if m == 11 {
    } else {
    }
}

/// Shifting a year by whole eras changes neither its leap status nor its
/// position in the era.
#[verifier::rlimit(40)]
pub(crate) proof fn lemma_era_shift(era: int, yoe: int)
    requires
        0 <= yoe < 400,
    ensures
        (era * 400 + yoe) / 400 == era,
        (era * 400 + yoe) % 400 == yoe,
        (era * 400 + yoe) % 100 == yoe % 100,
        (era * 400 + yoe) % 4 == yoe % 4,
        is_leap(era * 400 + yoe) == is_leap(yoe),
{
}

/// Days from March 1st of era-year `yoe` to March 1st of the next one.
proof fn lemma_year_of_era_length(yoe: int)
    requires
        0 <= yoe < 399,
    ensures
        (yoe + 1) * 365 + (yoe + 1) / 4 - (yoe + 1) / 100 == yoe * 365 + yoe / 4 - yoe / 100
            + 337 + days_in_month(yoe + 1, 2) - 1 + 1,
{
}

/// The last day of February is followed by March 1st.
proof fn lemma_feb_to_mar(y: int)
    ensures
        days_from_civil(y, 3, 1) == days_from_civil(y, 2, days_in_month(y, 2)) + 1,
{
    let yy = y - 1;
    let era = yy / 400;
    let yoe = yy - era * 400;
    assert(0 <= yoe < 400);
    let before = days_from_civil(y, 2, days_in_month(y, 2));
    let after = days_from_civil(y, 3, 1);
    assert(before == era * 146097 + yoe * 365 + yoe / 4 - yoe / 100 + 336 + days_in_month(y, 2)
        - 719468);
    if yoe == 399 {
        lemma_era_shift(era + 1, 0);
        assert(y == (era + 1) * 400 + 0);
        assert(after == (era + 1) * 146097 - 719468);
    } else {
        lemma_era_shift(era, yoe + 1);
        assert(y == era * 400 + (yoe + 1));
        assert(days_in_month(y, 2) == days_in_month(yoe + 1, 2));
        assert(after == era * 146097 + (yoe + 1) * 365 + (yoe + 1) / 4 - (yoe + 1) / 100
            - 719468);
        lemma_year_of_era_length(yoe);
    }
}

/// Consecutive calendar days have consecutive day counts.
pub proof fn law_next_day_counts_one(y: int, m: int, d: int)
    requires
        valid_date(y, m, d),
    ensures
        valid_date(next_day(y, m, d).0, next_day(y, m, d).1, next_day(y, m, d).2),
        days_from_civil(next_day(y, m, d).0, next_day(y, m, d).1, next_day(y, m, d).2)
            == days_from_civil(y, m, d) + 1,
{
    if d < days_in_month(y, m) {
    } else if m == 2 {
        lemma_feb_to_mar(y);
    } else {
        lemma_month_offsets(y, m);
    }
}

/// Splits a day of a 400-year era (counted from March 1st of its first year)
/// into the year of the era and the day of that March-based year.
fn split_day_of_era(doe: u64) -> (r: (u64, u64))
    requires
        doe < 146097,
    ensures
        r.0 < 400,
        r.1 <= 365,
        r.0 * 365 + r.0 / 4 - r.0 / 100 + r.1 == doe,
        r.1 == 365 ==> is_leap(r.0 + 1),
{
    let mut c = doe / 36524;
    if c > 3 {
        c = 3;
    }
    let r1 = doe - 36524 * c;
    let q = r1 / 1461;
    let r2 = r1 - 1461 * q;
    let mut y4 = r2 / 365;
    if y4 > 3 {
        y4 = 3;
    }
    let doy = r2 - 365 * y4;
    assert(c < 3 ==> r1 < 36524);
    assert(r1 <= 36524);
    assert(q <= 24);
    assert(q == 24 && c < 3 ==> r2 <= 1459);
    assert(r2 <= 1460);
    assert(y4 < 3 ==> doy < 365);
    let yoe = 100 * c + 4 * q + y4;
    assert(yoe / 4 == 25 * c + q);
    assert(yoe / 100 == c);
    proof {
        if doy == 365 {
            assert(y4 == 3 && r2 == 1460);
            assert(c == 3 || q < 24);
            assert((yoe + 1) % 4 == 0);
            if q == 24 {
                assert(yoe + 1 == 400);
            } else {
                assert((yoe + 1) % 100 != 0);
            }
        }
    }
    (yoe, doy)
}

/// Month and day of the day `doy` of a March-based year.
fn month_day(doy: u64) -> (r: (u64, u64))
    requires
        doy <= 365,
    ensures
        1 <= r.0 <= 12,
        ({
            let mp = if r.0 > 2 { r.0 - 3 } else { r.0 + 9 };
            (153 * mp + 2) / 5 + r.1 - 1 == doy
        }),
        1 <= r.1,
        r.0 != 2 ==> r.1 <= days_in_month(0, r.0 as int),
        r.0 == 2 ==> r.1 <= 28 || (r.1 == 29 && doy == 365),
{
    let mp = (5 * doy + 2) / 153;
    assert(mp <= 11);
    let start = (153 * mp + 2) / 5;
    assert(start <= doy);
    let d = doy - start + 1;
    let m = if mp < 10 { mp + 3 } else { mp - 9 };
    assert(d <= (153 * (mp + 1) + 2) / 5 - start);
    (m, d)
}

/// Proleptic Gregorian `(year, month, day)` of the day `z` days after 1970-01-01.
fn civil_from_days(z: i64) -> (r: (i64, u32, u32))
    requires
        -0x4_0000_0000_0000 <= z <= 0x4_0000_0000_0000,
    ensures
        valid_date(r.0 as int, r.1 as int, r.2 as int),
        days_from_civil(r.0 as int, r.1 as int, r.2 as int) == z,
        -0x4_0000_0000_0000 <= r.0 <= 0x4_0000_0000_0000,
{
    let zz: i64 = z + 719468;
    let era: i64 = match zz.checked_div_euclid(146097) {
        Some(e) => e,
        None => 0,
    };
    let doe_i: i64 = match zz.checked_rem_euclid(146097) {
        Some(r) => r,
        None => 0,
    };
    assert(era == zz / 146097 && doe_i == zz % 146097);
    let doe = doe_i as u64;
    let (yoe, doy) = split_day_of_era(doe);
    let (m, d) = month_day(doy);
    let base: i64 = era * 400 + yoe as i64;
    let y: i64 = if m <= 2 { base + 1 } else { base };
    proof {
        let yy = if m <= 2 { y - 1 } else { y as int };
        lemma_era_shift(era as int, yoe as int);
        assert(yy == era * 400 + yoe);
        assert(days_from_civil(y as int, m as int, d as int) == era * 146097 + doe - 719468);
        if m == 2 {
            assert(d <= 28 || (d == 29 && doy == 365));
            if d == 29 {
                assert(is_leap(yoe + 1));
                if yoe == 399 {
                    lemma_era_shift(era + 1, 0);
                    assert(y == (era + 1) * 400 + 0);
                } else {
                    lemma_era_shift(era as int, yoe + 1);
                }
            }
        }
    }
    (y, m as u32, d as u32)
}

/// The decimal digit character for `n < 10`.
pub open spec fn digit_char(n: nat) -> char {
    (48 + n) as char
}

/// Decimal digits of `n`, most significant first, without leading zeros.
pub open spec fn dec_digits(n: nat) -> Seq<char>
    decreases n,
{
    if n < 10 {
        seq![digit_char(n)]
    } else {
        dec_digits(n / 10).push(digit_char(n % 10))
    }
}

/// `s` preceded by enough `'0'`s to be at least `w` characters long.
pub open spec fn zero_pad(s: Seq<char>, w: int) -> Seq<char> {
    Seq::new(if w > s.len() { (w - s.len()) as nat } else { 0 }, |i: int| '0') + s
}

/// `format!("{:0w$}", v)`: sign-aware zero padding to width `w`.
pub open spec fn fmt_int(v: int, w: int) -> Seq<char> {
    if v < 0 {
        seq!['-'] + zero_pad(dec_digits((0 - v) as nat), w - 1)
    } else {
        zero_pad(dec_digits(v as nat), w)
    }
}

/// `YYYY-MM-DDTHH:MM:SSZ` for the date `y-m-d` and second `tod` of the day.
pub open spec fn iso_text(y: int, m: int, d: int, tod: int) -> Seq<char> {
    fmt_int(y, 4) + seq!['-'] + fmt_int(m, 2) + seq!['-'] + fmt_int(d, 2) + seq!['T'] + fmt_int(
        tod / 3600,
        2,
    ) + seq![':'] + fmt_int((tod % 3600) / 60, 2) + seq![':'] + fmt_int(tod % 60, 2) + seq!['Z']
}

/// The timestamp text of the epoch second `secs`: the date is the one whose
/// day count is `secs` divided (flooring) by 86400.
pub open spec fn is_iso_of(text: Seq<char>, secs: int) -> bool {
    exists|y: int, m: int, d: int|
        valid_date(y, m, d) && days_from_civil(y, m, d) == secs / 86400 && text == iso_text(
            y,
            m,
            d,
            secs % 86400,
        )
}

fn digit_of(n: u64) -> (c: char)
    requires
        n < 10,
    ensures
        c == digit_char(n as nat),
{
    ((n as u8) + 48u8) as char
}

fn push_dec(out: &mut Vec<char>, n: u64)
    ensures
        final(out)@ == old(out)@ + dec_digits(n as nat),
    decreases n,
{
    if n >= 10 {
        push_dec(out, n / 10);
    }
    let c = digit_of(n % 10);
    out.push(c);
    proof {
        if n >= 10 {
            assert(old(out)@ + dec_digits(n as nat) == old(out)@ + dec_digits((n / 10) as nat)
                + seq![c]);
        } else {
            assert(dec_digits(n as nat) == seq![c]);
        }
    }
}

/// Appends `format!("{:0w$}", v)`.
fn push_padded(out: &mut Vec<char>, v: i64, w: usize)
    requires
        1 <= w <= 8,
    ensures
        final(out)@ == old(out)@ + fmt_int(v as int, w as int),
{
    let mut digits: Vec<char> = Vec::new();
    let mag: u64 = if v < 0 { (0i128 - v as i128) as u64 } else { v as u64 };
    push_dec(&mut digits, mag);
    assert(digits@ == dec_digits(mag as nat));
    let width: usize = if v < 0 { w - 1 } else { w };
    if v < 0 {
        out.push('-');
    }
    let mut k: usize = digits.len();
    let ghost before = out@;
    while k < width
        invariant
            digits.len() <= k <= (if width > digits.len() { width } else { digits.len() as usize }),
            out@ == before + Seq::new((k - digits.len()) as nat, |i: int| '0'),
        decreases width - k,
    {
        out.push('0');
        k = k + 1;
        assert(out@ =~= before + Seq::new((k - digits.len()) as nat, |i: int| '0'));
    }
    let n = digits.len();
    push_chars_into(out, &digits);
    proof {
        let pad = Seq::new(if width > n { (width - n) as nat } else { 0 }, |i: int| '0');
        assert(Seq::new((k - n) as nat, |i: int| '0') =~= pad);
        if v < 0 {
            assert(old(out)@ + fmt_int(v as int, w as int) =~= old(out)@ + seq!['-'] + pad
                + digits@);
        } else {
            assert(old(out)@ + fmt_int(v as int, w as int) =~= old(out)@ + pad + digits@);
        }
    }
}

fn push_chars_into(out: &mut Vec<char>, v: &Vec<char>)
    ensures
        final(out)@ == old(out)@ + v@,
{
    crate::text::push_chars(out, v.as_slice());
}

/// ISO 8601 UTC text (`YYYY-MM-DDTHH:MM:SSZ`) of a Unix epoch second; years
/// before 1970 and past 9999 are rendered too.
pub fn format_epoch_iso(secs: i64) -> (r: String)
    ensures
        is_iso_of(r@, secs as int),
{
    let days: i64 = match secs.checked_div_euclid(86400) {
        Some(q) => q,
        None => 0,
    };
    let tod: i64 = match secs.checked_rem_euclid(86400) {
        Some(q) => q,
        None => 0,
    };
    assert(days == secs / 86400 && tod == secs % 86400);
    let (y, m, d) = civil_from_days(days);
    let mut out: Vec<char> = Vec::new();
    push_padded(&mut out, y, 4);
    out.push('-');
    push_padded(&mut out, m as i64, 2);
    out.push('-');
    push_padded(&mut out, d as i64, 2);
    out.push('T');
    push_padded(&mut out, tod / 3600, 2);
    out.push(':');
    push_padded(&mut out, (tod % 3600) / 60, 2);
    out.push(':');
    push_padded(&mut out, tod % 60, 2);
    out.push('Z');
    proof {
        assert(out@ =~= iso_text(y as int, m as int, d as int, tod as int));
    }
    crate::text::string_of(out.as_slice())
}

#[verifier::external_type_specification]
#[verifier::external_body]
pub struct ExSystemTime(std::time::SystemTime);

/// `SystemTime::now`. Nothing is claimed of the value: it is the time.
#[verifier::external_body]
fn system_now() -> std::time::SystemTime {
    std::time::SystemTime::now()
}

/// `SystemTime::duration_since` the Unix epoch: the time from the epoch to
/// `t`, `None` when `t` is earlier. Nothing is claimed of the value: `t`
/// is opaque here.
#[verifier::external_body]
fn since_epoch(t: &std::time::SystemTime) -> Option<std::time::Duration> {
    match t.duration_since(std::time::UNIX_EPOCH) {
        Ok(d) => Some(d),
        Err(_) => None,
    }
}

/// `Duration::as_secs`: the whole seconds of `d`. Nothing is claimed of the
/// value: a `Duration` is opaque here.
#[verifier::external_body]
pub(crate) fn duration_secs(d: &std::time::Duration) -> u64 {
    d.as_secs()
}

/// The current time as `YYYY-MM-DDTHH:MM:SSZ` (UTC).
pub fn now_iso() -> (r: String)
    ensures
        exists|secs: i64| is_iso_of(r@, secs as int),
{
    let secs: i64 = match since_epoch(&system_now()) {
        Some(d) => duration_secs(&d) as i64,
        None => 0,
    };
    format_epoch_iso(secs)
}

} // verus!
