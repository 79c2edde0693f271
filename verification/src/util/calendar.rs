//! The day count of a date names the date: distinct valid dates have
//! distinct day counts, so an epoch second has one timestamp text.
use vstd::prelude::*;

use crate::util::time::{days_from_civil, is_iso_of, is_leap, iso_text, lemma_era_shift, valid_date};

verus! {

/// Days from March 1st of year 0 of an era to March 1st of its year `yoe`.
pub open spec fn year_start(yoe: int) -> int {
    yoe * 365 + yoe / 4 - yoe / 100
}

/// Days from March 1st to the first of month `mp` of a March-based year
/// (`mp` 0 is March, 11 is February).
pub open spec fn month_start(mp: int) -> int {
    (153 * mp + 2) / 5
}

proof fn lemma_month_starts()
    ensures
        month_start(0) == 0,
        month_start(1) == 31,
        month_start(2) == 61,
        month_start(3) == 92,
        month_start(4) == 122,
        month_start(5) == 153,
        month_start(6) == 184,
        month_start(7) == 214,
        month_start(8) == 245,
        month_start(9) == 275,
        month_start(10) == 306,
        month_start(11) == 337,
{
}

/// Where a valid date falls in its March-based year: in its month's range,
/// and on day 365 only as a leap day.
proof fn lemma_day_of_year_range(y: int, m: int, d: int)
    requires
        valid_date(y, m, d),
    ensures
        ({
            let mp = if m > 2 { m - 3 } else { m + 9 };
            let doy = month_start(mp) + d - 1;
            &&& 0 <= mp <= 11
            &&& month_start(mp) <= doy
            &&& mp < 11 ==> doy < month_start(mp + 1)
            &&& doy <= 365
            &&& doy == 365 ==> m == 2 && is_leap(y)
        }),
{
    lemma_month_starts();
}


/// Later years of an era start at least a year later.
proof fn lemma_year_start_grows(a: int, b: int)
    requires
        0 <= a < b <= 400,
    ensures
        year_start(a) + 365 <= year_start(b),
{
    assert(a / 4 <= b / 4) by (nonlinear_arith)
        requires
            0 <= a <= b,
    ;
    assert(b / 100 - a / 100 <= b / 4 - a / 4) by (nonlinear_arith)
        requires
            0 <= a <= b,
    ;
}

/// A March-based year inside an era is 365 days, or 366 when the February
/// it ends with has a leap day.
proof fn lemma_year_start_step(yoe: int)
    requires
        0 <= yoe < 399,
    ensures
        year_start(yoe + 1) - year_start(yoe) == (if is_leap(yoe + 1) {
            366int
        } else {
            365int
        }),
{
}

/// The year of the era a day count is reckoned from (the March-based
/// year), its era, and the day of that year.
pub open spec fn era_of(y: int, m: int) -> int {
    (if m <= 2 { y - 1 } else { y }) / 400
}

pub open spec fn yoe_of(y: int, m: int) -> int {
    (if m <= 2 { y - 1 } else { y }) - era_of(y, m) * 400
}

pub open spec fn mp_of(m: int) -> int {
    if m > 2 { m - 3 } else { m + 9 }
}

/// A date's day count splits into its era and its day within the era,
/// which stays below the start of the next March-based year.
proof fn lemma_day_count_parts(y: int, m: int, d: int)
    requires
        valid_date(y, m, d),
    ensures
        0 <= yoe_of(y, m) < 400,
        days_from_civil(y, m, d) == era_of(y, m) * 146097 + year_start(yoe_of(y, m))
            + month_start(mp_of(m)) + d - 1 - 719468,
        0 <= month_start(mp_of(m)) + d - 1,
        year_start(yoe_of(y, m)) + month_start(mp_of(m)) + d - 1 < (if yoe_of(y, m) < 399 {
            year_start(yoe_of(y, m) + 1)
        } else {
            146097
        }),
        year_start(yoe_of(y, m)) + month_start(mp_of(m)) + d - 1 < 146097,
{
    let era = era_of(y, m);
    let yoe = yoe_of(y, m);
    let doy = month_start(mp_of(m)) + d - 1;
    lemma_day_of_year_range(y, m, d);
    assert(0 <= yoe < 400);
    assert(year_start(399) == 145731);
    if yoe < 399 {
        lemma_year_start_step(yoe);
        if doy == 365 {
            assert(m <= 2);
            assert(y == era * 400 + (yoe + 1));
            lemma_era_shift(era, yoe + 1);
            assert(is_leap(yoe + 1));
        }
        if yoe + 1 < 399 {
            lemma_year_start_grows(yoe + 1, 399);
        }
    }
}

/// Distinct calendar dates have distinct day counts: the day count of a
/// valid date names it.
pub proof fn law_day_count_injective(y1: int, m1: int, d1: int, y2: int, m2: int, d2: int)
    requires
        valid_date(y1, m1, d1),
        valid_date(y2, m2, d2),
        days_from_civil(y1, m1, d1) == days_from_civil(y2, m2, d2),
    ensures
        y1 == y2 && m1 == m2 && d1 == d2,
{
    lemma_day_count_parts(y1, m1, d1);
    lemma_day_count_parts(y2, m2, d2);
    lemma_day_of_year_range(y1, m1, d1);
    lemma_day_of_year_range(y2, m2, d2);
    let e1 = era_of(y1, m1);
    let e2 = era_of(y2, m2);
    let o1 = yoe_of(y1, m1);
    let o2 = yoe_of(y2, m2);
    let p1 = mp_of(m1);
    let p2 = mp_of(m2);
    let q1 = month_start(p1) + d1 - 1;
    let q2 = month_start(p2) + d2 - 1;
    let w1 = year_start(o1) + q1;
    let w2 = year_start(o2) + q2;
    assert(e1 * 146097 + w1 == e2 * 146097 + w2);
    assert(e1 == e2) by {
        if e1 < e2 {
            assert(e1 * 146097 + 146097 <= e2 * 146097) by (nonlinear_arith)
                requires
                    e1 < e2,
            ;
        } else if e2 < e1 {
            assert(e2 * 146097 + 146097 <= e1 * 146097) by (nonlinear_arith)
                requires
                    e2 < e1,
            ;
        }
    }
    assert(w1 == w2);
    assert(o1 == o2) by {
        if o1 < o2 {
            if o1 + 1 < o2 {
                lemma_year_start_grows(o1 + 1, o2);
            }
        } else if o2 < o1 {
            if o2 + 1 < o1 {
                lemma_year_start_grows(o2 + 1, o1);
            }
        }
    }
    assert(q1 == q2);
    assert(p1 == p2) by {
        if p1 < p2 {
            lemma_month_start_grows(p1 + 1, p2);
        } else if p2 < p1 {
            lemma_month_start_grows(p2 + 1, p1);
        }
    }
}

/// Later months of a March-based year start no earlier.
proof fn lemma_month_start_grows(a: int, b: int)
    requires
        a <= b,
    ensures
        month_start(a) <= month_start(b),
{
    assert((153 * a + 2) / 5 <= (153 * b + 2) / 5) by (nonlinear_arith)
        requires
            a <= b,
    ;
}

/// A timestamp text is determined by its second: two texts that are both
/// the ISO form of `secs` are the same text.
pub proof fn law_iso_text_unique(t1: Seq<char>, t2: Seq<char>, secs: int)
    requires
        is_iso_of(t1, secs),
        is_iso_of(t2, secs),
    ensures
        t1 == t2,
{
    let (y1, m1, d1) = choose|y: int, m: int, d: int|
        #![trigger iso_text(y, m, d, secs % 86400)]
        valid_date(y, m, d) && days_from_civil(y, m, d) == secs / 86400 && t1 == iso_text(
            y,
            m,
            d,
            secs % 86400,
        );
    let (y2, m2, d2) = choose|y: int, m: int, d: int|
        #![trigger iso_text(y, m, d, secs % 86400)]
        valid_date(y, m, d) && days_from_civil(y, m, d) == secs / 86400 && t2 == iso_text(
            y,
            m,
            d,
            secs % 86400,
        );
    law_day_count_injective(y1, m1, d1, y2, m2, d2);
}

} // verus!
