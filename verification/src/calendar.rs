//! Proleptic Gregorian calendar arithmetic for UTC timestamps.

use vstd::prelude::*;

verus! {

/// Days in the first `k` years of a 400-year era whose years start on
/// March 1st (the year that ends in the era's last February is a leap year).
pub open spec fn era_days_before(k: int) -> int {
    365 * k + k / 4 - k / 100 + k / 400
}

proof fn lemma_year_of_era(doe: int)
    requires
        0 <= doe < 146097,
    ensures
        ({
            let yoe = (doe - doe / 1460 + doe / 36524 - doe / 146096) / 365;
            &&& 0 <= yoe <= 399
            &&& era_days_before(yoe) <= doe < era_days_before(yoe + 1)
        }),
{
}

/// Gregorian leap-year rule: every fourth year, except centuries that are
/// not a multiple of 400.
pub open spec fn is_leap_year(y: int) -> bool {
    (y % 4 == 0 && y % 100 != 0) || y % 400 == 0
}

/// Number of days in month `m` (1 = January) of year `y`.
pub open spec fn days_in_month(y: int, m: int) -> int {
    if m == 2 {
        if is_leap_year(y) { 29 } else { 28 }
    } else if m == 4 || m == 6 || m == 9 || m == 11 {
        30
    } else {
        31
    }
}

/// Days in year `y` before the first of month `m`.
pub open spec fn days_before_month(y: int, m: int) -> int {
    let common: int = if m == 1 { 0 }
        else if m == 2 { 31 }
        else if m == 3 { 59 }
        else if m == 4 { 90 }
        else if m == 5 { 120 }
        else if m == 6 { 151 }
        else if m == 7 { 181 }
        else if m == 8 { 212 }
        else if m == 9 { 243 }
        else if m == 10 { 273 }
        else if m == 11 { 304 }
        else { 334 };
    if m > 2 && is_leap_year(y) { common + 1 } else { common }
}

/// Number of leap years among the years `1 ..= y - 1`.
pub open spec fn leap_years_before(y: int) -> int {
    (y - 1) / 4 - (y - 1) / 100 + (y - 1) / 400
}

/// The number of days from 1970-01-01 to the date `y`-`m`-`d`.
pub open spec fn days_from_civil(y: int, m: int, d: int) -> int {
    365 * (y - 1970) + (leap_years_before(y) - leap_years_before(1970)) + days_before_month(y, m)
        + d - 1
}

/// `y`-`m`-`d` names a day of the calendar from 1970 onward.
pub open spec fn is_valid_date(y: int, m: int, d: int) -> bool {
    &&& y >= 1970
    &&& 1 <= m <= 12
    &&& 1 <= d <= days_in_month(y, m)
}

/// The date reached by Hinnant's algorithm from `z` days after 0000-03-01.
pub open spec fn civil_of_shifted_day(z: int) -> (int, int, int) {
    let era = z / 146097;
    let doe = z % 146097;
    let yoe = (doe - doe / 1460 + doe / 36524 - doe / 146096) / 365;
    let doy = doe - (365 * yoe + yoe / 4 - yoe / 100);
    let mp = (5 * doy + 2) / 153;
    let d = doy - (153 * mp + 2) / 5 + 1;
    let m = if mp < 10 { mp + 3 } else { mp - 9 };
    let y = yoe + era * 400 + if m <= 2 { 1int } else { 0int };
    (y, m, d)
}

/// Days from 0000-03-01 to March 1st of the March-based year `y`.
spec fn shifted_year_start(y: int) -> int {
    365 * y + y / 4 - y / 100 + y / 400
}

/// Days in the common-year calendar before month `m`.
spec fn common_days_before_month(m: int) -> int {
    days_before_month(1, m)
}

proof fn lemma_year_start_of_era(era: int, yoe: int)
    requires
        era >= 0,
        0 <= yoe <= 399,
    ensures
        shifted_year_start(era * 400 + yoe) == 146097 * era + 365 * yoe + yoe / 4 - yoe / 100,
{
    let y = era * 400 + yoe;
    assert(y / 4 == era * 100 + yoe / 4);
    assert(y / 100 == era * 4 + yoe / 100);
    assert(y / 400 == era);
}

proof fn lemma_month_of_year_day(doy: int)
    requires
        0 <= doy <= 365,
    ensures
        ({
            let mp = (5 * doy + 2) / 153;
            let d = doy - (153 * mp + 2) / 5 + 1;
            let m = if mp < 10 { mp + 3 } else { mp - 9 };
            &&& 0 <= mp <= 11
            &&& 1 <= m <= 12
            &&& 1 <= d
            &&& m != 2 ==> d <= days_in_month(1, m)
            &&& m == 2 ==> d <= 28 || doy == 365
            &&& m == 2 ==> d <= 29
            &&& mp < 10 ==> (153 * mp + 2) / 5 + 59 == common_days_before_month(m)
            &&& mp >= 10 ==> (153 * mp + 2) / 5 + 59 == common_days_before_month(m) + 365
        }),
{
    let mp = (5 * doy + 2) / 153;
    assert(0 <= mp <= 11);
    if mp == 0 {
    } else if mp == 1 {
    } else if mp == 2 {
    } else if mp == 3 {
    } else if mp == 4 {
    } else if mp == 5 {
    } else if mp == 6 {
    } else if mp == 7 {
    } else if mp == 8 {
    } else if mp == 9 {
    } else if mp == 10 {
    } else {
    }
}

proof fn lemma_leap_step(y: int)
    requires
        y >= 1,
    ensures
        leap_years_before(y + 1) == leap_years_before(y) + if is_leap_year(y) { 1int } else { 0int },
{
    assert(y / 4 - (y - 1) / 4 == if y % 4 == 0 { 1int } else { 0int });
    assert(y / 100 - (y - 1) / 100 == if y % 100 == 0 { 1int } else { 0int });
    assert(y / 400 - (y - 1) / 400 == if y % 400 == 0 { 1int } else { 0int });
    assert(y % 400 == 0 ==> y % 100 == 0 && y % 4 == 0);
    assert(y % 100 == 0 ==> y % 4 == 0);
}

#[verifier::rlimit(40)]
proof fn lemma_civil_of_shifted_day(z: int)
    requires
        z >= 719468,
    ensures
        ({
            let (y, m, d) = civil_of_shifted_day(z);
            is_valid_date(y, m, d) && days_from_civil(y, m, d) == z - 719468
        }),
{
    let era = z / 146097;
    let doe = z % 146097;
    lemma_year_of_era(doe);
    let yoe = (doe - doe / 1460 + doe / 36524 - doe / 146096) / 365;
    let doy = doe - (365 * yoe + yoe / 4 - yoe / 100);
    assert(0 <= doy <= 365);
    let sy = era * 400 + yoe;
    lemma_year_start_of_era(era, yoe);
    assert(z == shifted_year_start(sy) + doy);
    lemma_month_of_year_day(doy);
    let mp = (5 * doy + 2) / 153;
    let (y, m, d) = civil_of_shifted_day(z);
    // A year day of 365 only exists in a March-based year that ends in a leap February.
    if doy == 365 {
        assert((yoe + 1) % 4 == 0 && ((yoe + 1) % 100 != 0 || yoe == 399));
        assert(is_leap_year(sy + 1));
    }
    // From 1970 onward.
    if sy <= 1968 {
        assert(shifted_year_start(sy) <= 718816);
        assert(false);
    }
    if sy == 1969 {
        assert(shifted_year_start(sy) == 719162);
        assert(mp >= 10);
    }
    assert(is_valid_date(y, m, d));
    if mp < 10 {
        lemma_leap_step(sy);
        assert(days_before_month(y, m) == common_days_before_month(m) + if is_leap_year(sy) { 1int } else { 0int });
    } else {
        assert(days_before_month(y, m) == common_days_before_month(m));
    }
    assert(days_from_civil(y, m, d) == z - 719468);
}


/// The civil date that lies `days` days after 1970-01-01.
pub open spec fn civil_date(days: int) -> (int, int, int) {
    choose|ymd: (int, int, int)|
        is_valid_date(ymd.0, ymd.1, ymd.2) && days_from_civil(ymd.0, ymd.1, ymd.2) == days
}

/// The day number of January 1st of year `y`.
spec fn year_start(y: int) -> int {
    days_from_civil(y, 1, 1)
}

proof fn lemma_date_within_year(y: int, m: int, d: int)
    requires
        is_valid_date(y, m, d),
    ensures
        year_start(y) <= days_from_civil(y, m, d),
        days_from_civil(y, m, d) < year_start(y) + 365 + if is_leap_year(y) { 1int } else { 0int },
{
}

proof fn lemma_next_year_start(y: int)
    requires
        y >= 1970,
    ensures
        year_start(y + 1) == year_start(y) + 365 + if is_leap_year(y) { 1int } else { 0int },
{
    lemma_leap_step(y);
}

proof fn lemma_year_start_increasing(a: int, b: int)
    requires
        1970 <= a < b,
    ensures
        year_start(a + 1) <= year_start(b),
    decreases b - a,
{
    lemma_next_year_start(b - 1);
    if a + 1 < b {
        lemma_year_start_increasing(a, b - 1);
    }
}

proof fn lemma_months_ordered(y: int, m1: int, d1: int, m2: int, d2: int)
    requires
        is_valid_date(y, m1, d1),
        is_valid_date(y, m2, d2),
        m1 < m2,
    ensures
        days_from_civil(y, m1, d1) < days_from_civil(y, m2, d2),
{
    assert(days_before_month(y, m1) + days_in_month(y, m1) <= days_before_month(y, m2));
}

/// Distinct valid dates are distinct days: `days_from_civil` is one-to-one.
pub proof fn lemma_days_from_civil_injective(y1: int, m1: int, d1: int, y2: int, m2: int, d2: int)
    requires
        is_valid_date(y1, m1, d1),
        is_valid_date(y2, m2, d2),
        days_from_civil(y1, m1, d1) == days_from_civil(y2, m2, d2),
    ensures
        y1 == y2 && m1 == m2 && d1 == d2,
{
    lemma_date_within_year(y1, m1, d1);
    lemma_date_within_year(y2, m2, d2);
    if y1 < y2 {
        lemma_next_year_start(y1);
        lemma_year_start_increasing(y1, y2);
    } else if y2 < y1 {
        lemma_next_year_start(y2);
        lemma_year_start_increasing(y2, y1);
    } else if m1 < m2 {
        lemma_months_ordered(y1, m1, d1, m2, d2);
    } else if m2 < m1 {
        lemma_months_ordered(y1, m2, d2, m1, d1);
    }
}

/// A valid date is the civil date of its own day number.
pub proof fn lemma_civil_date_of_days_from_civil(y: int, m: int, d: int)
    requires
        is_valid_date(y, m, d),
    ensures
        civil_date(days_from_civil(y, m, d)) == (y, m, d),
{
    let days = days_from_civil(y, m, d);
    let w = (y, m, d);
    assert(is_valid_date(w.0, w.1, w.2) && days_from_civil(w.0, w.1, w.2) == days);
    let ymd = civil_date(days);
    lemma_days_from_civil_injective(ymd.0, ymd.1, ymd.2, y, m, d);
}

/// Every day from 1970-01-01 on has a civil date: `civil_date` names a
/// valid date with that day number.
pub proof fn lemma_civil_date(days: int)
    requires
        0 <= days,
    ensures
        is_valid_date(civil_date(days).0, civil_date(days).1, civil_date(days).2),
        days_from_civil(civil_date(days).0, civil_date(days).1, civil_date(days).2) == days,
{
    lemma_civil_of_shifted_day(days + 719468);
    let (y, m, d) = civil_of_shifted_day(days + 719468);
    lemma_civil_date_of_days_from_civil(y, m, d);
}

/// The days before 10000-01-01 have dates with four-digit years.
pub proof fn lemma_civil_date_year_below_10000(days: int)
    requires
        0 <= days < 2_932_897,
    ensures
        civil_date(days).0 < 10000,
{
    lemma_civil_date(days);
    let (y, m, d) = civil_date(days);
    if y >= 10000 {
        lemma_date_within_year(y, m, d);
        assert(year_start(10000) == 2_932_897);
        if y > 10000 {
            lemma_next_year_start(10000);
            lemma_year_start_increasing(10000, y);
        }
        assert(false);
    }
}

/// Converts a count of days since 1970-01-01 into the `(year, month, day)`
/// civil date it falls on (Howard Hinnant's `civil_from_days`, unsigned).
pub fn civil_from_days(days: u64) -> (ymd: (u64, u64, u64))
    requires
        days <= u64::MAX - 719_468,
    ensures
        (ymd.0 as int, ymd.1 as int, ymd.2 as int) == civil_date(days as int),
        is_valid_date(ymd.0 as int, ymd.1 as int, ymd.2 as int),
        days_from_civil(ymd.0 as int, ymd.1 as int, ymd.2 as int) == days as int,
{
    let z = days + 719_468;
    let era = z / 146_097;
    let doe = z % 146_097;
    proof {
        lemma_year_of_era(doe as int);
    }
    let yoe = (doe - doe / 1_460 + doe / 36_524 - doe / 146_096) / 365;
    let doy = doe - (365 * yoe + yoe / 4 - yoe / 100);
    let mp = (5 * doy + 2) / 153;
    let day = doy - (153 * mp + 2) / 5 + 1;
    let month = if mp < 10 { mp + 3 } else { mp - 9 };
    let leap_shift: u64 = if month <= 2 { 1 } else { 0 };
    let year = yoe + era * 400 + leap_shift;
    proof {
        lemma_civil_of_shifted_day(z as int);
        assert((year as int, month as int, day as int) == civil_of_shifted_day(z as int));
        lemma_civil_date_of_days_from_civil(year as int, month as int, day as int);
    }
    (year, month, day)
}

} // verus!
