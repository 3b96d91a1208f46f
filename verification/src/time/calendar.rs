//! Proleptic-Gregorian calendar arithmetic on day numbers.
use vstd::prelude::*;

verus! {

/// Whether year `y` of the proleptic Gregorian calendar has 366 days.
pub open spec fn is_leap(y: int) -> bool {
    y % 4 == 0 && (y % 100 != 0 || y % 400 == 0)
}

/// Number of leap years among the years `1..=y` (negated count of `y+1..=0` when `y < 0`).
pub open spec fn leaps_through(y: int) -> int {
    y / 4 - y / 100 + y / 400
}

/// Number of days in month `m` (1 = January) of year `y`; zero outside `1..=12`.
pub open spec fn month_length(y: int, m: int) -> int {
    if m == 2 {
        if is_leap(y) { 29 } else { 28 }
    } else if m == 4 || m == 6 || m == 9 || m == 11 {
        30
    } else if 1 <= m <= 12 {
        31
    } else {
        0
    }
}

/// Number of days in year `y`.
pub open spec fn year_length(y: int) -> int {
    if is_leap(y) { 366 } else { 365 }
}

/// Days of year `y` that lie before the first day of month `m`.
pub open spec fn days_before_month(y: int, m: int) -> int {
    let leap_day: int = if is_leap(y) { 1 } else { 0 };
    if m <= 1 {
        0
    } else if m == 2 {
        31
    } else if m == 3 {
        59 + leap_day
    } else if m == 4 {
        90 + leap_day
    } else if m == 5 {
        120 + leap_day
    } else if m == 6 {
        151 + leap_day
    } else if m == 7 {
        181 + leap_day
    } else if m == 8 {
        212 + leap_day
    } else if m == 9 {
        243 + leap_day
    } else if m == 10 {
        273 + leap_day
    } else if m == 11 {
        304 + leap_day
    } else {
        334 + leap_day
    }
}

/// Days from 0000-01-01 to the first of January of year `y` (year 0 is a leap year).
pub open spec fn days_before_year(y: int) -> int {
    365 * y + leaps_through(y - 1) + 1
}

/// Whether `(y, m, d)` names a day of the proleptic Gregorian calendar.
pub open spec fn is_valid_date(y: int, m: int, d: int) -> bool {
    1 <= m <= 12 && 1 <= d <= month_length(y, m)
}

/// Number of days from 2000-01-01 (MJD2000 day zero) to the date `(y, m, d)`.
pub open spec fn civil_day(y: int, m: int, d: int) -> int {
    days_before_year(y) + days_before_month(y, m) + d - 1 - 730485
}

/// The calendar date of day `n` counted from 2000-01-01.
pub open spec fn date_of_day(n: int) -> (int, int, int) {
    choose|date: (int, int, int)|
        is_valid_date(date.0, date.1, date.2) && civil_day(date.0, date.1, date.2) == n
}

/// Days before the first of March of year-of-era `k`, counted from the first
/// of March of the era's first year (eras are 400-year cycles).
pub open spec fn era_days_before(k: int) -> int {
    365 * k + k / 4 - k / 100
}

/// The leap-year count grows by one exactly at a leap year.
pub proof fn lemma_leaps_step(y: int)
    ensures
        leaps_through(y) - leaps_through(y - 1) == (if is_leap(y) { 1int } else { 0int }),
{
}

/// Consecutive years start a year length apart.
pub proof fn lemma_year_length(y: int)
    ensures
        days_before_year(y + 1) == days_before_year(y) + year_length(y),
{
    lemma_leaps_step(y);
}

/// A valid date lies within its year.
pub proof fn lemma_day_within_year(y: int, m: int, d: int)
    requires
        is_valid_date(y, m, d),
    ensures
        0 <= days_before_month(y, m) + d - 1 < year_length(y),
{
}

/// Later years start later.
pub proof fn lemma_years_ordered(a: int, b: int)
    requires
        a <= b,
    ensures
        days_before_year(a) + 365 * (b - a) <= days_before_year(b),
    decreases b - a,
{
    if a < b {
        lemma_years_ordered(a, b - 1);
        lemma_year_length(b - 1);
    }
}

/// Distinct valid dates have distinct day numbers.
pub proof fn lemma_civil_day_injective(y1: int, m1: int, d1: int, y2: int, m2: int, d2: int)
    requires
        is_valid_date(y1, m1, d1),
        is_valid_date(y2, m2, d2),
        civil_day(y1, m1, d1) == civil_day(y2, m2, d2),
    ensures
        y1 == y2 && m1 == m2 && d1 == d2,
{
    lemma_day_within_year(y1, m1, d1);
    lemma_day_within_year(y2, m2, d2);
    if y1 < y2 {
        lemma_year_length(y1);
        lemma_years_ordered(y1 + 1, y2);
    } else if y2 < y1 {
        lemma_year_length(y2);
        lemma_years_ordered(y2 + 1, y1);
    }
}

/// The date of a day number is the unique valid date with that number.
pub proof fn lemma_date_of_day(y: int, m: int, d: int)
    requires
        is_valid_date(y, m, d),
    ensures
        date_of_day(civil_day(y, m, d)) == (y, m, d),
{
    let n = civil_day(y, m, d);
    let witness = (y, m, d);
    assert(is_valid_date(witness.0, witness.1, witness.2) && civil_day(witness.0, witness.1, witness.2) == n);
    let w = date_of_day(n);
    lemma_civil_day_injective(w.0, w.1, w.2, y, m, d);
}

/// The months of a year follow one another without gaps.
proof fn lemma_month_step(y: int, m: int)
    requires
        1 <= m < 12,
    ensures
        days_before_month(y, m + 1) == days_before_month(y, m) + month_length(y, m),
{
}

/// Later months of a year start later than any day of an earlier month.
proof fn lemma_months_ordered(y: int, m1: int, d1: int, m2: int)
    requires
        is_valid_date(y, m1, d1),
        m1 < m2 <= 12,
    ensures
        days_before_month(y, m1) + d1 - 1 < days_before_month(y, m2),
    decreases m2 - m1,
{
    lemma_month_step(y, m2 - 1);
    if m1 < m2 - 1 {
        lemma_months_ordered(y, m1, d1, m2 - 1);
    }
}

/// Calendar order is day-number order: a date that comes earlier by year,
/// then month, then day has a smaller day number.
pub proof fn law_calendar_order(y1: int, m1: int, d1: int, y2: int, m2: int, d2: int)
    requires
        is_valid_date(y1, m1, d1),
        is_valid_date(y2, m2, d2),
        y1 < y2 || (y1 == y2 && m1 < m2) || (y1 == y2 && m1 == m2 && d1 < d2),
    ensures
        civil_day(y1, m1, d1) < civil_day(y2, m2, d2),
{
    lemma_day_within_year(y1, m1, d1);
    lemma_day_within_year(y2, m2, d2);
    if y1 < y2 {
        lemma_year_length(y1);
        lemma_years_ordered(y1 + 1, y2);
    } else if m1 < m2 {
        lemma_months_ordered(y1, m1, d1, m2);
    }
}

/// The March-based form of a day number used by the era algorithms.
pub proof fn lemma_march_form(y: int, m: int, d: int)
    requires
        1 <= m <= 12,
    ensures
        ({
            let shifted_year = if m <= 2 { y - 1 } else { y };
            let shifted_month = if m > 2 { m - 3 } else { m + 9 };
            civil_day(y, m, d) + 10957 == 365 * shifted_year + leaps_through(shifted_year)
                + (153 * shifted_month + 2) / 5 + d - 1 - 719468
        }),
{
    lemma_leaps_step(y);
}

/// Splitting a March-based year into 400-year eras.
pub proof fn lemma_era_split(era: int, yoe: int)
    requires
        0 <= yoe < 400,
    ensures
        365 * (400 * era + yoe) + leaps_through(400 * era + yoe) == era * 146097 + era_days_before(yoe),
{
}

/// Length of the March-based month `mp` (0 = March, ..., 11 = February).
pub open spec fn march_month_length(mp: int, long_year: bool) -> int {
    if mp == 11 {
        if long_year { 29 } else { 28 }
    } else if mp == 1 || mp == 3 || mp == 6 || mp == 8 {
        30
    } else {
        31
    }
}

/// The month formula of the era algorithm splits a March-based day of year
/// into a month and a day within that month.
pub proof fn lemma_march_month(doy: int, long_year: bool)
    requires
        0 <= doy < (if long_year { 366int } else { 365int }),
    ensures
        ({
            let mp = (5 * doy + 2) / 153;
            let first = (153 * mp + 2) / 5;
            &&& 0 <= mp <= 11
            &&& first <= doy
            &&& doy - first < march_month_length(mp, long_year)
        }),
{
    let mp = (5 * doy + 2) / 153;
    let first = (153 * mp + 2) / 5;
    assert(153 * mp <= 5 * doy + 2 < 153 * mp + 153);
    assert(5 * first <= 153 * mp + 2 < 5 * first + 5);
}

/// Whether the March-based year `yoe` of an era contains a 29th of February.
pub proof fn lemma_long_march_year(era: int, yoe: int)
    requires
        0 <= yoe <= 399,
    ensures
        is_leap(400 * era + yoe + 1) == (era_days_before(yoe + 1) - era_days_before(yoe) == 366
            || yoe == 399),
{
}

/// Every day number is the number of some valid date; that date is `date_of_day(n)`.
pub proof fn lemma_date_of_day_valid(n: int)
    ensures
        is_valid_date(date_of_day(n).0, date_of_day(n).1, date_of_day(n).2),
        civil_day(date_of_day(n).0, date_of_day(n).1, date_of_day(n).2) == n,
{
    let shifted = n + 10957 + 719468;
    let era = shifted / 146097;
    let doe = shifted - era * 146097;
    lemma_year_of_era(doe);
    let yoe = (doe - doe / 1460 + doe / 36524 - doe / 146096) / 365;
    let march_year = yoe + era * 400;
    let doy = doe - (365 * yoe + yoe / 4 - yoe / 100);
    let mp = (5 * doy + 2) / 153;
    let day = doy - (153 * mp + 2) / 5 + 1;
    let month = if mp < 10 { mp + 3 } else { mp - 9 };
    let year = march_year + if month <= 2 { 1int } else { 0int };
    lemma_long_march_year(era, yoe);
    lemma_march_month(doy, is_leap(march_year + 1));
    lemma_march_form(year, month, day);
    lemma_era_split(era, yoe);
    assert(is_valid_date(year, month, day) && civil_day(year, month, day) == n);
    lemma_date_of_day(year, month, day);
}

/// The year-of-era formula finds the March-based year that contains day
/// `doe` of a 400-year era.
#[verifier::rlimit(40)]
pub proof fn lemma_year_of_era(doe: int)
    requires
        0 <= doe <= 146096,
    ensures
        ({
            let yoe = (doe - doe / 1460 + doe / 36524 - doe / 146096) / 365;
            &&& 0 <= yoe <= 399
            &&& era_days_before(yoe) <= doe
            &&& doe < era_days_before(yoe + 1) || (yoe == 399 && doe == 146096)
        }),
{
    let a = doe / 1460;
    let b = doe / 36524;
    let c = doe / 146096;
    assert(1460 * a <= doe < 1460 * a + 1460);
    assert(36524 * b <= doe < 36524 * b + 36524);
    assert(146096 * c <= doe < 146096 * c + 146096);
    let t = doe - a + b - c;
    let yoe = t / 365;
    assert(365 * yoe <= t < 365 * yoe + 365);
    let g = yoe / 4;
    let h = yoe / 100;
    assert(4 * g <= yoe < 4 * g + 4);
    assert(100 * h <= yoe < 100 * h + 100);
    let g1 = (yoe + 1) / 4;
    let h1 = (yoe + 1) / 100;
    assert(4 * g1 <= yoe + 1 < 4 * g1 + 4);
    assert(100 * h1 <= yoe + 1 < 100 * h1 + 100);
}

/// Floor division by a positive divisor.
fn floor_div(value: i64, divisor: i64) -> (quotient: i64)
    requires
        divisor > 0,
    ensures
        quotient == value / divisor,
{
    match value.checked_div_euclid(divisor) {
        Some(quotient) => quotient,
        None => {
            proof {
                assert(i64::MIN <= value / divisor <= i64::MAX) by (nonlinear_arith)
                    requires divisor > 0, i64::MIN <= value <= i64::MAX;
            }
            0
        },
    }
}

/// Whether `year` is a leap year of the proleptic Gregorian calendar.
pub fn is_leap_year(year: i32) -> (leap: bool)
    ensures
        leap == is_leap(year as int),
{
    year % 4 == 0 && (year % 100 != 0 || year % 400 == 0)
}


/// Number of days in `month` of `year`; zero for a month outside `1..=12`.
pub fn days_in_month(year: i32, month: u32) -> (days: u32)
    ensures
        days == month_length(year as int, month as int),
{
    match month {
        1 | 3 | 5 | 7 | 8 | 10 | 12 => 31,
        4 | 6 | 9 | 11 => 30,
        2 => if is_leap_year(year) { 29 } else { 28 },
        _ => 0,
    }
}

/// The quantities that `days_from_civil` computes on the way to its result: the
/// 400-year era of the March-based year, the day within that era, and the era's
/// first day counted in days.
pub open spec fn civil_era_parts(year: int, month: int, day: int) -> (int, int, int) {
    let adjusted_year = year - if month <= 2 { 1int } else { 0int };
    let era = adjusted_year / 400;
    let year_of_era = adjusted_year - era * 400;
    let shifted_month = month + if month > 2 { -3int } else { 9int };
    let day_of_year = (153 * shifted_month + 2) / 5 + day - 1;
    let day_of_era = year_of_era * 365 + year_of_era / 4 - year_of_era / 100 + day_of_year;
    (era, day_of_era, era * 146_097)
}

/// Whether the day count of `(year, month, day)`, and the era product on the
/// way to it, fit a signed 64-bit integer.
pub open spec fn civil_days_fit(year: int, month: int, day: int) -> bool {
    let parts = civil_era_parts(year, month, day);
    &&& i64::MIN <= parts.2 <= i64::MAX
    &&& i64::MIN <= parts.2 + parts.1 <= i64::MAX
    &&& i64::MIN <= parts.2 + parts.1 - 719_468 <= i64::MAX
}

/// Days from 1970-01-01 to a date, for any day offset within a month.
pub fn days_from_civil(year: i64, month: u32, day: u32) -> (days: i64)
    requires
        1 <= month <= 12,
        civil_days_fit(year as int, month as int, day as int),
    ensures
        days == civil_day(year as int, month as int, day as int) + 10957,
{
    let adjusted_year = year - if month <= 2 { 1i64 } else { 0i64 };
    let era = floor_div(adjusted_year, 400);
    let year_of_era = adjusted_year - era * 400;
    let shifted_month: i64 = month as i64 + if month > 2 { -3i64 } else { 9i64 };
    let day_of_year = (153 * shifted_month + 2) / 5 + day as i64 - 1;
    let day_of_era = year_of_era * 365 + year_of_era / 4 - year_of_era / 100 + day_of_year;
    proof {
        lemma_march_form(year as int, month as int, day as int);
        lemma_era_split(era as int, year_of_era as int);
    }
    era * 146_097 + day_of_era - 719_468
}

/// The calendar date of a day counted from 1970-01-01.
pub fn civil_from_days(days_from_unix: i64) -> (date: (i64, i64, i64))
    requires
        days_from_unix <= i64::MAX - 719_468,
    ensures
        is_valid_date(date.0 as int, date.1 as int, date.2 as int),
        civil_day(date.0 as int, date.1 as int, date.2 as int) + 10957 == days_from_unix,
        (date.0 as int, date.1 as int, date.2 as int) == date_of_day(days_from_unix - 10957),
{
    let shifted = days_from_unix + 719_468;
    let era = floor_div(shifted, 146_097);
    let day_of_era = shifted - era * 146_097;
    proof {
        lemma_year_of_era(day_of_era as int);
    }
    let year_of_era = (day_of_era - day_of_era / 1_460 + day_of_era / 36_524 - day_of_era / 146_096) / 365;
    let mut year = year_of_era + era * 400;
    let day_of_year = day_of_era - (365 * year_of_era + year_of_era / 4 - year_of_era / 100);
    let month_prime = (5 * day_of_year + 2) / 153;
    let day = day_of_year - (153 * month_prime + 2) / 5 + 1;
    let month = month_prime + if month_prime < 10 { 3i64 } else { -9i64 };
    proof {
        let long_year = is_leap(year as int + 1);
        lemma_long_march_year(era as int, year_of_era as int);
        lemma_march_month(day_of_year as int, long_year);
        lemma_march_form(year as int + if month <= 2 { 1int } else { 0int }, month as int, day as int);
        lemma_era_split(era as int, year_of_era as int);
    }
    year += if month <= 2 { 1i64 } else { 0i64 };
    proof {
        lemma_date_of_day(year as int, month as int, day as int);
    }
    (year, month, day)
}

} // verus!
