use pykep_core::time::calendar::{civil_from_days, days_from_civil, days_in_month, is_leap_year};

#[test]
fn leap_years_follow_the_gregorian_rule() {
    assert!(is_leap_year(2000));
    assert!(is_leap_year(2024));
    assert!(is_leap_year(2400));
    assert!(is_leap_year(0));
    assert!(is_leap_year(-4));
    assert!(!is_leap_year(1900));
    assert!(!is_leap_year(2023));
    assert!(!is_leap_year(2100));
    assert!(!is_leap_year(-1));
    assert!(!is_leap_year(-100));
}

#[test]
fn month_lengths() {
    assert_eq!(days_in_month(2024, 2), 29);
    assert_eq!(days_in_month(2023, 2), 28);
    assert_eq!(days_in_month(1900, 2), 28);
    assert_eq!(days_in_month(2023, 1), 31);
    assert_eq!(days_in_month(2023, 4), 30);
    assert_eq!(days_in_month(2023, 12), 31);
    assert_eq!(days_in_month(2023, 0), 0);
    assert_eq!(days_in_month(2023, 13), 0);
}

#[test]
fn day_numbers_are_counted_from_the_unix_epoch() {
    assert_eq!(days_from_civil(1970, 1, 1), 0);
    assert_eq!(days_from_civil(1969, 12, 31), -1);
    assert_eq!(days_from_civil(2000, 1, 1), 10_957);
    assert_eq!(days_from_civil(2000, 3, 1), 11_017);
    assert_eq!(days_from_civil(0, 3, 1), -719_468);
    assert_eq!(days_from_civil(-44, 3, 15), -735_525);
    assert_eq!(civil_from_days(0), (1970, 1, 1));
    assert_eq!(civil_from_days(-1), (1969, 12, 31));
    assert_eq!(civil_from_days(10_957), (2000, 1, 1));
    assert_eq!(civil_from_days(11_016), (2000, 2, 29));
    assert_eq!(civil_from_days(-719_468), (0, 3, 1));
    assert_eq!(civil_from_days(-735_525), (-44, 3, 15));
}

#[test]
fn day_numbers_invert_calendar_dates() {
    for days in (-800_000_i64..800_000).step_by(997) {
        let (year, month, day) = civil_from_days(days);
        assert_eq!(days_from_civil(year, month as u32, day as u32), days);
        assert!(1 <= day && day as u32 <= days_in_month(year as i32, month as u32));
    }
}

#[test]
fn day_numbers_reach_the_ends_of_the_signed_range() {
    assert_eq!(
        days_from_civil(25_000_000_000_000_000, 1, 1),
        9_131_062_499_999_280_472
    );
    assert_eq!(
        days_from_civil(-25_000_000_000_000_000, 3, 1),
        -9_131_062_500_000_719_468
    );
    let latest = i64::MAX - 719_468;
    assert_eq!(civil_from_days(latest), (25_252_734_927_766_554, 9, 25));
    assert_eq!(days_from_civil(25_252_734_927_766_554, 9, 25), latest);
    assert_eq!(civil_from_days(i64::MIN), (-25_252_734_927_764_585, 6, 7));
    assert_eq!(days_from_civil(-25_252_734_927_764_585, 6, 7), i64::MIN);
    for days in [1_000_000_000_000_i64, -1_000_000_000_000, 123_456_789_012_345, i64::MIN / 3] {
        let (year, month, day) = civil_from_days(days);
        assert!(1 <= day && day as u32 <= days_in_month((year % 400) as i32, month as u32));
        assert_eq!(days_from_civil(year, month as u32, day as u32), days);
    }
}
