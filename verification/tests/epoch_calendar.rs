use pykep_core::time::epoch::Epoch;
use pykep_core::PykepError;

fn invalid(parameter: &'static str, reason: &str) -> PykepError {
    PykepError::InvalidInput {
        parameter,
        reason: reason.to_owned(),
    }
}

#[test]
fn calendar_errors_name_the_first_bad_component() {
    assert_eq!(
        Epoch::from_calendar(40_000, 1, 1, 0, 0, 0, 0, 0),
        Err(invalid("year", "must be in -32767..=32767"))
    );
    assert_eq!(
        Epoch::from_calendar(-32_768, 1, 1, 0, 0, 0, 0, 0),
        Err(invalid("year", "must be in -32767..=32767"))
    );
    assert_eq!(
        Epoch::from_calendar(2000, 13, 40, 0, 0, 0, 0, 0),
        Err(invalid("month", "must be in 1..=12"))
    );
    assert_eq!(
        Epoch::from_calendar(2000, 0, 1, 0, 0, 0, 0, 0),
        Err(invalid("month", "must be in 1..=12"))
    );
    assert_eq!(
        Epoch::from_calendar(2001, 2, 29, 0, 0, 0, 0, 0),
        Err(invalid("day", "must be in 1..=28 for the selected month"))
    );
    assert_eq!(
        Epoch::from_calendar(2000, 4, 0, 0, 0, 0, 0, 0),
        Err(invalid("day", "must be in 1..=30 for the selected month"))
    );
    assert_eq!(
        Epoch::from_calendar(2000, 1, 1, 24, 0, 0, 0, 0),
        Err(invalid("hour", "must be in 0..=23"))
    );
    assert_eq!(
        Epoch::from_calendar(2000, 1, 1, 0, 60, 0, 0, 0),
        Err(invalid("minute", "must be in 0..=59"))
    );
    assert_eq!(
        Epoch::from_calendar(2000, 1, 1, 0, 0, 60, 0, 0),
        Err(invalid("second", "must be in 0..=59"))
    );
    assert_eq!(
        Epoch::from_calendar(2000, 1, 1, 0, 0, 0, 1000, 0),
        Err(invalid("millisecond", "must be in 0..=999"))
    );
    assert_eq!(
        Epoch::from_calendar(2000, 1, 1, 0, 0, 0, 0, 1000),
        Err(invalid("microsecond", "must be in 0..=999"))
    );
}

#[test]
fn leap_boundaries_round_trip_through_iso() {
    for &(year, month, day, expected) in &[
        (1900, 2, 28, "1900-02-28T00:00:00.000000"),
        (2000, 2, 29, "2000-02-29T00:00:00.000000"),
        (2001, 3, 1, "2001-03-01T00:00:00.000000"),
        (2400, 2, 29, "2400-02-29T00:00:00.000000"),
        (-44, 3, 15, "-0044-03-15T00:00:00.000000"),
        (0, 2, 29, "0000-02-29T00:00:00.000000"),
        (32_767, 12, 31, "32767-12-31T00:00:00.000000"),
        (-32_767, 1, 1, "-32767-01-01T00:00:00.000000"),
    ] {
        let epoch = Epoch::from_calendar(year, month, day, 0, 0, 0, 0, 0).unwrap();
        assert_eq!(epoch.to_iso(), expected);
        assert_eq!(Epoch::from_iso(expected).unwrap(), epoch);
    }
    assert!(Epoch::from_calendar(1900, 2, 29, 0, 0, 0, 0, 0).is_err());
    assert!(Epoch::from_calendar(2100, 2, 29, 0, 0, 0, 0, 0).is_err());
}

#[test]
fn iso_text_round_trips_for_representable_instants() {
    for microseconds in [
        0_i64,
        1,
        -1,
        86_399_999_999,
        -86_400_000_000,
        1_234_567_890_123_456,
        -1_234_567_890_123_456,
        i64::MAX / 1_000,
        i64::MIN / 1_000,
    ] {
        let epoch = Epoch::new().checked_add_microseconds(microseconds).unwrap();
        assert_eq!(Epoch::from_iso(&epoch.to_iso()).unwrap(), epoch);
    }
}

#[test]
fn iso_input_errors_are_reported() {
    let iso = invalid(
        "iso",
        "expected YYYY-MM[-DD[THH[:MM[:SS[.ffffff]]]]] with an optional negative and four- or five-digit year",
    );
    for text in [
        "", "2064", "64-10", "123456-01", "2064-1", "2064-10-1", "2064-10-17T1",
        "2064-10-17T11:3", "2064-10-17T11:36:2", "2064-10-17T11:36:21.", "+2064-10",
        "2064-1a", "２064-10", "2064-10-17T11:36:21.1218343",
    ] {
        assert_eq!(Epoch::from_iso(text), Err(iso.clone()), "{text}");
    }
    assert_eq!(
        Epoch::from_iso("2064-02-30"),
        Err(invalid("day", "must be in 1..=29 for the selected month"))
    );
    assert_eq!(
        Epoch::from_iso("2064-13"),
        Err(invalid("month", "must be in 1..=12"))
    );
    assert_eq!(
        Epoch::from_iso("2064-10-17T24"),
        Err(invalid("hour", "must be in 0..=23"))
    );
    assert_eq!(
        Epoch::from_iso("2064-10-17T11:36:21.000999").unwrap(),
        Epoch::from_calendar(2064, 10, 17, 11, 36, 21, 0, 999).unwrap()
    );
    assert_eq!(
        Epoch::from_iso("-0001-12-31T23:59").unwrap(),
        Epoch::from_calendar(-1, 12, 31, 23, 59, 0, 0, 0).unwrap()
    );
}

#[test]
fn earlier_dates_are_earlier_epochs() {
    let cases = [
        ((2000, 12, 31, 23, 59, 59, 999, 999), (2001, 1, 1, 0, 0, 0, 0, 0)),
        ((2024, 2, 29, 23, 0, 0, 0, 0), (2024, 3, 1, 0, 0, 0, 0, 0)),
        ((-1, 12, 31, 12, 0, 0, 0, 0), (0, 1, 1, 0, 0, 0, 0, 0)),
        ((1999, 5, 7, 10, 0, 0, 0, 0), (1999, 5, 8, 9, 0, 0, 0, 0)),
    ];
    for (first, second) in cases {
        let a = Epoch::from_calendar(first.0, first.1, first.2, first.3, first.4, first.5, first.6, first.7)
            .unwrap();
        let b = Epoch::from_calendar(
            second.0, second.1, second.2, second.3, second.4, second.5, second.6, second.7,
        )
        .unwrap();
        assert!(a < b);
        assert!(a.microseconds_since_mjd2000() < b.microseconds_since_mjd2000());
    }
}
