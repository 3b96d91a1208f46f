use pykep_core::time::epoch::Epoch;
use pykep_core::PykepError;

const DAY: i64 = 86_400_000_000;

fn range_error() -> PykepError {
    PykepError::InvalidInput {
        parameter: "epoch",
        reason: "value is outside the signed microsecond representation".to_owned(),
    }
}

fn at(microseconds: i64) -> Epoch {
    Epoch::new().checked_add_microseconds(microseconds).unwrap()
}

#[test]
fn reference_epoch_and_calendar_cases() {
    assert_eq!(Epoch::new().to_iso(), "2000-01-01T00:00:00.000000");
    assert_eq!(Epoch::new().microseconds_since_mjd2000(), 0);
    let epoch = Epoch::from_calendar(1980, 10, 17, 11, 36, 21, 121, 841).unwrap();
    assert_eq!(epoch.to_iso(), "1980-10-17T11:36:21.121841");
    assert_eq!(Epoch::from_calendar(2000, 1, 1, 0, 0, 0, 0, 0).unwrap(), Epoch::new());
    assert_eq!(Epoch::default(), Epoch::new());
}

#[test]
fn negative_offsets_keep_microsecond_precision() {
    let value = at(-10_666_598_400_000);
    assert_eq!(value.to_iso(), "1999-08-30T13:03:21.600000");
    assert_eq!(
        Epoch::from_calendar(1999, 8, 30, 13, 3, 21, 600, 0).unwrap(),
        value
    );
    assert_eq!(at(-1).to_iso(), "1999-12-31T23:59:59.999999");
}

#[test]
fn integer_arithmetic_round_trips() {
    let tomorrow = Epoch::new().checked_add_microseconds(DAY).unwrap();
    assert_eq!(tomorrow.to_iso(), "2000-01-02T00:00:00.000000");
    assert_eq!(tomorrow.duration_microseconds_since(Epoch::new()).unwrap(), DAY);
    assert_eq!(Epoch::new().duration_microseconds_since(tomorrow).unwrap(), -DAY);
    assert_eq!(tomorrow.checked_sub_microseconds(DAY).unwrap(), Epoch::new());
    for shift in [1_i64, -1, 123_456_789, -987_654_321_000, DAY * 400] {
        let moved = tomorrow.checked_add_microseconds(shift).unwrap();
        assert_eq!(moved.duration_microseconds_since(tomorrow).unwrap(), shift);
        assert_eq!(moved.checked_sub_microseconds(shift).unwrap(), tomorrow);
    }
}

#[test]
fn arithmetic_outside_the_representation_is_rejected() {
    let latest = at(i64::MAX);
    let earliest = at(i64::MIN);
    assert_eq!(latest.checked_add_microseconds(1), Err(range_error()));
    assert_eq!(earliest.checked_add_microseconds(-1), Err(range_error()));
    assert_eq!(Epoch::new().checked_sub_microseconds(i64::MIN), Err(range_error()));
    assert_eq!(earliest.checked_sub_microseconds(1), Err(range_error()));
    assert_eq!(latest.duration_microseconds_since(earliest), Err(range_error()));
    assert_eq!(earliest.duration_microseconds_since(latest), Err(range_error()));
    assert_eq!(latest.duration_microseconds_since(latest).unwrap(), 0);
}

#[test]
fn clock_readings_are_shifted_to_mjd2000() {
    let y2k: u128 = 946_684_800_000_000;
    assert_eq!(Epoch::from_clock_reading(false, y2k).unwrap(), Epoch::new());
    assert_eq!(
        Epoch::from_clock_reading(false, 0).unwrap().to_iso(),
        "1970-01-01T00:00:00.000000"
    );
    assert_eq!(
        Epoch::from_clock_reading(true, 1)
            .unwrap()
            .microseconds_since_mjd2000(),
        -946_684_800_000_001
    );
    assert_eq!(
        Epoch::from_clock_reading(false, i64::MAX as u128 + 1),
        Err(range_error())
    );
    assert_eq!(
        Epoch::from_clock_reading(true, i64::MAX as u128),
        Err(range_error())
    );
    let now = Epoch::now().unwrap();
    assert!(now.microseconds_since_mjd2000() > 0);
    assert!(now.to_iso().starts_with("20"));
}

#[test]
fn display_and_parse_forms_agree() {
    let epoch = Epoch::from_calendar(2064, 10, 17, 11, 36, 21, 121, 834).unwrap();
    assert_eq!(epoch.to_string(), epoch.to_iso());
    let parsed: Epoch = "2064-10-17T11:36:21.121834".parse().unwrap();
    assert_eq!(parsed, epoch);
    assert!("2064/10".parse::<Epoch>().is_err());
}

#[test]
fn day_count_offsets_are_subtracted() {
    let mjd_offset = 51_544 * DAY;
    assert_eq!(
        Epoch::from_offset_microseconds("mjd", mjd_offset, mjd_offset).unwrap(),
        Epoch::new()
    );
    assert_eq!(
        Epoch::from_offset_microseconds("mjd", mjd_offset + DAY, mjd_offset)
            .unwrap()
            .to_iso(),
        "2000-01-02T00:00:00.000000"
    );
    assert_eq!(
        Epoch::from_offset_microseconds("jd", i64::MIN, 211_813_444_800_000_000),
        Err(PykepError::InvalidInput {
            parameter: "jd",
            reason: "day count is outside the representable epoch range".to_owned(),
        })
    );
}

#[test]
fn epochs_are_ordered_by_their_counts() {
    let earlier = at(-1);
    let later = at(1);
    assert!(earlier < Epoch::new());
    assert!(Epoch::new() < later);
    assert!(earlier <= earlier && earlier >= earlier);
    assert!(later > earlier && !(later < earlier));
    assert_eq!(earlier.partial_cmp(&later), Some(std::cmp::Ordering::Less));
    assert_eq!(later.partial_cmp(&later), Some(std::cmp::Ordering::Equal));
    assert!(at(i64::MIN) < at(i64::MAX));
    let count = later.microseconds_since_mjd2000();
    assert_eq!(Epoch::new().checked_add_microseconds(count), Ok(later));
}
