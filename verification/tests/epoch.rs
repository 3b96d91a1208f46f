use pykep_core::time::epoch::Epoch;

#[test]
fn iso_crops_and_fractional_precision_are_supported() {
    assert_eq!(
        Epoch::from_iso("2064-10").unwrap().to_iso(),
        "2064-10-01T00:00:00.000000"
    );
    assert_eq!(
        Epoch::from_iso("2064-10-17T11:36:21.1").unwrap().to_iso(),
        "2064-10-17T11:36:21.100000"
    );
    let complete = "2064-10-17T11:36:21.121834";
    assert_eq!(Epoch::from_iso(complete).unwrap().to_iso(), complete);
    for &(year, expected) in &[
        (-44, "-0044-03-15T00:00:00.000000"),
        (12_345, "12345-03-15T00:00:00.000000"),
    ] {
        let epoch = Epoch::from_calendar(year, 3, 15, 0, 0, 0, 0, 0).unwrap();
        assert_eq!(epoch.to_iso(), expected);
        assert_eq!(Epoch::from_iso(expected).unwrap(), epoch);
    }
}

#[test]
fn invalid_calendar_values_are_rejected() {
    for text in [
        "2064-10-",
        "2064-02-30",
        "2064/10",
        "2064-10-17 11",
        "2064-10-17T24",
        "2064-10-17T11:36:21.1218343",
    ] {
        assert!(Epoch::from_iso(text).is_err(), "{text}");
    }
    assert!(Epoch::from_calendar(2001, 2, 29, 0, 0, 0, 0, 0).is_err());
}
