use policy::calendar::{civil_from_days, epoch_to_iso8601};

#[test]
fn epoch_formatting() {
    assert_eq!(epoch_to_iso8601(0), "1970-01-01T00:00:00Z");
    assert_eq!(epoch_to_iso8601(1_704_067_200), "2024-01-01T00:00:00Z");
    assert_eq!(epoch_to_iso8601(1_748_736_000), "2025-06-01T00:00:00Z");
}

#[test]
fn times_before_the_epoch() {
    assert_eq!(epoch_to_iso8601(-1), "1969-12-31T23:59:59Z");
    assert_eq!(epoch_to_iso8601(-86_400), "1969-12-31T00:00:00Z");
    assert_eq!(epoch_to_iso8601(-62_167_219_200), "0000-01-01T00:00:00Z");
    assert_eq!(epoch_to_iso8601(-62_167_219_201), "-001-12-31T23:59:59Z");
}

#[test]
fn leap_days() {
    assert_eq!(epoch_to_iso8601(951_782_400), "2000-02-29T00:00:00Z");
    assert_eq!(epoch_to_iso8601(1_709_251_199), "2024-02-29T23:59:59Z");
    assert_eq!(epoch_to_iso8601(1_709_251_200), "2024-03-01T00:00:00Z");
    assert_eq!(epoch_to_iso8601(4_107_542_399), "2100-02-28T23:59:59Z");
    assert_eq!(epoch_to_iso8601(4_107_542_400), "2100-03-01T00:00:00Z");
}

#[test]
fn years_of_more_than_four_digits() {
    assert_eq!(epoch_to_iso8601(253_402_300_799), "9999-12-31T23:59:59Z");
    assert_eq!(epoch_to_iso8601(253_402_300_800), "10000-01-01T00:00:00Z");
    assert_eq!(epoch_to_iso8601(i64::MAX), "292277026596-12-04T15:30:07Z");
    assert_eq!(epoch_to_iso8601(i64::MIN), "-292277022657-01-27T08:29:52Z");
}

#[test]
fn dates_of_days() {
    assert_eq!(civil_from_days(0), (1970, 1, 1));
    assert_eq!(civil_from_days(-1), (1969, 12, 31));
    assert_eq!(civil_from_days(-719_468), (0, 3, 1));
    assert_eq!(civil_from_days(-719_469), (0, 2, 29));
    assert_eq!(civil_from_days(19_723), (2024, 1, 1));
}

#[test]
fn later_times_sort_behind_earlier_ones() {
    let mut epoch: i64 = -62_167_219_200;
    let mut before = epoch_to_iso8601(epoch);
    while epoch <= 253_402_300_799 - 31_999_983 {
        epoch += 31_999_983;
        let text = epoch_to_iso8601(epoch);
        assert_eq!(text.len(), 20);
        assert!(before < text);
        before = text;
    }
}
