use battery_drainer::clock::LocalTime;

fn moment(date: (i32, u32, u32), time: (u32, u32, u32), nanosecond: u32) -> LocalTime {
    LocalTime {
        year: date.0,
        month: date.1,
        day: date.2,
        hour: time.0,
        minute: time.1,
        second: time.2,
        nanosecond,
    }
}

fn stamp(year: i32) -> String {
    moment((year, 3, 9), (4, 5, 6), 7).stamp()
}

#[test]
fn clock_time_and_stamp_are_written_with_leading_zeros() {
    let time = moment((2026, 1, 14), (14, 32, 56), 999_999_999);
    assert_eq!(time.clock_time(), "14:32:56");
    assert_eq!(time.stamp(), "20260114_143256");
    let early = moment((7, 2, 3), (0, 4, 5), 0);
    assert_eq!(early.clock_time(), "00:04:05");
    assert_eq!(early.stamp(), "00070203_000405");
}

#[test]
fn years_out_of_four_digits_have_a_sign() {
    assert_eq!(stamp(0), "00000309_040506");
    assert_eq!(stamp(9999), "99990309_040506");
    assert_eq!(stamp(10000), "+100000309_040506");
    assert_eq!(stamp(262142), "+2621420309_040506");
    assert_eq!(stamp(-1), "-00010309_040506");
    assert_eq!(stamp(-262143), "-2621430309_040506");
}

#[test]
fn leap_seconds_are_shown_as_sixty() {
    let time = moment((2016, 12, 31), (23, 59, 59), 1_500_000_000);
    assert!(time.is_valid());
    assert_eq!(time.clock_time(), "23:59:60");
    assert_eq!(time.stamp(), "20161231_235960");
}

#[test]
fn only_moments_that_exist_are_valid() {
    let noon = (12, 0, 0);
    assert!(moment((2026, 1, 31), noon, 0).is_valid());
    assert!(!moment((2026, 4, 31), noon, 0).is_valid());
    assert!(moment((2024, 2, 29), noon, 0).is_valid());
    assert!(!moment((2026, 2, 29), noon, 0).is_valid());
    assert!(!moment((1900, 2, 29), noon, 0).is_valid());
    assert!(moment((2000, 2, 29), noon, 0).is_valid());
    assert!(moment((0, 2, 29), noon, 0).is_valid());
    assert!(moment((-4, 2, 29), noon, 0).is_valid());
    assert!(!moment((-1, 2, 29), noon, 0).is_valid());
    assert!(!moment((2026, 0, 1), noon, 0).is_valid());
    assert!(!moment((2026, 13, 1), noon, 0).is_valid());
    assert!(!moment((2026, 1, 0), noon, 0).is_valid());
    assert!(!moment((262143, 1, 1), noon, 0).is_valid());
    assert!(!moment((-262144, 1, 1), noon, 0).is_valid());
    assert!(!moment((2026, 1, 1), (24, 0, 0), 0).is_valid());
    assert!(!moment((2026, 1, 1), (0, 60, 0), 0).is_valid());
    assert!(!moment((2026, 1, 1), (0, 0, 60), 0).is_valid());
    assert!(!moment((2026, 1, 1), (0, 0, 58), 1_000_000_000).is_valid());
    assert!(moment((2026, 1, 1), (0, 0, 59), 1_999_999_999).is_valid());
    assert!(!moment((2026, 1, 1), (0, 0, 59), 2_000_000_000).is_valid());
}

#[test]
fn every_month_has_its_days() {
    let days = [31, 28, 31, 30, 31, 30, 31, 31, 30, 31, 30, 31];
    for (i, last) in days.iter().enumerate() {
        let month = i as u32 + 1;
        assert!(moment((2026, month, *last), (0, 0, 0), 0).is_valid());
        assert!(!moment((2026, month, last + 1), (0, 0, 0), 0).is_valid());
    }
}

#[test]
fn texts_have_a_fixed_shape() {
    for hour in 0..24 {
        let time = moment((2026, 11, 16), (hour, 59 - hour, 2 * hour), 0);
        let text = time.clock_time();
        assert_eq!(text.len(), 8);
        assert_eq!(&text[2..3], ":");
        assert_eq!(&text[5..6], ":");
        assert_eq!(time.stamp().len(), 15);
        assert_eq!(&time.stamp()[8..9], "_");
    }
}
