use rpc::calendar::{day_before, days_in_month, leap_year};
use rpc::clock::UtcTime;

fn parts(t: Option<UtcTime>) -> Option<(i64, u32)> {
    t.map(|t| (t.secs(), t.nanos()))
}

#[test]
fn reading_after_the_epoch() {
    assert_eq!(parts(UtcTime::from_reading(true, 1, 5)), Some((1, 5)));
    assert_eq!(parts(UtcTime::from_reading(true, 0, 0)), Some((0, 0)));
    // Past 2262, where nanosecond timestamps end.
    assert_eq!(
        parts(UtcTime::from_reading(true, 10_428_091_200, 7)),
        Some((10_428_091_200, 7))
    );
}

#[test]
fn reading_before_the_epoch_counts_down_from_it() {
    assert_eq!(parts(UtcTime::from_reading(false, 2, 500_000_000)), Some((-3, 500_000_000)));
    assert_eq!(parts(UtcTime::from_reading(false, 2, 0)), Some((-2, 0)));
}

#[test]
fn reading_out_of_range() {
    assert_eq!(parts(UtcTime::from_reading(true, u64::MAX, 0)), None);
    assert_eq!(parts(UtcTime::from_reading(false, u64::MAX, 1)), None);
    assert_eq!(
        parts(UtcTime::from_reading(true, 8_210_266_876_799, 999_999_999)),
        Some((8_210_266_876_799, 999_999_999))
    );
    assert_eq!(parts(UtcTime::from_reading(true, 8_210_266_876_800, 0)), None);
    assert_eq!(
        parts(UtcTime::from_reading(false, 8_334_601_228_800, 0)),
        Some((-8_334_601_228_800, 0))
    );
    assert_eq!(parts(UtcTime::from_reading(false, 8_334_601_228_800, 1)), None);
    assert_eq!(
        parts(UtcTime::from_reading(false, 8_334_601_228_799, 1)),
        Some((-8_334_601_228_800, 999_999_999))
    );
}

#[test]
fn from_timestamp_holds_what_chrono_holds() {
    for (secs, nanos) in [
        (-8_334_601_228_800i64, 0u32),
        (8_210_266_876_799, 999_999_999),
        (0, 0),
        (-1, 5),
    ] {
        assert!(UtcTime::from_timestamp(secs, nanos).is_some());
        assert!(chrono::DateTime::from_timestamp(secs, nanos).is_some());
    }
    for (secs, nanos) in [(-8_334_601_228_801i64, 0u32), (8_210_266_876_800, 0)] {
        assert!(UtcTime::from_timestamp(secs, nanos).is_none());
        assert!(chrono::DateTime::from_timestamp(secs, nanos).is_none());
    }
    assert!(UtcTime::from_timestamp(0, 1_000_000_000).is_none());
}

#[test]
fn now_reads_the_clock() {
    let t = UtcTime::now().unwrap();
    // 2023-01-01T00:00:00Z, well before any run of these tests.
    assert!(t.secs() >= 1672531200);
    assert!(t.nanos() < 1_000_000_000);
}

#[test]
fn epoch_is_zero() {
    assert_eq!((UtcTime::epoch().secs(), UtcTime::epoch().nanos()), (0, 0));
}

#[test]
fn leap_years() {
    assert!(leap_year(2024));
    assert!(!leap_year(2023));
    assert!(!leap_year(1900));
    assert!(leap_year(2000));
    assert!(leap_year(-4));
    assert!(!leap_year(-100));
}

#[test]
fn month_lengths() {
    assert_eq!(days_in_month(2024, 2), 29);
    assert_eq!(days_in_month(2023, 2), 28);
    assert_eq!(days_in_month(2023, 4), 30);
    assert_eq!(days_in_month(2023, 12), 31);
}

#[test]
fn previous_days() {
    assert_eq!(day_before(2023, 4, 1), (2023, 3, 31));
    assert_eq!(day_before(2024, 3, 1), (2024, 2, 29));
    assert_eq!(day_before(2023, 3, 1), (2023, 2, 28));
    assert_eq!(day_before(2023, 1, 1), (2022, 12, 31));
    assert_eq!(day_before(2023, 5, 17), (2023, 5, 16));
}
