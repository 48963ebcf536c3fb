use rust_gallery::timestamp::{Timestamp, MAX_YEAR, MIN_YEAR};

fn at(year: i32, month: u32, day: u32, hour: u32, minute: u32, second: u32) -> Timestamp {
    Timestamp { year, month, day, hour, minute, second, nanosecond: 0 }
}

#[test]
fn epoch_is_the_start_of_1970() {
    assert_eq!(Timestamp::epoch(), at(1970, 1, 1, 0, 0, 0));
    assert!(!Timestamp::epoch().is_resolved());
    assert!(at(1970, 1, 1, 0, 0, 1).is_resolved());
    assert!(Timestamp { nanosecond: 1, ..Timestamp::epoch() }.is_resolved());
    assert!(Timestamp::epoch().is_valid());
}

#[test]
fn earlier_time_comes_before() {
    let t = at(2023, 6, 15, 12, 30, 30);
    assert!(!t.before(&t));
    assert!(at(2022, 12, 31, 23, 59, 59).before(&t));
    assert!(at(2023, 5, 31, 23, 59, 59).before(&t));
    assert!(at(2023, 6, 14, 23, 59, 59).before(&t));
    assert!(at(2023, 6, 15, 11, 59, 59).before(&t));
    assert!(at(2023, 6, 15, 12, 29, 59).before(&t));
    assert!(at(2023, 6, 15, 12, 30, 29).before(&t));
    assert!(t.before(&Timestamp { nanosecond: 1, ..t }));
    assert!(!at(2024, 1, 1, 0, 0, 0).before(&t));
    assert!(at(-5, 1, 1, 0, 0, 0).before(&at(-4, 1, 1, 0, 0, 0)));
}

#[test]
fn days_that_exist_are_valid() {
    assert!(at(2024, 2, 29, 0, 0, 0).is_valid());
    assert!(!at(2023, 2, 29, 0, 0, 0).is_valid());
    assert!(!at(1900, 2, 29, 0, 0, 0).is_valid());
    assert!(at(2000, 2, 29, 0, 0, 0).is_valid());
    assert!(at(-4, 2, 29, 0, 0, 0).is_valid());
    assert!(at(2023, 4, 30, 23, 59, 59).is_valid());
    assert!(!at(2023, 4, 31, 0, 0, 0).is_valid());
    assert!(at(2023, 12, 31, 0, 0, 0).is_valid());
    assert!(!at(2023, 0, 1, 0, 0, 0).is_valid());
    assert!(!at(2023, 13, 1, 0, 0, 0).is_valid());
    assert!(!at(2023, 1, 0, 0, 0, 0).is_valid());
    assert!(!at(2023, 1, 32, 0, 0, 0).is_valid());
}

#[test]
fn times_of_day_that_exist_are_valid() {
    assert!(!at(2023, 1, 1, 24, 0, 0).is_valid());
    assert!(!at(2023, 1, 1, 0, 60, 0).is_valid());
    assert!(!at(2023, 1, 1, 0, 0, 60).is_valid());
    let leap = Timestamp { nanosecond: 1_000_000_000, ..at(2023, 1, 1, 0, 0, 59) };
    assert!(leap.is_valid());
    assert!(!Timestamp { second: 58, ..leap }.is_valid());
    assert!(!Timestamp { nanosecond: 2_000_000_000, ..leap }.is_valid());
    assert!(Timestamp { nanosecond: 999_999_999, ..at(2023, 1, 1, 0, 0, 0) }.is_valid());
}

#[test]
fn years_have_a_range() {
    assert!(at(MAX_YEAR, 12, 31, 0, 0, 0).is_valid());
    assert!(!at(MAX_YEAR + 1, 1, 1, 0, 0, 0).is_valid());
    assert!(at(MIN_YEAR, 1, 1, 0, 0, 0).is_valid());
    assert!(!at(MIN_YEAR - 1, 12, 31, 0, 0, 0).is_valid());
}
