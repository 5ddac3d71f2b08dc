use towl::time::{Date, Timestamp};

#[test]
fn later_is_by_seconds_then_nanoseconds() {
    let t = Timestamp::new(10, 5);
    assert!(t.is_after(&Timestamp::new(9, 999_999_999)));
    assert!(t.is_after(&Timestamp::new(10, 4)));
    assert!(!t.is_after(&Timestamp::new(10, 5)));
    assert!(!t.is_after(&Timestamp::new(10, 6)));
    assert!(!t.is_after(&Timestamp::new(11, 0)));
    assert!(Timestamp::new(0, 0).is_after(&Timestamp::new(-1, 999_999_999)));
    assert!(Timestamp::new(i64::MAX, 0).is_after(&Timestamp::new(i64::MIN, u32::MAX)));
}

#[test]
fn derived_order_agrees_with_is_after() {
    let times = [
        Timestamp::new(-5, 0),
        Timestamp::new(0, 0),
        Timestamp::new(0, 1),
        Timestamp::new(1, 0),
    ];
    for a in &times {
        for b in &times {
            assert_eq!(a.is_after(b), a > b);
        }
    }
}

#[test]
fn day_is_the_calendar_day() {
    let t = Timestamp::new(1_431_648_000, 0);
    assert_eq!(t.day(0), Some(Date { year: 2015, month: 5, day: 15 }));
    assert_eq!(Timestamp::new(0, 0).day(0), Some(Date { year: 1970, month: 1, day: 1 }));
    assert_eq!(Timestamp::new(-1, 0).day(0), Some(Date { year: 1969, month: 12, day: 31 }));
    assert_eq!(
        Timestamp::new(951_782_400, 999).day(0),
        Some(Date { year: 2000, month: 2, day: 29 })
    );
}

#[test]
fn day_goes_by_the_offset_of_the_clock() {
    let last_second = Timestamp::new(1_431_648_000 + 86_399, 0);
    assert_eq!(last_second.day(0), Some(Date { year: 2015, month: 5, day: 15 }));
    assert_eq!(last_second.day(1), Some(Date { year: 2015, month: 5, day: 16 }));
    let midnight = Timestamp::new(1_431_648_000, 0);
    assert_eq!(midnight.day(-1), Some(Date { year: 2015, month: 5, day: 14 }));
    assert_eq!(midnight.day(7200), Some(Date { year: 2015, month: 5, day: 15 }));
}

#[test]
fn day_beyond_the_calendar_is_none() {
    assert_eq!(Timestamp::new(i64::MAX, 0).day(0), None);
    assert_eq!(Timestamp::new(i64::MAX, 0).day(1), None);
    assert_eq!(Timestamp::new(i64::MIN, 0).day(-1), None);
    assert_eq!(Timestamp::new(i64::MIN, 0).day(0), None);
}

#[test]
fn until_day_end_counts_to_one_second_before_midnight() {
    let midnight = 1_431_648_000;
    assert_eq!(Timestamp::new(midnight, 0).until_day_end(0), 86_399);
    assert_eq!(Timestamp::new(midnight + 1, 0).until_day_end(0), 86_398);
    assert_eq!(Timestamp::new(midnight + 86_398, 0).until_day_end(0), 1);
    assert_eq!(Timestamp::new(midnight + 86_399, 0).until_day_end(0), 0);
    assert_eq!(Timestamp::new(midnight + 86_399, 999_999_999).until_day_end(0), 0);
    assert_eq!(Timestamp::new(midnight + 86_400, 0).until_day_end(0), 86_399);
}

#[test]
fn until_day_end_goes_by_the_offset_of_the_clock() {
    let midnight = 1_431_648_000;
    assert_eq!(Timestamp::new(midnight, 0).until_day_end(3600), 82_799);
    assert_eq!(Timestamp::new(midnight, 0).until_day_end(-3600), 3599);
    assert_eq!(Timestamp::new(midnight, 0).until_day_end(-1), 0);
    assert_eq!(Timestamp::new(midnight, 0).until_day_end(86_399), 0);
    assert_eq!(Timestamp::new(midnight, 0).until_day_end(-86_399), 86_398);
}

#[test]
fn until_day_end_before_the_epoch() {
    assert_eq!(Timestamp::new(-1, 0).until_day_end(0), 0);
    assert_eq!(Timestamp::new(-86_400, 0).until_day_end(0), 86_399);
    assert_eq!(Timestamp::new(-86_401, 0).until_day_end(0), 0);
    assert_eq!(Timestamp::new(i64::MIN, 0).until_day_end(0), {
        let shown = i64::MIN.rem_euclid(86_400);
        (86_399 - shown) as u32
    });
    assert_eq!(Timestamp::new(i64::MAX, 0).until_day_end(86_399), {
        let shown = (i64::MAX as i128 + 86_399).rem_euclid(86_400);
        (86_399 - shown) as u32
    });
}
