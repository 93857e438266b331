use uhr::time::{Duration, Uhr};

#[test]
fn increment_carries_nanoseconds() {
    let mut t = Uhr::from_parts(10, 900_000_000, 0);
    t.increment(&Duration::new(1, 200_000_000));
    assert_eq!(t.seconds(), 12);
    assert_eq!(t.subsec_nanos(), 100_000_000);
    let u = t.incremented(&Duration::new(0, 900_000_000));
    assert_eq!(u.seconds(), 13);
    assert_eq!(u.subsec_nanos(), 0);
    assert_eq!(t.seconds(), 12);
}

#[test]
fn duration_new_carries_whole_seconds() {
    let d = Duration::new(5, 2_500_000_000);
    assert_eq!(d.as_secs(), 7);
    assert_eq!(d.subsec_nanos(), 500_000_000);
    assert_eq!(Duration::from_secs(3).as_secs(), 3);
    assert_eq!(Duration::from_secs(3).subsec_nanos(), 0);
}

#[test]
fn duration_since_borrows_a_second() {
    let a = Uhr::from_parts(100, 800_000_000, 0);
    let b = Uhr::from_parts(103, 200_000_000, 60);
    let d = b.try_duration_since(&a).unwrap();
    assert_eq!(d, Duration::new(2, 400_000_000));
    assert_eq!(b.duration_since(&a), d);
    assert_eq!(a.try_duration_since(&b), Err(()));
    assert_eq!(a.try_duration_since(&a), Ok(Duration::new(0, 0)));
}

#[test]
fn measure_then_increment_lands_on_later_clock() {
    let a = Uhr::from_parts(-5, 999_999_999, 0);
    let b = Uhr::from_parts(1_554_041_496, 1, 120);
    let d = b.try_duration_since(&a).unwrap();
    assert!(a.incremented(&d) == b);
}

#[test]
fn increment_then_measure_gives_span_back() {
    let t = Uhr::from_parts(1_554_041_486, 750_000_000, 0);
    let d = Duration::new(86_400 * 7, 250_000_001);
    let u = t.incremented(&d);
    assert_eq!(u.try_duration_since(&t), Ok(d));
}

#[test]
fn equality_and_order_ignore_offset() {
    let mut a = Uhr::from_epoch_seconds(1000);
    let b = Uhr::from_epoch_seconds(1000);
    a.set_local_time_zone(-300);
    assert!(a == b);
    assert_eq!(a.offset_minutes(), -300);
    let c = Uhr::from_parts(1000, 1, 0);
    assert!(a < c);
    assert!(c > b);
    assert!(a <= b && a >= b);
}

#[test]
fn local_calendar_of_a_sunday() {
    let mut t = Uhr::from_epoch_seconds(1_554_041_486);
    let utc = t.into_local_date_time();
    assert_eq!((utc.year, utc.month, utc.day), (2019, 3, 31));
    assert_eq!((utc.hour, utc.minute, utc.second), (14, 11, 26));
    assert_eq!(utc.weekday, uhr::days::Weekday::Sunday);
    t.set_local_time_zone(11 * 60);
    let east = t.into_local_date_time();
    assert_eq!((east.year, east.month, east.day), (2019, 4, 1));
    assert_eq!((east.hour, east.minute), (1, 11));
    assert_eq!(east.weekday, uhr::days::Weekday::Monday);
}

#[test]
fn local_calendar_before_the_epoch() {
    let t = Uhr::from_epoch_seconds(-1);
    let local = t.into_local_date_time();
    assert_eq!((local.year, local.month, local.day), (1969, 12, 31));
    assert_eq!((local.hour, local.minute, local.second), (23, 59, 59));
    assert_eq!(local.weekday, uhr::days::Weekday::Wednesday);
}

#[test]
fn local_calendar_availability() {
    assert!(Uhr::from_epoch_seconds(1_554_041_486).has_local_calendar());
    assert!(Uhr::from_epoch_seconds(-1).has_local_calendar());
    // 1972-01-01 and 2036-12-31 (UTC): the calendar conversion cannot place them.
    assert!(!Uhr::from_epoch_seconds(63_072_000).has_local_calendar());
    assert!(!Uhr::from_epoch_seconds(2_114_294_400).has_local_calendar());
    assert!(!Uhr::from_epoch_seconds(2_114_380_800 - 1).has_local_calendar());
    assert!(Uhr::from_epoch_seconds(2_114_294_400 - 1).has_local_calendar());
    assert!(Uhr::from_epoch_seconds(2_114_380_800).has_local_calendar());
    // Shown an hour east, the last second of 1971 is already 1972-01-01.
    let mut t = Uhr::from_epoch_seconds(63_072_000 - 1);
    assert!(t.has_local_calendar());
    t.set_local_time_zone(60);
    assert!(!t.has_local_calendar());
    assert!(!Uhr::from_epoch_seconds(60_000_000_001).has_local_calendar());
}

#[test]
fn local_calendar_dates_of_leap_years() {
    // 2000-02-29 12:00 UTC.
    let t = Uhr::from_epoch_seconds(951_825_600);
    let d = t.into_local_date_time();
    assert_eq!((d.year, d.month, d.day, d.hour), (2000, 2, 29, 12));
    assert_eq!(d.weekday, uhr::days::Weekday::Tuesday);
    // 2036-12-30 23:59:59 UTC, the last second before a day gregor cannot place.
    let e = Uhr::from_epoch_seconds(2_114_294_400 - 1).into_local_date_time();
    assert_eq!((e.year, e.month, e.day), (2036, 12, 30));
    assert_eq!((e.hour, e.minute, e.second), (23, 59, 59));
}
