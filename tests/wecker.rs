use uhr::days::{DayFlags, Weekday};
use uhr::time::{Duration, Uhr};
use uhr::wecker::{Error, Wecker};

const START: i64 = 1_554_041_486; // Sunday 2019-03-31 14:11:26 UTC
const DAY: u64 = 86_400;

#[test]
fn end_to_end_weekly_alarm() {
    let mut w = Wecker::new(START, 4);
    let first = Uhr::from_parts(START + 10, 0, 120);
    assert_eq!(first.into_local_date_time().weekday, Weekday::Sunday);
    assert_eq!(w.insert_alarm(first, DayFlags::sunday()), Ok(()));
    assert!(!w.alarm_ready());
    for step in 1..=10 {
        w.advance(&Duration::from_secs(1));
        assert_eq!(w.alarm_ready(), step == 10, "step {}", step);
    }
    let next = w.next_alarm().unwrap();
    let later = next.next_time().try_duration_since(&first).unwrap();
    assert!(later.as_secs() >= 7 * DAY);
    assert_eq!(later, Duration::from_secs(7 * DAY));
    assert_eq!(next.next_time().into_local_date_time().weekday, Weekday::Sunday);
    assert_eq!(next.repeat(), DayFlags::sunday());
    assert_eq!(w.len(), 1);
}

#[test]
fn capacity_is_enforced() {
    let n = 3;
    let mut w = Wecker::new(START, n);
    for i in 0..n {
        let t = Uhr::from_epoch_seconds(START + 100 + i as i64);
        assert_eq!(w.insert_alarm(t, DayFlags::empty()), Ok(()));
    }
    assert_eq!(w.len(), n);
    let t = Uhr::from_epoch_seconds(START + 1000);
    assert_eq!(w.insert_alarm(t, DayFlags::empty()), Err(Error::AlarmFull));
    assert_eq!(w.len(), n);
    assert_eq!(w.capacity(), n);
}

#[test]
fn zero_capacity_holds_nothing() {
    let mut w = Wecker::new(0, 0);
    assert_eq!(w.insert_alarm(Uhr::from_epoch_seconds(5), DayFlags::empty()), Err(Error::AlarmFull));
}

#[test]
fn recurring_alarm_must_start_on_a_repeat_day() {
    let mut w = Wecker::new(START, 2);
    let sunday = Uhr::from_epoch_seconds(START + 60);
    assert_eq!(w.insert_alarm(sunday, DayFlags::weekdays()), Err(Error::AlarmNotOnRepeat));
    assert_eq!(w.len(), 0);
    assert_eq!(w.insert_alarm(sunday, DayFlags::weekends()), Ok(()));
}

#[test]
fn repeat_day_is_checked_before_room() {
    let mut w = Wecker::new(START, 0);
    let sunday = Uhr::from_epoch_seconds(START + 60);
    assert_eq!(w.insert_alarm(sunday, DayFlags::monday()), Err(Error::AlarmNotOnRepeat));
    assert_eq!(w.insert_alarm(sunday, DayFlags::sunday()), Err(Error::AlarmFull));
}

#[test]
fn one_shot_alarm_fires_once() {
    let mut w = Wecker::new(START, 2);
    w.insert_alarm(Uhr::from_epoch_seconds(START + 5), DayFlags::empty()).unwrap();
    let mut fired = 0;
    for _ in 0..100 {
        w.advance(&Duration::new(0, 500_000_000));
        if w.alarm_ready() {
            fired += 1;
        }
    }
    assert_eq!(fired, 1);
    assert_eq!(w.len(), 0);
    assert!(w.next_alarm().is_none());
}

#[test]
fn due_alarms_all_fire_in_one_poll() {
    let mut w = Wecker::new(START, 4);
    w.insert_alarm(Uhr::from_epoch_seconds(START + 1), DayFlags::empty()).unwrap();
    w.insert_alarm(Uhr::from_epoch_seconds(START + 2), DayFlags::empty()).unwrap();
    w.insert_alarm(Uhr::from_epoch_seconds(START + 50), DayFlags::empty()).unwrap();
    w.advance(&Duration::from_secs(10));
    assert!(w.alarm_ready());
    assert_eq!(w.len(), 1);
    assert_eq!(w.next_alarm().unwrap().next_time().seconds(), START + 50);
    assert!(!w.alarm_ready());
}

#[test]
fn missed_weeks_are_skipped_whole() {
    let mut w = Wecker::new(START, 1);
    let first = Uhr::from_epoch_seconds(START + 60);
    w.insert_alarm(first, DayFlags::sunday()).unwrap();
    w.advance(&Duration::from_secs(21 * DAY + 3600));
    assert!(w.alarm_ready());
    let next = w.next_alarm().unwrap().next_time();
    assert_eq!(next.seconds(), START + 60 + 28 * DAY as i64);
    assert!(next > w.time());
    assert_eq!(next.into_local_date_time().weekday, Weekday::Sunday);
    assert!(!w.alarm_ready());
}

#[test]
fn recurring_alarm_moves_to_next_repeat_day() {
    // Monday 2019-04-01 08:00:00 UTC, on weekdays.
    let monday = 1_554_105_600;
    let mut w = Wecker::new(monday - 1, 1);
    w.insert_alarm(Uhr::from_epoch_seconds(monday), DayFlags::weekdays()).unwrap();
    w.advance(&Duration::from_secs(1));
    assert!(w.alarm_ready());
    let next = w.next_alarm().unwrap().next_time();
    assert_eq!(next.seconds(), monday + DAY as i64);
    assert_eq!(next.into_local_date_time().weekday, Weekday::Tuesday);
}

#[test]
fn alarm_exactly_at_now_fires_and_moves_past_now() {
    let mut w = Wecker::new(START, 1);
    w.insert_alarm(Uhr::from_epoch_seconds(START), DayFlags::sunday()).unwrap();
    w.advance(&Duration::from_secs(7 * DAY));
    assert!(w.alarm_ready());
    let next = w.next_alarm().unwrap().next_time();
    assert!(next > w.time());
    assert_eq!(next.seconds(), START + 14 * DAY as i64);
}

#[test]
fn one_shot_alarms_need_no_calendar() {
    // 2036-12-31 00:00 UTC: a day the calendar conversion cannot place.
    let day = 2_114_294_400;
    let mut w = Wecker::new(day, 2);
    assert!(!w.time().has_local_calendar());
    w.insert_alarm(Uhr::from_epoch_seconds(day + 5), DayFlags::empty()).unwrap();
    assert!(!w.recurring_alarm_due());
    assert!(!w.alarm_ready());
    w.advance(&Duration::from_secs(10));
    assert!(!w.recurring_alarm_due());
    assert!(w.alarm_ready());
    assert_eq!(w.len(), 0);
}

#[test]
fn recurring_alarm_due_only_when_due() {
    let mut w = Wecker::new(START, 2);
    w.insert_alarm(Uhr::from_epoch_seconds(START + 1), DayFlags::empty()).unwrap();
    w.insert_alarm(Uhr::from_epoch_seconds(START + 20), DayFlags::sunday()).unwrap();
    w.advance(&Duration::from_secs(10));
    assert!(!w.recurring_alarm_due());
    w.advance(&Duration::from_secs(10));
    assert!(w.recurring_alarm_due());
    assert!(w.alarm_ready());
    assert!(!w.recurring_alarm_due());
}
