use uhr::time::{Duration, Uhr};
use uhr::winkel::Winkel;

const START: i64 = 1_554_041_486;
const DAY: i64 = 86_400;

#[test]
fn daily_alarm_fires_each_day() {
    let mut w = Winkel::new(START, 2);
    assert_eq!(w.insert_alarm(Uhr::from_epoch_seconds(START + 30)), Ok(()));
    let mut fired = 0;
    for _ in 0..(3 * 24) {
        w.advance(&Duration::from_secs(3600));
        if w.alarm_ready() {
            fired += 1;
        }
    }
    assert_eq!(fired, 3);
    assert_eq!(w.len(), 1);
}

#[test]
fn daily_alarm_skips_missed_days() {
    let mut w = Winkel::new(START, 1);
    w.insert_alarm(Uhr::from_epoch_seconds(START + 30)).unwrap();
    w.advance(&Duration::from_secs(5 * DAY as u64));
    assert!(w.alarm_ready());
    assert!(!w.alarm_ready());
    w.advance(&Duration::from_secs(30));
    assert!(w.alarm_ready());
    assert_eq!(w.time().seconds(), START + 5 * DAY + 30);
}

#[test]
fn daily_alarm_at_now_moves_a_day() {
    let mut w = Winkel::from_clock(Uhr::from_epoch_seconds(START), 1);
    w.insert_alarm(Uhr::from_epoch_seconds(START)).unwrap();
    assert!(w.alarm_ready());
    assert!(!w.alarm_ready());
    w.advance(&Duration::from_secs(DAY as u64 - 1));
    assert!(!w.alarm_ready());
    w.advance(&Duration::from_secs(1));
    assert!(w.alarm_ready());
}

#[test]
fn full_daily_clock_hands_alarm_back() {
    let mut w = Winkel::new(START, 1);
    w.insert_alarm(Uhr::from_epoch_seconds(START + 1)).unwrap();
    let extra = Uhr::from_epoch_seconds(START + 2);
    assert!(w.insert_alarm(extra) == Err(extra));
}
