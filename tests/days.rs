use uhr::days::{DayFlags, Weekday};

const ALL_DAYS: [Weekday; 7] = [
    Weekday::Monday,
    Weekday::Tuesday,
    Weekday::Wednesday,
    Weekday::Thursday,
    Weekday::Friday,
    Weekday::Saturday,
    Weekday::Sunday,
];

#[test]
fn days_until_test() {
    assert_eq!(DayFlags::days_after(&DayFlags::friday(), Weekday::Thursday), 1);
    assert_eq!(DayFlags::days_after(&DayFlags::thursday(), Weekday::Friday), 6);
    assert_eq!(DayFlags::days_after(&DayFlags::weekdays(), Weekday::Friday), 3);
    assert_eq!(DayFlags::days_after(&DayFlags::weekends(), Weekday::Sunday), 6);
    assert_eq!(DayFlags::days_after(&DayFlags::thursday(), Weekday::Thursday), 7);
}

#[test]
fn days_after_every_set_and_day() {
    for bits in 1u8..128 {
        let set = DayFlags::from_bits_truncate(bits);
        for today in 0..7usize {
            let got = set.days_after(ALL_DAYS[today]);
            assert!((1..=7).contains(&got));
            let mut expected = 0;
            for k in 1..=7usize {
                if bits & (1 << ((today + k) % 7)) != 0 {
                    expected = k as u32;
                    break;
                }
            }
            assert_eq!(got, expected, "bits {:#09b} today {}", bits, today);
        }
    }
}

#[test]
fn single_day_sets() {
    assert_eq!(DayFlags::monday().bits(), 0b0000_0001);
    assert_eq!(DayFlags::sunday().bits(), 0b0100_0000);
    assert_eq!(DayFlags::weekdays().bits(), 0b0001_1111);
    assert_eq!(DayFlags::weekends().bits(), 0b0110_0000);
    assert_eq!(DayFlags::all().bits(), 0b0111_1111);
    assert_eq!(DayFlags::from_weekday(Weekday::Wednesday), DayFlags::wednesday());
}

#[test]
fn set_operations() {
    assert!(DayFlags::empty().is_empty());
    assert!(!DayFlags::saturday().is_empty());
    assert!(DayFlags::weekends().intersects(DayFlags::sunday()));
    assert!(!DayFlags::weekdays().intersects(DayFlags::weekends()));
    assert!(!DayFlags::empty().intersects(DayFlags::all()));
    let u = DayFlags::monday().union(DayFlags::friday());
    assert_eq!(u.bits(), 0b0001_0001);
    assert!(u.contains_day(Weekday::Friday));
    assert!(!u.contains_day(Weekday::Tuesday));
    assert_eq!(DayFlags::from_bits_truncate(0xFF), DayFlags::all());
}

#[test]
fn weekday_index_round_trip() {
    for i in 0..7u8 {
        assert_eq!(Weekday::from_index(i).to_index(), i);
    }
    assert_eq!(Weekday::Sunday.to_index(), 6);
}
