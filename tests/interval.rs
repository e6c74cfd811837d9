use dwd_dl::datetime::{Date, DateTime};
use dwd_dl::interval::{Interval, Overlaps};

fn day(year: i32, month: u8, day: u8) -> Date {
    Date::new(year, month, day).unwrap()
}

fn at(year: i32, month: u8, d: u8, hour: u8, minute: u8) -> DateTime {
    DateTime::from_ymdhm(year, month, d, hour, minute).unwrap()
}

#[test]
fn test_contains() {
    let date = day(2022, 11, 26);
    let interval = Interval::new(day(2022, 11, 26), day(2022, 11, 26)).unwrap();
    let res = interval.contains(&date);
    assert!(!res);

    let interval = Interval::new(day(2022, 11, 26), day(2022, 11, 27)).unwrap();
    let res = interval.contains(&date);
    assert!(res);
}

#[test]
fn interval_new_orders_its_ends() {
    assert!(Interval::new(day(2022, 1, 1), day(2022, 1, 1)).is_ok());
    assert!(Interval::new(day(2022, 1, 1), day(2022, 1, 2)).is_ok());
    assert_eq!(Interval::new(day(2022, 1, 2), day(2022, 1, 1)), Err(()));
    assert_eq!(Interval::new(at(2022, 1, 1, 10, 1), at(2022, 1, 1, 10, 0)), Err(()));
    let i = Interval::new(at(2021, 12, 31, 23, 59), at(2022, 1, 1, 0, 0)).unwrap();
    assert_eq!(*i.start(), at(2021, 12, 31, 23, 59));
    assert_eq!(*i.end(), at(2022, 1, 1, 0, 0));
}

#[test]
fn contains_is_half_open() {
    let i = Interval::new(at(2022, 1, 1, 0, 0), at(2022, 1, 2, 0, 0)).unwrap();
    assert!(i.contains(&at(2022, 1, 1, 0, 0)));
    assert!(i.contains(&at(2022, 1, 1, 23, 59)));
    assert!(!i.contains(&at(2022, 1, 2, 0, 0)));
    assert!(!i.contains(&at(2021, 12, 31, 23, 59)));
}

#[test]
fn overlaps_same_and_mixed_granularity() {
    let a = Interval::new(day(2022, 1, 1), day(2022, 1, 15)).unwrap();
    let b = Interval::new(day(2022, 1, 15), day(2022, 1, 20)).unwrap();
    let c = Interval::new(day(2022, 1, 16), day(2022, 1, 20)).unwrap();
    assert!(a.overlaps(&b));
    assert!(!a.overlaps(&c));
    assert!(a.before(&c));
    assert!(c.after(&a));

    let w = Interval::new(at(2022, 1, 15, 23, 0), at(2022, 1, 16, 1, 0)).unwrap();
    assert!(w.overlaps(&a));
    assert!(w.overlaps(&c));
    assert!(a.overlaps(&w));
    let later = Interval::new(at(2022, 1, 21, 0, 0), at(2022, 1, 22, 0, 0)).unwrap();
    assert!(later.after(&c));
    assert!(!later.overlaps(&c));
}

#[test]
fn date_interval_to_date_times() {
    let a = Interval::new(day(2022, 1, 1), day(2022, 1, 2)).unwrap();
    let t = a.to_date_times();
    assert_eq!(t.start, at(2022, 1, 1, 0, 0));
    assert_eq!(t.end, DateTime::new(day(2022, 1, 2), 23, 59, 59, 999_999_999).unwrap());
}

#[test]
fn calendar_validity() {
    assert!(Date::new(2024, 2, 29).is_some());
    assert!(Date::new(2023, 2, 29).is_none());
    assert!(Date::new(1900, 2, 29).is_none());
    assert!(Date::new(2000, 2, 29).is_some());
    assert!(Date::new(2022, 4, 31).is_none());
    assert!(Date::new(2022, 13, 1).is_none());
    assert!(Date::new(2022, 1, 0).is_none());
    assert!(DateTime::from_ymdhm(2022, 1, 1, 24, 0).is_none());
    assert!(DateTime::from_ymdhm(2022, 1, 1, 23, 60).is_none());
}
