use dwd_dl::datetime::{Date, DateTime};
use dwd_dl::interval::Interval;
use dwd_dl::source::{select_candidates, stitch, Stitcher, UrlTimeIntervall};

fn day(d: u8) -> Date {
    Date::new(2022, 1, d).unwrap()
}

/// A record covering the whole of day `d` of January 2022.
fn daily(d: u8) -> Interval<DateTime> {
    Interval::new(day(d).midnight(), day(d).last_instant()).unwrap()
}

fn days(from: u8, to: u8) -> Vec<Interval<DateTime>> {
    (from..=to).map(daily).collect()
}

fn window() -> Interval<DateTime> {
    Interval::new(day(1).midnight(), day(20).midnight()).unwrap()
}

#[test]
fn two_buckets_stitch_without_duplicates() {
    let w = window();
    let candidates = vec![
        UrlTimeIntervall {
            url: "historical/a".to_string(),
            interval: Some(Interval::new(day(1), day(15)).unwrap().to_date_times()),
        },
        UrlTimeIntervall { url: "now/b".to_string(), interval: None },
        UrlTimeIntervall {
            url: "historical/old".to_string(),
            interval: Some(Interval::new(Date::new(2021, 1, 1).unwrap(), Date::new(2021, 12, 31).unwrap()).unwrap().to_date_times()),
        },
    ];
    assert_eq!(select_candidates(&candidates, &w), vec![0, 1]);

    let records = stitch(vec![days(1, 15), days(10, 31)], &w);
    assert_eq!(records.len(), 19);
    for (k, r) in records.iter().enumerate() {
        assert_eq!(*r, daily(k as u8 + 1));
    }
}

#[test]
fn stitcher_stops_once_the_window_is_covered() {
    let w = window();
    let mut st = Stitcher::new();
    assert!(!st.is_done(&w));
    st.append(days(1, 25), &w);
    assert_eq!(st.records.len(), 19);
    // the last record taken starts on the 19th and ends before the 20th
    assert!(!st.is_done(&w));
    let long = Interval::new(day(19).midnight(), day(21).midnight()).unwrap();
    let mut st2 = Stitcher::new();
    st2.append(vec![long], &w);
    assert!(st2.is_done(&w));
    st2.append(days(1, 5), &w);
    assert_eq!(st2.records.len(), 1);
}

#[test]
fn records_before_the_window_are_dropped() {
    let w = Interval::new(day(5).midnight(), day(8).midnight()).unwrap();
    let records = stitch(vec![days(1, 10)], &w);
    assert_eq!(records, days(5, 7));
    let empty = stitch(vec![Vec::new(), days(6, 6)], &w);
    assert_eq!(empty, days(6, 6));
}
