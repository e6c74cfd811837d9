use dwd_dl::datetime::{Date, DateTime};
use dwd_dl::interval::Interval;
use dwd_dl::timefmt::{
    format_date_american, format_date_iso, format_time_colon, format_time_iso,
    format_yyyymmddhhmm, parse_yyyymm, parse_yyyymmdd, parse_yyyymmdd_into_date_time,
    parse_yyyymmddhh, parse_yyyymmddhhmm,
};

fn at(year: i32, month: u8, d: u8, hour: u8, minute: u8) -> DateTime {
    DateTime::from_ymdhm(year, month, d, hour, minute).unwrap()
}

#[test]
fn parses_compact_dates() {
    assert_eq!(parse_yyyymm("202211"), Ok(Date::new(2022, 11, 1).unwrap()));
    assert_eq!(parse_yyyymm("202213"), Err(()));
    assert_eq!(parse_yyyymmdd("20221126"), Ok(Date::new(2022, 11, 26).unwrap()));
    assert_eq!(parse_yyyymmdd("20221131"), Err(()));
    assert_eq!(parse_yyyymmdd("2022112"), Err(()));
    assert_eq!(parse_yyyymmdd("2022112a"), Err(()));
    assert_eq!(parse_yyyymmdd_into_date_time("20221126"), Ok(at(2022, 11, 26, 0, 0)));
    assert_eq!(parse_yyyymmddhhmm("202211260455"), Ok(at(2022, 11, 26, 4, 55)));
    assert_eq!(parse_yyyymmddhhmm("202211262460"), Err(()));
    assert_eq!(parse_yyyymmddhh("2022112623"), Ok(at(2022, 11, 26, 23, 0)));
    assert_eq!(parse_yyyymmddhh("202211262300"), Err(()));
}

#[test]
fn formats_compact_dates() {
    let t = at(2023, 1, 2, 3, 4);
    assert_eq!(format_yyyymmddhhmm(t), "202301020304");
    assert_eq!(format_time_colon(t), "03:04");
    assert_eq!(format_date_american(t), "01/02/2023");
    assert_eq!(format_date_iso(t.date), "2023-01-02");
    assert_eq!(format_time_iso(t), "03:04");
    assert_eq!(format_date_iso(Date::new(987, 12, 31).unwrap()), "0987-12-31");
}

#[test]
fn parses_interval_texts() {
    let i = Interval::<DateTime>::parse_str("202211260400", "202211260500").unwrap();
    assert_eq!(i.start, at(2022, 11, 26, 4, 0));
    assert_eq!(i.end, at(2022, 11, 26, 5, 0));
    assert!(Interval::<DateTime>::parse_str("202211260500", "202211260400").is_err());
    let d = Interval::<Date>::parse_str("20221125", "20221127").unwrap();
    assert_eq!(d.end, Date::new(2022, 11, 27).unwrap());
    assert!(Interval::<Date>::parse_str("20221125", "x").is_err());
}

#[test]
fn stamp_round_trip() {
    for t in [at(2022, 11, 26, 4, 55), at(2000, 1, 1, 0, 0), at(987, 12, 31, 23, 59)] {
        assert_eq!(parse_yyyymmddhhmm(&format_yyyymmddhhmm(t)), Ok(t));
    }
}
