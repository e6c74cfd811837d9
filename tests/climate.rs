use std::io::Write;

use dwd_dl::climate::{
    climate_data_to_string, extract_timespan, ClimateCommonRequestData, ClimateProduct,
    ClimateRecord, ClimateResolution,
};
use dwd_dl::datetime::{Date, DateTime};
use dwd_dl::interval::{year_month_to_interval, Interval};
use dwd_dl::precipitation;
use dwd_dl::point::{sort_coordinates_x, sort_coordinates_y, Point};
use dwd_dl::source::CommonRequestData;

fn midnight(year: i32, month: u8, day: u8) -> DateTime {
    Date::new(year, month, day).unwrap().midnight()
}

#[test]
fn monthly_line_span() {
    let line = "44;20220301;20220331;10;6.1;eor";
    let span = extract_timespan(line).unwrap();
    assert_eq!(span.start, midnight(2022, 3, 1));
    assert_eq!(span.end, midnight(2022, 3, 31));
    assert!(extract_timespan("44;20220331;20220301;eor").is_err());
    assert!(extract_timespan("44;20220301").is_err());
}

#[test]
fn daily_record_from_line() {
    let line = "4271;20221225;10;5.2;eor";
    let record = ClimateRecord::from_line(line, ClimateResolution::ClimateDaily).unwrap();
    assert_eq!(record.timespan.start, midnight(2022, 12, 25));
    assert_eq!(record.timespan.end, midnight(2022, 12, 25));
    assert_eq!(record.data, line);
    assert!(ClimateRecord::from_line("4271;2022122x", ClimateResolution::ClimateDaily).is_err());
}

#[test]
fn table_with_header() {
    let a = ClimateRecord::from_line("1;20230101;x", ClimateResolution::ClimateDaily).unwrap();
    let b = ClimateRecord::from_line("1;20230102;y", ClimateResolution::ClimateDaily).unwrap();
    let text = climate_data_to_string(vec![a, b], &ClimateResolution::ClimateMonthly);
    let header = ClimateResolution::ClimateMonthly.header();
    assert!(header.starts_with("STATIONS_ID;MESS_DATUM_BEGINN;MESS_DATUM_ENDE;QN_4;MO_N"));
    assert_eq!(text, format!("{}\n1;20230101;x\n1;20230102;y\n", header));
}

#[test]
fn product_download_stitches() {
    let day = |d: u8| {
        ClimateRecord::from_line(&format!("1;202301{:02};x", d), ClimateResolution::ClimateDaily)
            .unwrap()
    };
    let request = ClimateCommonRequestData {
        common: CommonRequestData {
            timespan: Interval::new(midnight(2023, 1, 2), midnight(2023, 1, 5)).unwrap(),
        },
        station: "00044".to_string(),
        resolution: ClimateResolution::ClimateDaily,
    };
    let out = ClimateProduct.download(vec![vec![day(1), day(2), day(3)], vec![day(3), day(4), day(5)]], &request);
    assert_eq!(out, vec![day(2), day(3), day(4)]);
}

#[test]
fn coordinates_sorted_both_ways() {
    let points = vec![Point::new(3, 1), Point::new(1, 2), Point::new(2, 1), Point::new(1, 1)];
    assert_eq!(
        sort_coordinates_y(&points),
        vec![Point::new(1, 1), Point::new(2, 1), Point::new(3, 1), Point::new(1, 2)]
    );
    assert_eq!(
        sort_coordinates_x(&points),
        vec![Point::new(1, 1), Point::new(1, 2), Point::new(2, 1), Point::new(3, 1)]
    );
}

#[test]
fn month_interval_ends_on_the_last_day() {
    let feb = year_month_to_interval(Date::new(2024, 2, 1).unwrap());
    assert_eq!(feb.start, midnight(2024, 2, 1));
    assert_eq!(feb.end, DateTime::new(Date::new(2024, 2, 29).unwrap(), 23, 59, 59, 999_999_999).unwrap());
    let feb = year_month_to_interval(Date::new(2023, 2, 1).unwrap());
    assert_eq!(feb.end.date, Date::new(2023, 2, 28).unwrap());
    let apr = year_month_to_interval(Date::new(2023, 4, 10).unwrap());
    assert_eq!(apr.start, midnight(2023, 4, 10));
    assert_eq!(apr.end.date, Date::new(2023, 4, 30).unwrap());
}

#[test]
fn minute_line_span() {
    let span = precipitation::extract_timespan("20;202201312357;202201312358;0;0.00;eor").unwrap();
    assert_eq!(span.start, DateTime::from_ymdhm(2022, 1, 31, 23, 57).unwrap());
    assert_eq!(span.end, DateTime::from_ymdhm(2022, 1, 31, 23, 58).unwrap());
    assert!(precipitation::extract_timespan("20;202201312358;202201312357;eor").is_err());
    assert!(precipitation::extract_timespan("20;2022013123").is_err());
}

fn zip_of(entries: &[(&str, &str)]) -> Vec<u8> {
    let mut writer = zip::ZipWriter::new(std::io::Cursor::new(Vec::new()));
    for (name, text) in entries {
        writer.start_file(*name, zip::write::FileOptions::default()).unwrap();
        writer.write_all(text.as_bytes()).unwrap();
    }
    writer.finish().unwrap().into_inner()
}

#[test]
fn climate_records_from_station_zip() {
    let table = "STATIONS_ID;MESS_DATUM;QN_3;eor\n4271;20221225;10;eor\n4271;20221226;10;eor\n";
    let archive = zip_of(&[
        ("Metadaten_Geographie_04271.txt", "not the table"),
        ("produkt_klima_tag_20221225_20221226_04271.txt", table),
    ]);
    let bytes = dwd_dl::archive::extract_file(&archive, "produkt").unwrap();
    let text = String::from_utf8(bytes).unwrap();
    assert_eq!(text, table);
    let records: Vec<ClimateRecord> = text
        .lines()
        .skip(1)
        .map(|l| ClimateRecord::from_line(l, ClimateResolution::ClimateDaily).unwrap())
        .collect();
    assert_eq!(records.len(), 2);
    assert_eq!(records[1].timespan.start, midnight(2022, 12, 26));
    assert!(dwd_dl::archive::extract_file(&archive, "missing").is_none());
    assert!(dwd_dl::archive::extract_file(b"not a zip", "produkt").is_none());
}
