use std::io::Write;

use dwd_dl::archive::{
    decode_gz, ArchiveFailure, Extension, File, MultiLayerFolder, MultiLayerFolderIter, NameFilter, Step,
};
use dwd_dl::datetime::DateTime;
use dwd_dl::grid::BType;
use dwd_dl::interval::Interval;
use dwd_dl::point::Point;
use dwd_dl::reproc::{hourly_filters, leaf_record, reproc_filters, LeafError};
use dwd_dl::source::stitch;

fn tar_of(entries: &[(String, Vec<u8>)]) -> Vec<u8> {
    let mut builder = tar::Builder::new(Vec::new());
    for (name, data) in entries {
        let mut header = tar::Header::new_gnu();
        header.set_size(data.len() as u64);
        header.set_mode(0o644);
        header.set_cksum();
        builder.append_data(&mut header, name, data.as_slice()).unwrap();
    }
    builder.into_inner().unwrap()
}

fn gzip_of(data: &[u8]) -> Vec<u8> {
    let mut encoder = flate2::write::GzEncoder::new(Vec::new(), flate2::Compression::default());
    encoder.write_all(data).unwrap();
    encoder.finish().unwrap()
}

/// The five-minute files of one day between the given hours, listed in
/// descending order so that the unwrapping has to order them.
fn day_tar(day: &str, from_hour: u32, to_hour: u32) -> Vec<u8> {
    let mut entries = Vec::new();
    for hour in (from_hour..to_hour).rev() {
        for minute in (0..60).step_by(5).rev() {
            let name = format!("raa01-yw2017.002_10000-{}{:02}{:02}-dwd---bin", day, hour, minute);
            entries.push((name, vec![hour as u8, minute as u8]));
        }
    }
    tar_of(&entries)
}

/// A month archive holding three gzip-wrapped day archives.
fn month_archive() -> File {
    let outer = tar_of(&[
        ("YW2017.002_20221127.tar.gz".to_string(), gzip_of(&day_tar("221127", 3, 6))),
        ("YW2017.002_20221125.tar.gz".to_string(), gzip_of(&day_tar("221125", 3, 6))),
        ("YW2017.002_20221126.tgz".to_string(), gzip_of(&day_tar("221126", 3, 6))),
    ]);
    File::new("YW2017.002_202211.tar".to_string(), outer)
}

fn drain(mut iter: MultiLayerFolderIter) -> Vec<File> {
    let mut leaves = Vec::new();
    loop {
        match iter.step().unwrap() {
            Step::Leaf(f) => leaves.push(f),
            Step::Pending => {},
            Step::Finished => return leaves,
        }
    }
}

fn window() -> Interval<DateTime> {
    Interval::new(
        DateTime::from_ymdhm(2022, 11, 26, 4, 0).unwrap(),
        DateTime::from_ymdhm(2022, 11, 26, 5, 0).unwrap(),
    )
    .unwrap()
}

#[test]
fn nested_archive_yields_matching_leaves_in_order() {
    let w = window();
    let filters = vec![NameFilter::Any, NameFilter::DayWithin(w), NameFilter::MinuteWithin(w)];
    let leaves = drain(MultiLayerFolder::new(month_archive(), filters).into_iter());
    assert_eq!(leaves.len(), 12);
    for (k, leaf) in leaves.iter().enumerate() {
        let expected = format!("raa01-yw2017.002_10000-221126{:02}{:02}-dwd---bin", 4, k * 5);
        assert_eq!(leaf.name, expected);
        assert_eq!(leaf.data, vec![4u8, (k * 5) as u8]);
    }
}

#[test]
fn rejecting_filter_yields_nothing() {
    let w = Interval::new(
        DateTime::from_ymdhm(2023, 1, 1, 0, 0).unwrap(),
        DateTime::from_ymdhm(2023, 1, 2, 0, 0).unwrap(),
    )
    .unwrap();
    let filters = vec![NameFilter::Any, NameFilter::DayWithin(w), NameFilter::MinuteWithin(w)];
    let leaves = drain(MultiLayerFolder::new(month_archive(), filters).into_iter());
    assert!(leaves.is_empty());
}

#[test]
fn missing_filter_for_depth_is_an_error() {
    let file = File::new("a.tar".to_string(), tar_of(&[("b.txt".to_string(), vec![1])]));
    let mut iter = MultiLayerFolder::new(file, vec![NameFilter::Any]).into_iter();
    assert!(matches!(iter.step(), Ok(Step::Pending)));
    let err = match iter.step() {
        Err(e) => e,
        Ok(_) => panic!("expected an error"),
    };
    assert_eq!(err.container, "b.txt");
    assert_eq!(err.reason, ArchiveFailure::NoFilterForDepth);
}

#[test]
fn broken_gzip_is_an_error() {
    let file = File::new("x.gz".to_string(), vec![1, 2, 3]);
    let mut iter = MultiLayerFolder::new(file, vec![NameFilter::Any]).into_iter();
    let err = match iter.step() {
        Err(e) => e,
        Ok(_) => panic!("expected an error"),
    };
    assert_eq!(err.reason, ArchiveFailure::Gzip);
}

#[test]
fn gzip_is_decompressed_in_place() {
    let file = File::new("x.txt.gz".to_string(), gzip_of(b"hello"));
    let leaves = drain(MultiLayerFolder::new(file, vec![NameFilter::Any]).into_iter());
    assert_eq!(leaves.len(), 1);
    assert_eq!(leaves[0].name, "x.txt");
    assert_eq!(leaves[0].data, b"hello".to_vec());
}

#[test]
fn extensions_by_name() {
    assert_eq!(File::new("a.gz".to_string(), vec![]).extension(), Extension::Gz);
    assert_eq!(File::new("a.tar".to_string(), vec![]).extension(), Extension::Tar);
    assert_eq!(File::new("a.tgz".to_string(), vec![]).extension(), Extension::Tgz);
    assert_eq!(File::new("a.tar.bz2".to_string(), vec![]).extension(), Extension::Other);
}

#[test]
fn name_filters() {
    let w = window();
    assert!(NameFilter::Any.accepts("anything"));
    assert!(NameFilter::DayWithin(w).accepts("YW2017.002_20221126.tar"));
    assert!(!NameFilter::DayWithin(w).accepts("YW2017.002_20221127.tar"));
    assert!(!NameFilter::DayWithin(w).accepts("no digits"));
    assert!(NameFilter::MinuteWithin(w).accepts("raa01-yw2017.002_10000-2211260455-dwd---bin"));
    assert!(!NameFilter::MinuteWithin(w).accepts("raa01-yw2017.002_10000-2211260500-dwd---bin"));
}

/// A 2 x 3 grid file whose bottom-left cell holds `value`.
fn grid_file(value: u8) -> Vec<u8> {
    let mut file =
        b"YW010000100000117BY0000110VS 3SW   2.18.3PR E-02INT   5U0GP   2x   3MS 05<boo>".to_vec();
    file.push(0x03);
    file.extend_from_slice(&[value, 0, 0, 0, 0, 0, 0, 0, 0, 0, 0, 0]);
    file
}

#[test]
fn reproc_records_from_month_archive() {
    let mut entries = Vec::new();
    for minute in (0..60).step_by(5).rev() {
        let name = format!("raa01-yw2017.002_10000-22112604{:02}-dwd---bin", minute);
        entries.push((name, grid_file(minute as u8)));
    }
    let day = gzip_of(&tar_of(&entries));
    let month = tar_of(&[("YW2017.002_20221126.tar.gz".to_string(), day)]);
    let w = Interval::new(
        DateTime::from_ymdhm(2022, 11, 26, 4, 10).unwrap(),
        DateTime::from_ymdhm(2022, 11, 26, 4, 30).unwrap(),
    )
    .unwrap();
    let file = File::new("YW2017.002_202211.tar".to_string(), month);
    let leaves = drain(MultiLayerFolder::new(file, reproc_filters(w)).into_iter());
    assert_eq!(leaves.len(), 4);
    let points = vec![Point::new(1, 2)];
    let records: Vec<_> = leaves.iter().map(|l| leaf_record(l, &points).unwrap()).collect();
    for (k, r) in records.iter().enumerate() {
        assert_eq!(r.time, DateTime::from_ymdhm(2022, 11, 26, 4, 10 + 5 * k as u8).unwrap());
        assert_eq!(r.precision, 100);
        assert_eq!(r.cells, vec![BType::Normal(10 + 5 * k as u16)]);
    }
    let series = stitch(vec![records], &w);
    assert_eq!(series.len(), 4);
}

#[test]
fn leaf_record_errors() {
    let points = vec![Point::new(1, 1)];
    let unnamed = File::new("grid.bin".to_string(), grid_file(1));
    assert!(matches!(leaf_record(&unnamed, &points), Err(LeafError::NoTimestamp)));
    let broken = File::new("x-2211260400".to_string(), vec![1, 2, 3]);
    assert!(matches!(leaf_record(&broken, &points), Err(LeafError::Read(_))));
    let outside = File::new("x-2211260400".to_string(), grid_file(1));
    assert!(matches!(leaf_record(&outside, &vec![Point::new(4, 1)]), Err(LeafError::Cell(_))));
}

#[test]
fn gzip_round_trip() {
    let packed = gzip_of(b"radar");
    assert_ne!(packed, b"radar".to_vec());
    assert_eq!(decode_gz(&packed), Some(b"radar".to_vec()));
    assert_eq!(decode_gz(b"radar"), None);
}

#[test]
fn hourly_month_archive() {
    let mut entries = Vec::new();
    for hour in 0..6u32 {
        let name = format!("raa01-rw_10000-22112{}{:02}50-dwd---bin", 6, hour);
        entries.push((name, grid_file(hour as u8)));
    }
    let month = tar_of(&entries);
    let w = Interval::new(
        DateTime::from_ymdhm(2022, 11, 26, 2, 0).unwrap(),
        DateTime::from_ymdhm(2022, 11, 26, 4, 0).unwrap(),
    )
    .unwrap();
    let file = File::new("RW-202211.tar".to_string(), month);
    let leaves = drain(MultiLayerFolder::new(file, hourly_filters(w)).into_iter());
    let names: Vec<_> = leaves.iter().map(|l| l.name.clone()).collect();
    assert_eq!(
        names,
        vec!["raa01-rw_10000-2211260250-dwd---bin", "raa01-rw_10000-2211260350-dwd---bin"]
    );
}

#[test]
fn name_filters_read_ascii_digits_only() {
    let w = window();
    assert!(!NameFilter::DayWithin(w).accepts("YW_٢٠٢٢١١٢٦.tar"));
    assert!(!NameFilter::MinuteWithin(w).accepts("raa01-yw-٢٢١١٢٦٠٤٥٥-bin"));
}
