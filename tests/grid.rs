use dwd_dl::grid::{
    offset_bottom_left_1_1, parse, BType, GridError, Quotient, Radolan, RadolanFile,
    RadolanReadError,
};
use dwd_dl::header::{HeaderField, HeaderParseError};
use dwd_dl::point::Point;

#[test]
fn test_error() {
    let data = [0b1100_0100, 0b0010_1001];
    let res = parse(&data);
    assert_eq!(res, Ok(BType::Error(2500)));
}

#[test]
fn cell_flags() {
    assert_eq!(parse(&[0x34, 0x02]), Ok(BType::Normal(0x234)));
    assert_eq!(parse(&[0xff, 0x1f]), Ok(BType::Interpolated(4095)));
    assert_eq!(parse(&[0x01, 0x40]), Ok(BType::Neg(1)));
    assert_eq!(parse(&[0x00, 0x80]), Ok(BType::Scope(0)));
    assert_eq!(
        parse(&[0x10, 0x31]),
        Err(GridError::UnknownCellFlag { nibble: 3, magnitude: 0x110 })
    );
}

#[test]
fn physical_values() {
    assert_eq!(
        BType::Normal(2500).physical_value(100),
        Quotient { numerator: 2500, denominator: 100 }
    );
    assert_eq!(
        BType::Neg(25).physical_value(10),
        Quotient { numerator: -25, denominator: 10 }
    );
    assert_eq!(
        BType::Error(2500).physical_value(10),
        Quotient { numerator: -9, denominator: 1 }
    );
    assert_eq!(
        BType::Scope(7).physical_value(1),
        Quotient { numerator: 7, denominator: 1 }
    );
}

#[test]
fn test_parse_file() {
    let mut grid = Vec::new();
    (1..=18).for_each(|n| grid.push(n));
    let idx = offset_bottom_left_1_1(1, 1, 3, 6);
    assert_eq!(grid[idx], 13);
    let idx = offset_bottom_left_1_1(6, 3, 3, 6);
    assert_eq!(grid[idx], 6);
    let idx = offset_bottom_left_1_1(1, 2, 3, 6);
    assert_eq!(grid[idx], 7);
}

const SMALL_HEADER: &str =
    "RW010050100000322BY0000110VS 3SW   2.18.3PR E-01INT  60U0GP   2x   3MS 05<boo>";

/// A 2 x 3 grid whose cells, stored from the bottom-left cell, hold 1 to 6 in
/// tenths, the third one flagged negative and the fifth one in error.
fn small_file() -> Vec<u8> {
    let mut file = SMALL_HEADER.as_bytes().to_vec();
    file.push(0x03);
    let cells: [[u8; 2]; 6] = [
        [1, 0x00],
        [2, 0x00],
        [3, 0x40],
        [4, 0x10],
        [5, 0x20],
        [6, 0x80],
    ];
    for c in cells.iter() {
        file.extend_from_slice(c);
    }
    file
}

#[test]
fn radolan_reads_header_and_points() {
    let file = small_file();
    let radolan = Radolan::new(&file).unwrap();
    assert_eq!(radolan.header().dimension.rows, 2);
    assert_eq!(radolan.header().precision, 10);
    // row 0 is the top row, which is stored second
    assert_eq!(radolan.get_point(0, 0), Ok(BType::Interpolated(4)));
    assert_eq!(radolan.get_point(0, 1), Ok(BType::Error(5)));
    assert_eq!(radolan.get_point(0, 2), Ok(BType::Scope(6)));
    assert_eq!(radolan.get_point(1, 0), Ok(BType::Normal(1)));
    assert_eq!(radolan.get_point(1, 2), Ok(BType::Neg(3)));
    assert_eq!(
        radolan.get_point(2, 0),
        Err(GridError::CoordinateOutOfRange { row: 2, column: 0 })
    );
    assert_eq!(
        radolan.get_point(0, 3),
        Err(GridError::CoordinateOutOfRange { row: 0, column: 3 })
    );
}

#[test]
fn radolan_end_to_end_physical_values() {
    let file = small_file();
    let radolan = Radolan::new(&file).unwrap();
    let precision = radolan.header().precision;
    let expected: [[f32; 3]; 2] = [[0.4, -9.0, 0.6], [0.1, 0.2, -0.3]];
    for row in 0..2u16 {
        for column in 0..3u16 {
            let q = radolan.get_point(row, column).unwrap().physical_value(precision);
            let value = q.numerator as f32 / q.denominator as f32;
            let want = expected[row as usize][column as usize];
            assert!((value - want).abs() < 0.05, "{} {} {} {}", row, column, value, want);
        }
    }
}

#[test]
fn radolan_truncated_payload() {
    let mut file = small_file();
    file.truncate(file.len() - 2);
    let radolan = Radolan::new(&file).unwrap();
    assert_eq!(
        radolan.get_point(0, 2),
        Err(GridError::TruncatedPayload { row: 0, column: 2 })
    );
    assert_eq!(radolan.get_point(1, 0), Ok(BType::Normal(1)));
}

#[test]
fn radolan_read_errors() {
    assert!(matches!(
        Radolan::new(SMALL_HEADER.as_bytes()),
        Err(RadolanReadError::EndOfTextMissing)
    ));
    let mut bad = vec![0xff, 0xfe];
    bad.push(0x03);
    assert!(matches!(Radolan::new(&bad), Err(RadolanReadError::Utf8Error)));
    let mut short = b"RW01".to_vec();
    short.push(0x03);
    assert!(matches!(
        Radolan::new(&short),
        Err(RadolanReadError::HeaderParseError(HeaderParseError::Grammar(
            HeaderField::Timestamp
        )))
    ));
}

#[test]
fn radolan_file_extracts_points() {
    let file = small_file();
    let radolan = RadolanFile::new(&file).unwrap();
    assert_eq!(radolan.data.len(), 12);
    let points = vec![Point::new(1, 1), Point::new(3, 2), Point::new(2, 1)];
    // the payload is read as if stored from the top-left cell
    let cells = radolan.extract_points(&points).unwrap();
    assert_eq!(
        cells,
        vec![
            (Point::new(1, 1), BType::Interpolated(4)),
            (Point::new(3, 2), BType::Neg(3)),
            (Point::new(2, 1), BType::Error(5)),
        ]
    );
    assert_eq!(
        radolan.extract_points(&vec![Point::new(0, 1)]),
        Err(GridError::CoordinateOutOfRange { row: 1, column: 0 })
    );
}
