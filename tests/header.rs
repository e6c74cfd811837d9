use dwd_dl::datetime::{Date, DateTime};
use dwd_dl::header::{Dimension, Header, HeaderField, HeaderParseError, Produktkennung};

fn stamp(year: i32, month: u8, day: u8, hour: u8, minute: u8) -> DateTime {
    DateTime::new(Date::new(year, month, day).unwrap(), hour, minute, 0, 0).unwrap()
}

#[test]
fn header_yw() {
    let input = "YW010000100000117BY1980164VS 3SW   2.18.3PR E-02INT   5U0GP1100x 900MF 00000000VR2017.002MS 69<boo,ros,emd,hnr,umd,pro,ess,fld,drs,neu,nhb,oft,eis,tur,isn,fbg,mem>";
    let header = Header::new(input).unwrap();
    assert_eq!(
        header,
        Header {
        produktkennung: Produktkennung::YW,
        datetime: stamp(2017, 1, 1, 0, 0),
        location: "10000".to_string(),
        product_length: 1980164,
        format_version: "3".to_string(),
        software_version: "2.18.3".to_string(),
        precision: 100,
        interval_duration: 5,
        unit: Some(0),
        dimension: Dimension {
            rows: 1100,
            columns: 900
        },
        binary_representation: Some(0),
        radar_locations: vec![
            "boo".to_string(),
            "ros".to_string(),
            "emd".to_string(),
            "hnr".to_string(),
            "umd".to_string(),
            "pro".to_string(),
            "ess".to_string(),
            "fld".to_string(),
            "drs".to_string(),
            "neu".to_string(),
            "nhb".to_string(),
            "oft".to_string(),
            "eis".to_string(),
            "tur".to_string(),
            "isn".to_string(),
            "fbg".to_string(),
            "mem".to_string()
        ],
        radar_location_contributions: None
    }
    );
}

#[test]
fn header_rw() {
    let input = "RW010050100000322BY1980160VS 3SW   2.18.3PR E-01INT  60U0GP1100x 900MF 00000001VR2017.002MS 65<boo,ros,hnr,umd,pro,ess,fld,drs,neu,nhb,oft,eis,tur,isn,fbg,mem>";
    let header = Header::new(input).unwrap();
    assert_eq!(
        header,
        Header {
        produktkennung: Produktkennung::RW,
        datetime: stamp(2022, 3, 1, 0, 50),
        location: "10000".to_string(),
        product_length: 1980160,
        format_version: "3".to_string(),
        software_version: "2.18.3".to_string(),
        precision: 10,
        interval_duration: 60,
        unit: Some(0),
        dimension: Dimension {
            rows: 1100,
            columns: 900
        },
        binary_representation: Some(1),
        radar_locations: vec![
            "boo".to_string(),
            "ros".to_string(),
            "hnr".to_string(),
            "umd".to_string(),
            "pro".to_string(),
            "ess".to_string(),
            "fld".to_string(),
            "drs".to_string(),
            "neu".to_string(),
            "nhb".to_string(),
            "oft".to_string(),
            "eis".to_string(),
            "tur".to_string(),
            "isn".to_string(),
            "fbg".to_string(),
            "mem".to_string()
        ],
        radar_location_contributions: None
    }
    );
}

#[test]
fn header_sf() {
    let input = "SF010050100000119BY1620267VS 3SW   2.21.0PR E-01INT1440GP 900x 900MS 70<asb,boo,ros,hnr,umd,pro,ess,fld,drs,neu,nhb,oft,eis,tur,isn,fbg,mem> ST120<asb 24,boo 24,drs 24,eis 24,ess 24,fbg 24,fld 24,hnr 24,isn 24,mem 24,neu 24,nhb 24,oft 24,pro 24,ros 24,tur 24,umd 24>";
    let header = Header::new(input).unwrap();
    assert_eq!(
        header,
        Header {
        produktkennung: Produktkennung::SF,
        datetime: stamp(2019, 1, 1, 0, 50),
        location: "10000".to_string(),
        product_length: 1620267,
        format_version: "3".to_string(),
        software_version: "2.21.0".to_string(),
        precision: 10,
        interval_duration: 1440,
        unit: None,
        dimension: Dimension {
            rows: 900,
            columns: 900
        },
        binary_representation: None,
        radar_locations: vec![
            "asb".to_string(),
            "boo".to_string(),
            "ros".to_string(),
            "hnr".to_string(),
            "umd".to_string(),
            "pro".to_string(),
            "ess".to_string(),
            "fld".to_string(),
            "drs".to_string(),
            "neu".to_string(),
            "nhb".to_string(),
            "oft".to_string(),
            "eis".to_string(),
            "tur".to_string(),
            "isn".to_string(),
            "fbg".to_string(),
            "mem".to_string()
        ],
        radar_location_contributions: Some(vec![
            ("asb".to_string(), 24),
            ("boo".to_string(), 24),
            ("drs".to_string(), 24),
            ("eis".to_string(), 24),
            ("ess".to_string(), 24),
            ("fbg".to_string(), 24),
            ("fld".to_string(), 24),
            ("hnr".to_string(), 24),
            ("isn".to_string(), 24),
            ("mem".to_string(), 24),
            ("neu".to_string(), 24),
            ("nhb".to_string(), 24),
            ("oft".to_string(), 24),
            ("pro".to_string(), 24),
            ("ros".to_string(), 24),
            ("tur".to_string(), 24),
            ("umd".to_string(), 24)
        ])
    }
    );
}

#[test]
fn decode_yw() {
    let input = "YW010000100000117BY1980164VS 3SW   2.18.3PR E-02INT   5U0GP1100x 900MF 00000000VR2017.002MS 69<boo,ros,emd,hnr,umd,pro,ess,fld,drs,neu,nhb,oft,eis,tur,isn,fbg,mem>";
    let header = Header::new(input).unwrap();
    assert_eq!(
        header,
        Header {
        produktkennung: Produktkennung::YW,
        datetime: stamp(2017, 1, 1, 0, 0),
        location: "10000".to_string(),
        product_length: 1980164,
        format_version: "3".to_string(),
        software_version: "2.18.3".to_string(),
        precision: 100,
        interval_duration: 5,
        unit: Some(0),
        dimension: Dimension {
            rows: 1100,
            columns: 900
        },
        binary_representation: Some(0),
        radar_locations: vec![
            "boo".to_string(),
            "ros".to_string(),
            "emd".to_string(),
            "hnr".to_string(),
            "umd".to_string(),
            "pro".to_string(),
            "ess".to_string(),
            "fld".to_string(),
            "drs".to_string(),
            "neu".to_string(),
            "nhb".to_string(),
            "oft".to_string(),
            "eis".to_string(),
            "tur".to_string(),
            "isn".to_string(),
            "fbg".to_string(),
            "mem".to_string()
        ],
        radar_location_contributions: None
    }
    );
}

#[test]
fn decode_rw() {
    let input = "RW010050100000322BY1980160VS 3SW   2.18.3PR E-01INT  60U0GP1100x 900MF 00000001VR2017.002MS 65<boo,ros,hnr,umd,pro,ess,fld,drs,neu,nhb,oft,eis,tur,isn,fbg,mem>";
    let header = Header::new(input).unwrap();
    assert_eq!(
        header,
        Header {
        produktkennung: Produktkennung::RW,
        datetime: stamp(2022, 3, 1, 0, 50),
        location: "10000".to_string(),
        product_length: 1980160,
        format_version: "3".to_string(),
        software_version: "2.18.3".to_string(),
        precision: 10,
        interval_duration: 60,
        unit: Some(0),
        dimension: Dimension {
            rows: 1100,
            columns: 900
        },
        binary_representation: Some(1),
        radar_locations: vec![
            "boo".to_string(),
            "ros".to_string(),
            "hnr".to_string(),
            "umd".to_string(),
            "pro".to_string(),
            "ess".to_string(),
            "fld".to_string(),
            "drs".to_string(),
            "neu".to_string(),
            "nhb".to_string(),
            "oft".to_string(),
            "eis".to_string(),
            "tur".to_string(),
            "isn".to_string(),
            "fbg".to_string(),
            "mem".to_string()
        ],
        radar_location_contributions: None
    }
    );
}

#[test]
fn decode_sf() {
    let input = "SF010050100000119BY1620267VS 3SW   2.21.0PR E-01INT1440GP 900x 900MS 70<asb,boo,ros,hnr,umd,pro,ess,fld,drs,neu,nhb,oft,eis,tur,isn,fbg,mem> ST120<asb 24,boo 24,drs 24,eis 24,ess 24,fbg 24,fld 24,hnr 24,isn 24,mem 24,neu 24,nhb 24,oft 24,pro 24,ros 24,tur 24,umd 24>";
    let header = Header::new(input).unwrap();
    assert_eq!(
        header,
        Header {
        produktkennung: Produktkennung::SF,
        datetime: stamp(2019, 1, 1, 0, 50),
        location: "10000".to_string(),
        product_length: 1620267,
        format_version: "3".to_string(),
        software_version: "2.21.0".to_string(),
        precision: 10,
        interval_duration: 1440,
        unit: None,
        dimension: Dimension {
            rows: 900,
            columns: 900
        },
        binary_representation: None,
        radar_locations: vec![
            "asb".to_string(),
            "boo".to_string(),
            "ros".to_string(),
            "hnr".to_string(),
            "umd".to_string(),
            "pro".to_string(),
            "ess".to_string(),
            "fld".to_string(),
            "drs".to_string(),
            "neu".to_string(),
            "nhb".to_string(),
            "oft".to_string(),
            "eis".to_string(),
            "tur".to_string(),
            "isn".to_string(),
            "fbg".to_string(),
            "mem".to_string()
        ],
        radar_location_contributions: Some(vec![
            ("asb".to_string(), 24),
            ("boo".to_string(), 24),
            ("drs".to_string(), 24),
            ("eis".to_string(), 24),
            ("ess".to_string(), 24),
            ("fbg".to_string(), 24),
            ("fld".to_string(), 24),
            ("hnr".to_string(), 24),
            ("isn".to_string(), 24),
            ("mem".to_string(), 24),
            ("neu".to_string(), 24),
            ("nhb".to_string(), 24),
            ("oft".to_string(), 24),
            ("pro".to_string(), 24),
            ("ros".to_string(), 24),
            ("tur".to_string(), 24),
            ("umd".to_string(), 24)
        ])
    }
    );
}

#[test]
fn header_unknown_precision_code() {
    let input = "YW010000100000117BY1980164VS 3SW   2.18.3PR E-03INT   5U0GP1100x 900MS 05<boo>";
    assert_eq!(Header::new(input), Err(HeaderParseError::UnknownPrecisionCode));
}

#[test]
fn header_trailing_input() {
    let input = "YW010000100000117BY1980164VS 3SW   2.18.3PR E-02INT   5U0GP1100x 900MS 05<boo>xyz";
    assert_eq!(Header::new(input), Err(HeaderParseError::TrailingInput));
}

#[test]
fn header_grammar_errors() {
    assert_eq!(Header::new("Y"), Err(HeaderParseError::Grammar(HeaderField::Product)));
    assert_eq!(
        Header::new("YW013000100000117BY1980164"),
        Err(HeaderParseError::Grammar(HeaderField::Timestamp))
    );
    assert_eq!(
        Header::new("YW010000100000117XX1980164"),
        Err(HeaderParseError::Grammar(HeaderField::ProductLength))
    );
    assert_eq!(
        Header::new("YW010000100000117BY1980164VS 3SW   2.18.3PR E-02INT   5U0GP1100y 900MS 05<boo>"),
        Err(HeaderParseError::Grammar(HeaderField::Dimension))
    );
    assert_eq!(
        Header::new("YW010000100000117BY1980164VS 3SW   2.18.3PR E-02INT   5U0GP1100x 900MS 05 boo "),
        Err(HeaderParseError::Grammar(HeaderField::RadarLocations))
    );
}

#[test]
fn header_unknown_product_is_kept() {
    let input = "XY010000100000117BY12VS 3SW   2.18.3PR E-00INT   5GP   2x   3MS 09<boo,ros>";
    let header = Header::new(input).unwrap();
    assert_eq!(header.produktkennung, Produktkennung::NotTested("XY".to_string()));
    assert_eq!(header.precision, 1);
    assert_eq!(header.product_length, 12);
    assert_eq!(header.unit, None);
    assert_eq!(header.dimension, Dimension { rows: 2, columns: 3 });
    assert_eq!(header.radar_locations, vec!["boo".to_string(), "ros".to_string()]);
}
