//! The ASCII preamble of a RADOLAN file: a fixed sequence of positional,
//! tag-prefixed fields that must consume the whole header text.

use vstd::prelude::*;
use crate::datetime::{Date, DateTime, is_valid_date};
use crate::text::{
    all_digits, digit_run, text_chars, digit_run_end, fits, has_tag, lemma_split_on_nonempty, number_at,
    number_in, split_on, split_ranges, tag1_at, tag2_at, tag3_at, trim_range, trimmed, value_of,
};

verus! {

/// The product a file holds; codes outside the known set are kept as read.
#[derive(Clone, Debug, PartialEq, Eq)]
pub enum Produktkennung {
    YW,
    RW,
    SF,
    NotTested(String),
}

/// Rows and columns of the grid.
#[derive(Clone, Copy, Debug, PartialEq, Eq, Structural)]
pub struct Dimension {
    pub rows: u16,
    pub columns: u16,
}

/// The header field at which the grammar was not met.
#[derive(Clone, Copy, Debug, PartialEq, Eq, Structural)]
pub enum HeaderField {
    Product,
    Timestamp,
    ProductLength,
    FormatVersion,
    SoftwareVersion,
    Precision,
    IntervalDuration,
    Dimension,
    RadarLocations,
}

#[derive(Clone, Copy, Debug, PartialEq, Eq, Structural)]
pub enum HeaderParseError {
    /// A mandatory field is missing or malformed.
    Grammar(HeaderField),
    /// The precision field holds a code other than `E-00`, `E-01` or `E-02`.
    UnknownPrecisionCode,
    /// Text is left over after the last field.
    TrailingInput,
}

/// The parsed preamble of a RADOLAN file.
#[derive(Clone, Debug, PartialEq, Eq)]
pub struct Header {
    pub produktkennung: Produktkennung,
    pub datetime: DateTime,
    /// Site code of the composite.
    pub location: String,
    /// Declared length of the product in bytes.
    pub product_length: u32,
    pub format_version: String,
    pub software_version: String,
    /// Divisor that turns a cell magnitude into a physical value.
    pub precision: u8,
    /// Duration of the measurement interval in minutes.
    pub interval_duration: u16,
    pub unit: Option<u8>,
    pub dimension: Dimension,
    /// Quality-version marker.
    pub binary_representation: Option<u32>,
    /// Codes of the contributing radar sites.
    pub radar_locations: Vec<String>,
    /// Contributing sites with their contribution counts.
    pub radar_location_contributions: Option<Vec<(String, u8)>>,
}

pub enum ProductModel {
    YW,
    RW,
    SF,
    NotTested(Seq<char>),
}

/// A header with its text fields as character sequences.
pub struct HeaderModel {
    pub product: ProductModel,
    pub datetime: DateTime,
    pub location: Seq<char>,
    pub product_length: u32,
    pub format_version: Seq<char>,
    pub software_version: Seq<char>,
    pub precision: u8,
    pub interval_duration: u16,
    pub unit: Option<u8>,
    pub dimension: Dimension,
    pub binary_representation: Option<u32>,
    pub radar_locations: Seq<Seq<char>>,
    pub radar_location_contributions: Option<Seq<(Seq<char>, u8)>>,
}

impl View for Produktkennung {
    type V = ProductModel;

    open spec fn view(&self) -> ProductModel {
        match self {
            Produktkennung::YW => ProductModel::YW,
            Produktkennung::RW => ProductModel::RW,
            Produktkennung::SF => ProductModel::SF,
            Produktkennung::NotTested(s) => ProductModel::NotTested(s@),
        }
    }
}

impl View for Header {
    type V = HeaderModel;

    open spec fn view(&self) -> HeaderModel {
        HeaderModel {
            product: self.produktkennung@,
            datetime: self.datetime,
            location: self.location@,
            product_length: self.product_length,
            format_version: self.format_version@,
            software_version: self.software_version@,
            precision: self.precision,
            interval_duration: self.interval_duration,
            unit: self.unit,
            dimension: self.dimension,
            binary_representation: self.binary_representation,
            radar_locations: self.radar_locations@.map_values(|x: String| x@),
            radar_location_contributions: match self.radar_location_contributions {
                Some(v) => Some(v@.map_values(|p: (String, u8)| (p.0@, p.1))),
                None => None,
            },
        }
    }
}

// ---------------------------------------------------------------------------
// The grammar, one step per field. A step reads at position `i` of the header
// text `s` and gives the field's value with the position after it.
pub open spec fn product_of(t: Seq<char>) -> ProductModel {
    if t == seq!['Y', 'W'] {
        ProductModel::YW
    } else if t == seq!['R', 'W'] {
        ProductModel::RW
    } else if t == seq!['S', 'F'] {
        ProductModel::SF
    } else {
        ProductModel::NotTested(t)
    }
}

pub open spec fn product_step(s: Seq<char>, i: int) -> Result<(ProductModel, int), HeaderParseError> {
    if fits(s, i, 2) {
        Ok((product_of(s.subrange(i, i + 2)), i + 2))
    } else {
        Err(HeaderParseError::Grammar(HeaderField::Product))
    }
}

/// Two digits at `i`.
pub open spec fn two_digits(s: Seq<char>, i: int) -> bool {
    fits(s, i, 2) && number_in(s, i, i + 2, 99)
}

/// Day, hour, minute, a five-character site code, month and two-digit year of
/// the 21st century; gives the date-time and the range of the site code.
pub open spec fn stamp_step(s: Seq<char>, i: int) -> Result<((DateTime, (int, int)), int), HeaderParseError> {
    let day = value_of(s, i, i + 2);
    let hour = value_of(s, i + 2, i + 4);
    let minute = value_of(s, i + 4, i + 6);
    let month = value_of(s, i + 11, i + 13);
    let year = 2000 + value_of(s, i + 13, i + 15);
    if fits(s, i, 15) && two_digits(s, i) && two_digits(s, i + 2) && two_digits(s, i + 4)
        && two_digits(s, i + 11) && two_digits(s, i + 13) && is_valid_date(year as int, month as int, day as int)
        && hour < 24 && minute < 60 {
        Ok(
            (
                (
                    DateTime {
                        date: Date { year: year as i32, month: month as u8, day: day as u8 },
                        hour: hour as u8,
                        minute: minute as u8,
                        second: 0,
                        nanosecond: 0,
                    },
                    (i + 6, i + 11),
                ),
                i + 15,
            ),
        )
    } else {
        Err(HeaderParseError::Grammar(HeaderField::Timestamp))
    }
}

/// `BY` and a run of digits.
pub open spec fn length_step(s: Seq<char>, i: int) -> Result<(u32, int), HeaderParseError> {
    let e = digit_run_end(s, i + 2);
    if has_tag(s, i, seq!['B', 'Y']) && number_in(s, i + 2, e, u32::MAX as nat) {
        Ok((value_of(s, i + 2, e) as u32, e))
    } else {
        Err(HeaderParseError::Grammar(HeaderField::ProductLength))
    }
}

/// A two-letter tag and `width` characters, trimmed; gives their range.
pub open spec fn text_step(s: Seq<char>, i: int, tag: Seq<char>, width: int, field: HeaderField) -> Result<((int, int), int), HeaderParseError> {
    if has_tag(s, i, tag) && fits(s, i + 2, width) {
        Ok((trimmed(s, i + 2, i + 2 + width), i + 2 + width))
    } else {
        Err(HeaderParseError::Grammar(field))
    }
}

/// `PR` and five characters holding a precision code.
pub open spec fn precision_step(s: Seq<char>, i: int) -> Result<(u8, int), HeaderParseError> {
    if has_tag(s, i, seq!['P', 'R']) && fits(s, i + 2, 5) {
        let t = s.subrange(trimmed(s, i + 2, i + 7).0, trimmed(s, i + 2, i + 7).1);
        if t == seq!['E', '-', '0', '0'] {
            Ok((1, i + 7))
        } else if t == seq!['E', '-', '0', '1'] {
            Ok((10, i + 7))
        } else if t == seq!['E', '-', '0', '2'] {
            Ok((100, i + 7))
        } else {
            Err(HeaderParseError::UnknownPrecisionCode)
        }
    } else {
        Err(HeaderParseError::Grammar(HeaderField::Precision))
    }
}

/// The number held by the `n` characters at `i` once trimmed, if it is at most `max`.
pub open spec fn fixed_number(s: Seq<char>, i: int, n: int, max: nat) -> Option<nat> {
    let (lo, hi) = trimmed(s, i, i + n);
    if fits(s, i, n) && number_in(s, lo, hi, max) {
        Some(value_of(s, lo, hi))
    } else {
        None
    }
}

/// `INT` and four characters holding the interval duration.
pub open spec fn interval_step(s: Seq<char>, i: int) -> Result<(u16, int), HeaderParseError> {
    if has_tag(s, i, seq!['I', 'N', 'T']) && fixed_number(s, i + 3, 4, 65535) is Some {
        Ok((fixed_number(s, i + 3, 4, 65535).unwrap() as u16, i + 7))
    } else {
        Err(HeaderParseError::Grammar(HeaderField::IntervalDuration))
    }
}

/// Optional `U` and one character holding the unit.
pub open spec fn unit_step(s: Seq<char>, i: int) -> (Option<u8>, int) {
    if has_tag(s, i, seq!['U']) && fixed_number(s, i + 1, 1, 255) is Some {
        (Some(fixed_number(s, i + 1, 1, 255).unwrap() as u8), i + 2)
    } else {
        (None, i)
    }
}

/// `GP`, four characters of rows, `x` and four characters of columns.
pub open spec fn dimension_step(s: Seq<char>, i: int) -> Result<(Dimension, int), HeaderParseError> {
    if has_tag(s, i, seq!['G', 'P']) && fixed_number(s, i + 2, 4, 65535) is Some && has_tag(
        s,
        i + 6,
        seq!['x'],
    ) && fixed_number(s, i + 7, 4, 65535) is Some {
        Ok(
            (
                Dimension {
                    rows: fixed_number(s, i + 2, 4, 65535).unwrap() as u16,
                    columns: fixed_number(s, i + 7, 4, 65535).unwrap() as u16,
                },
                i + 11,
            ),
        )
    } else {
        Err(HeaderParseError::Grammar(HeaderField::Dimension))
    }
}

/// Optional `MF` and nine characters holding the quality-version marker.
pub open spec fn marker_step(s: Seq<char>, i: int) -> (Option<u32>, int) {
    if has_tag(s, i, seq!['M', 'F']) && fixed_number(s, i + 2, 9, u32::MAX as nat) is Some {
        (Some(fixed_number(s, i + 2, 9, u32::MAX as nat).unwrap() as u32), i + 11)
    } else {
        (None, i)
    }
}

/// Optional `VR` and eight characters, which carry nothing that is kept.
pub open spec fn version_skip(s: Seq<char>, i: int) -> int {
    if has_tag(s, i, seq!['V', 'R']) && fits(s, i + 2, 8) {
        i + 10
    } else {
        i
    }
}

/// The inside of `a..b` once trimmed, when it is enclosed in `<` and `>`.
pub open spec fn bracketed(s: Seq<char>, a: int, b: int) -> Option<(int, int)> {
    let (lo, hi) = trimmed(s, a, b);
    if hi - lo >= 2 && s[lo] == '<' && s[hi - 1] == '>' {
        Some((lo + 1, hi - 1))
    } else {
        None
    }
}

/// A two-letter tag, a three-character length `n` and `n` characters enclosed in
/// `<` and `>`; gives the range inside the brackets.
pub open spec fn list_step(s: Seq<char>, i: int, tag: Seq<char>, max: nat) -> Option<((int, int), int)> {
    if has_tag(s, i, tag) && fixed_number(s, i + 2, 3, max) is Some {
        let n = fixed_number(s, i + 2, 3, max).unwrap() as int;
        if fits(s, i + 5, n) && bracketed(s, i + 5, i + 5 + n) is Some {
            Some((bracketed(s, i + 5, i + 5 + n).unwrap(), i + 5 + n))
        } else {
            None
        }
    } else {
        None
    }
}

/// The first position from `k` that holds `c`, or the length of `t`.
pub open spec fn find_char(t: Seq<char>, c: char, k: int) -> int
    decreases t.len() - k,
{
    if 0 <= k < t.len() && t[k] != c {
        find_char(t, c, k + 1)
    } else {
        k
    }
}

/// A site code and a count separated by the first space.
pub open spec fn pair_of(t: Seq<char>) -> Option<(Seq<char>, u8)> {
    let k = find_char(t, ' ', 0);
    let (lo, hi) = trimmed(t, k + 1, t.len() as int);
    if k < t.len() && number_in(t, lo, hi, 255) {
        Some((t.subrange(0, k), value_of(t, lo, hi) as u8))
    } else {
        None
    }
}

/// Every piece read as a pair, or nothing if one fails.
pub open spec fn pairs_of(ps: Seq<Seq<char>>) -> Option<Seq<(Seq<char>, u8)>>
    decreases ps.len(),
{
    if ps.len() == 0 {
        Some(Seq::empty())
    } else {
        match (pairs_of(ps.drop_last()), pair_of(ps.last())) {
            (Some(a), Some(p)) => Some(a.push(p)),
            _ => None,
        }
    }
}

/// Optional `ST` list of site contributions.
pub open spec fn contributions_step(s: Seq<char>, i: int) -> (Option<Seq<(Seq<char>, u8)>>, int) {
    match list_step(s, i, seq!['S', 'T'], u32::MAX as nat) {
        Some(((a, b), j)) => match pairs_of(split_on(s.subrange(a, b), ',')) {
            Some(ps) => (Some(ps), j),
            None => (None, i),
        },
        None => (None, i),
    }
}

/// The whole header grammar; the text must be consumed exactly.
#[verifier::opaque]
pub open spec fn header_spec(s: Seq<char>) -> Result<HeaderModel, HeaderParseError> {
    match product_step(s, 0) {
        Err(e) => Err(e),
        Ok((product, i1)) => match stamp_step(s, i1) {
            Err(e) => Err(e),
            Ok(((datetime, loc), i2)) => match length_step(s, i2) {
                Err(e) => Err(e),
                Ok((product_length, i3)) => match text_step(
                    s,
                    i3,
                    seq!['V', 'S'],
                    2,
                    HeaderField::FormatVersion,
                ) {
                    Err(e) => Err(e),
                    Ok((fv, i4)) => match text_step(
                        s,
                        i4,
                        seq!['S', 'W'],
                        9,
                        HeaderField::SoftwareVersion,
                    ) {
                        Err(e) => Err(e),
                        Ok((sw, i5)) => match precision_step(s, i5) {
                            Err(e) => Err(e),
                            Ok((precision, i6)) => match interval_step(s, i6) {
                                Err(e) => Err(e),
                                Ok((interval_duration, i7)) => {
                                    let (unit, i8) = unit_step(s, i7);
                                    match dimension_step(s, i8) {
                                        Err(e) => Err(e),
                                        Ok((dimension, i9)) => {
                                            let (marker, i10) = marker_step(s, i9);
                                            let i11 = version_skip(s, i10);
                                            match list_step(s, i11, seq!['M', 'S'], 65535) {
                                                None => Err(
                                                    HeaderParseError::Grammar(
                                                        HeaderField::RadarLocations,
                                                    ),
                                                ),
                                                Some(((a, b), i12)) => {
                                                    let (contributions, i13) = contributions_step(
                                                        s,
                                                        i12,
                                                    );
                                                    if i13 == s.len() {
                                                        Ok(
                                                            HeaderModel {
                                                                product,
                                                                datetime,
                                                                location: s.subrange(loc.0, loc.1),
                                                                product_length,
                                                                format_version: s.subrange(
                                                                    fv.0,
                                                                    fv.1,
                                                                ),
                                                                software_version: s.subrange(
                                                                    sw.0,
                                                                    sw.1,
                                                                ),
                                                                precision,
                                                                interval_duration,
                                                                unit,
                                                                dimension,
                                                                binary_representation: marker,
                                                                radar_locations: split_on(
                                                                    s.subrange(a, b),
                                                                    ',',
                                                                ),
                                                                radar_location_contributions: contributions,
                                                            },
                                                        )
                                                    } else {
                                                        Err(HeaderParseError::TrailingInput)
                                                    }
                                                },
                                            }
                                        },
                                    }
                                },
                            },
                        },
                    },
                },
            },
        },
    }
}

// ---------------------------------------------------------------------------
// Reading the steps.
proof fn lemma_pairs_none_stays(ps: Seq<Seq<char>>, q: int, q2: int)
    requires
        0 <= q <= q2 <= ps.len(),
        pairs_of(ps.take(q)) is None,
    ensures
        pairs_of(ps.take(q2)) is None,
    decreases q2 - q,
{
    if q < q2 {
        lemma_pairs_none_stays(ps, q, q2 - 1);
        assert(ps.take(q2).drop_last() =~= ps.take(q2 - 1));
    }
}

/// The characters of `a..b` as a vector.
fn chars_of(cs: &Vec<char>, a: usize, b: usize) -> (r: Vec<char>)
    requires
        a <= b <= cs.len(),
    ensures
        r@ == cs@.subrange(a as int, b as int),
{
    let mut out: Vec<char> = Vec::new();
    let mut k = a;
    while k < b
        invariant
            a <= k <= b <= cs.len(),
            out@ == cs@.subrange(a as int, k as int),
        decreases b - k,
    {
        out.push(cs[k]);
        k = k + 1;
        proof {
            assert(out@ =~= cs@.subrange(a as int, k as int));
        }
    }
    out
}

/// The characters of `a..b` of `text` as a string.
fn piece_string(text: &str, a: usize, b: usize) -> (r: String)
    requires
        a <= b <= text@.len(),
    ensures
        r@ == text@.subrange(a as int, b as int),
{
    text.substring_char(a, b).to_owned()
}

fn product_at(text: &str, cs: &Vec<char>, i: usize) -> (r: Result<(Produktkennung, usize), HeaderParseError>)
    requires
        cs@ == text@,
        i <= cs.len(),
    ensures
        match r {
            Ok((p, j)) => product_step(cs@, i as int) == Ok::<(ProductModel, int), HeaderParseError>((p@, j as int)) && j <= cs.len(),
            Err(e) => product_step(cs@, i as int) == Err::<(ProductModel, int), HeaderParseError>(e),
        },
{
    if cs.len() - i < 2 {
        return Err(HeaderParseError::Grammar(HeaderField::Product));
    }
    let a = cs[i];
    let b = cs[i + 1];
    proof {
        assert(cs@.subrange(i as int, i + 2) =~= seq![a, b]);
        assert(seq![a, b][0] == a && seq![a, b][1] == b);
        assert(seq!['Y', 'W'][0] == 'Y' && seq!['Y', 'W'][1] == 'W');
        assert(seq!['R', 'W'][0] == 'R' && seq!['R', 'W'][1] == 'W');
        assert(seq!['S', 'F'][0] == 'S' && seq!['S', 'F'][1] == 'F');
    }
    let p = if a == 'Y' && b == 'W' {
        Produktkennung::YW
    } else if a == 'R' && b == 'W' {
        Produktkennung::RW
    } else if a == 'S' && b == 'F' {
        Produktkennung::SF
    } else {
        Produktkennung::NotTested(piece_string(text, i, i + 2))
    };
    Ok((p, i + 2))
}

fn stamp_at(cs: &Vec<char>, i: usize) -> (r: Result<(DateTime, (usize, usize), usize), HeaderParseError>)
    requires
        i <= cs.len(),
    ensures
        match r {
            Ok((t, loc, j)) => stamp_step(cs@, i as int) == Ok::<((DateTime, (int, int)), int), HeaderParseError>(((t, (loc.0 as int, loc.1 as int)), j as int))
                && loc.0 <= loc.1 <= j <= cs.len(),
            Err(e) => stamp_step(cs@, i as int) == Err::<((DateTime, (int, int)), int), HeaderParseError>(e),
        },
{
    let err = HeaderParseError::Grammar(HeaderField::Timestamp);
    if cs.len() - i < 15 {
        return Err(err);
    }
    let day = match number_at(cs, i, i + 2, 99) { Some(v) => v, None => { return Err(err); } };
    let hour = match number_at(cs, i + 2, i + 4, 99) { Some(v) => v, None => { return Err(err); } };
    let minute = match number_at(cs, i + 4, i + 6, 99) { Some(v) => v, None => { return Err(err); } };
    let month = match number_at(cs, i + 11, i + 13, 99) { Some(v) => v, None => { return Err(err); } };
    let year = match number_at(cs, i + 13, i + 15, 99) { Some(v) => v, None => { return Err(err); } };
    match DateTime::from_ymdhm(2000 + year as i32, month as u8, day as u8, hour as u8, minute as u8) {
        Some(t) => Ok((t, (i + 6, i + 11), i + 15)),
        None => Err(err),
    }
}

fn length_at(cs: &Vec<char>, i: usize) -> (r: Result<(u32, usize), HeaderParseError>)
    requires
        i <= cs.len(),
    ensures
        match r {
            Ok((v, j)) => length_step(cs@, i as int) == Ok::<(u32, int), HeaderParseError>((v, j as int)) && j <= cs.len(),
            Err(e) => length_step(cs@, i as int) == Err::<(u32, int), HeaderParseError>(e),
        },
{
    let err = HeaderParseError::Grammar(HeaderField::ProductLength);
    if !tag2_at(cs, i, 'B', 'Y') {
        return Err(err);
    }
    let e = digit_run(cs, i + 2);
    match number_at(cs, i + 2, e, 0xffff_ffff) {
        Some(v) => Ok((v as u32, e)),
        None => Err(err),
    }
}

fn text_at(cs: &Vec<char>, i: usize, a: char, b: char, width: usize, field: HeaderField) -> (r: Result<((usize, usize), usize), HeaderParseError>)
    requires
        i <= cs.len(),
        width <= 16,
    ensures
        match r {
            Ok((t, j)) => text_step(cs@, i as int, seq![a, b], width as int, field) == Ok::<((int, int), int), HeaderParseError>(((t.0 as int, t.1 as int), j as int))
                && t.0 <= t.1 <= j <= cs.len(),
            Err(e) => text_step(cs@, i as int, seq![a, b], width as int, field) == Err::<((int, int), int), HeaderParseError>(e),
        },
{
    if !tag2_at(cs, i, a, b) || cs.len() - (i + 2) < width {
        return Err(HeaderParseError::Grammar(field));
    }
    let t = trim_range(cs, i + 2, i + 2 + width);
    Ok((t, i + 2 + width))
}

/// Whether `lo..hi` holds exactly the four given characters.
fn range_is4(cs: &Vec<char>, lo: usize, hi: usize, a: char, b: char, c: char, d: char) -> (r: bool)
    requires
        lo <= hi <= cs.len(),
    ensures
        r == (cs@.subrange(lo as int, hi as int) == seq![a, b, c, d]),
{
    if hi - lo == 4 && cs[lo] == a && cs[lo + 1] == b && cs[lo + 2] == c && cs[lo + 3] == d {
        assert(cs@.subrange(lo as int, hi as int) =~= seq![a, b, c, d]);
        true
    } else {
        proof {
            if cs@.subrange(lo as int, hi as int) == seq![a, b, c, d] {
                assert(seq![a, b, c, d].len() == 4);
                assert(cs@.subrange(lo as int, hi as int)[0] == a);
                assert(cs@.subrange(lo as int, hi as int)[1] == b);
                assert(cs@.subrange(lo as int, hi as int)[2] == c);
                assert(cs@.subrange(lo as int, hi as int)[3] == d);
            }
        }
        false
    }
}

fn precision_at(cs: &Vec<char>, i: usize) -> (r: Result<(u8, usize), HeaderParseError>)
    requires
        i <= cs.len(),
    ensures
        match r {
            Ok((v, j)) => precision_step(cs@, i as int) == Ok::<(u8, int), HeaderParseError>((v, j as int)) && j <= cs.len(),
            Err(e) => precision_step(cs@, i as int) == Err::<(u8, int), HeaderParseError>(e),
        },
{
    if !tag2_at(cs, i, 'P', 'R') || cs.len() - (i + 2) < 5 {
        return Err(HeaderParseError::Grammar(HeaderField::Precision));
    }
    let (lo, hi) = trim_range(cs, i + 2, i + 7);
    if range_is4(cs, lo, hi, 'E', '-', '0', '0') {
        Ok((1, i + 7))
    } else if range_is4(cs, lo, hi, 'E', '-', '0', '1') {
        Ok((10, i + 7))
    } else if range_is4(cs, lo, hi, 'E', '-', '0', '2') {
        Ok((100, i + 7))
    } else {
        Err(HeaderParseError::UnknownPrecisionCode)
    }
}

fn fixed_number_at(cs: &Vec<char>, i: usize, n: usize, max: u64) -> (r: Option<u64>)
    requires
        i <= cs.len(),
        n <= 16,
        max <= u32::MAX,
    ensures
        r matches Some(v) ==> fixed_number(cs@, i as int, n as int, max as nat) == Some(v as nat) && v <= max,
        r is None ==> fixed_number(cs@, i as int, n as int, max as nat) is None,
{
    if cs.len() - i < n {
        return None;
    }
    let (lo, hi) = trim_range(cs, i, i + n);
    number_at(cs, lo, hi, max)
}

fn interval_at(cs: &Vec<char>, i: usize) -> (r: Result<(u16, usize), HeaderParseError>)
    requires
        i <= cs.len(),
    ensures
        match r {
            Ok((v, j)) => interval_step(cs@, i as int) == Ok::<(u16, int), HeaderParseError>((v, j as int)) && j <= cs.len(),
            Err(e) => interval_step(cs@, i as int) == Err::<(u16, int), HeaderParseError>(e),
        },
{
    if !tag3_at(cs, i, 'I', 'N', 'T') {
        return Err(HeaderParseError::Grammar(HeaderField::IntervalDuration));
    }
    match fixed_number_at(cs, i + 3, 4, 65535) {
        Some(v) => Ok((v as u16, i + 7)),
        None => Err(HeaderParseError::Grammar(HeaderField::IntervalDuration)),
    }
}

fn unit_at(cs: &Vec<char>, i: usize) -> (r: (Option<u8>, usize))
    requires
        i <= cs.len(),
    ensures
        unit_step(cs@, i as int) == (r.0, r.1 as int),
        r.1 <= cs.len(),
{
    if tag1_at(cs, i, 'U') {
        match fixed_number_at(cs, i + 1, 1, 255) {
            Some(v) => { return (Some(v as u8), i + 2); },
            None => {},
        }
    }
    (None, i)
}

fn dimension_at(cs: &Vec<char>, i: usize) -> (r: Result<(Dimension, usize), HeaderParseError>)
    requires
        i <= cs.len(),
    ensures
        match r {
            Ok((v, j)) => dimension_step(cs@, i as int) == Ok::<(Dimension, int), HeaderParseError>((v, j as int)) && j <= cs.len(),
            Err(e) => dimension_step(cs@, i as int) == Err::<(Dimension, int), HeaderParseError>(e),
        },
{
    let err = HeaderParseError::Grammar(HeaderField::Dimension);
    if !tag2_at(cs, i, 'G', 'P') {
        return Err(err);
    }
    let rows = match fixed_number_at(cs, i + 2, 4, 65535) { Some(v) => v, None => { return Err(err); } };
    if !tag1_at(cs, i + 6, 'x') {
        return Err(err);
    }
    let columns = match fixed_number_at(cs, i + 7, 4, 65535) { Some(v) => v, None => { return Err(err); } };
    Ok((Dimension { rows: rows as u16, columns: columns as u16 }, i + 11))
}

fn marker_at(cs: &Vec<char>, i: usize) -> (r: (Option<u32>, usize))
    requires
        i <= cs.len(),
    ensures
        marker_step(cs@, i as int) == (r.0, r.1 as int),
        r.1 <= cs.len(),
{
    if tag2_at(cs, i, 'M', 'F') {
        match fixed_number_at(cs, i + 2, 9, 0xffff_ffff) {
            Some(v) => { return (Some(v as u32), i + 11); },
            None => {},
        }
    }
    (None, i)
}

fn version_skip_at(cs: &Vec<char>, i: usize) -> (r: usize)
    requires
        i <= cs.len(),
    ensures
        r as int == version_skip(cs@, i as int),
        r <= cs.len(),
{
    if tag2_at(cs, i, 'V', 'R') && cs.len() - (i + 2) >= 8 {
        i + 10
    } else {
        i
    }
}

fn list_at(cs: &Vec<char>, i: usize, a: char, b: char, max: u64) -> (r: Option<((usize, usize), usize)>)
    requires
        i <= cs.len(),
        max <= u32::MAX,
    ensures
        match r {
            Some((t, j)) => list_step(cs@, i as int, seq![a, b], max as nat) == Some(((t.0 as int, t.1 as int), j as int))
                && t.0 <= t.1 <= j <= cs.len(),
            None => list_step(cs@, i as int, seq![a, b], max as nat) is None,
        },
{
    if !tag2_at(cs, i, a, b) {
        return None;
    }
    let n = match fixed_number_at(cs, i + 2, 3, max) { Some(v) => v, None => { return None; } };
    if ((cs.len() - (i + 5)) as u64) < n {
        return None;
    }
    let n = n as usize;
    let (lo, hi) = trim_range(cs, i + 5, i + 5 + n);
    if hi - lo >= 2 && cs[lo] == '<' && cs[hi - 1] == '>' {
        Some(((lo + 1, hi - 1), i + 5 + n))
    } else {
        None
    }
}

/// A site code and a count separated by the first space of `x..y`.
fn pair_at(text: &str, cs: &Vec<char>, x: usize, y: usize) -> (r: Option<(String, u8)>)
    requires
        cs@ == text@,
        x <= y <= cs.len(),
    ensures
        match r {
            Some(p) => pair_of(cs@.subrange(x as int, y as int)) == Some((p.0@, p.1)),
            None => pair_of(cs@.subrange(x as int, y as int)) is None,
        },
{
    let t = chars_of(cs, x, y);
    let mut k: usize = 0;
    while k < t.len() && t[k] != ' '
        invariant
            k <= t.len(),
            find_char(t@, ' ', k as int) == find_char(t@, ' ', 0),
        decreases t.len() - k,
    {
        k = k + 1;
    }
    if k == t.len() {
        return None;
    }
    let (lo, hi) = trim_range(&t, k + 1, t.len());
    match number_at(&t, lo, hi, 255) {
        Some(v) => {
            let name = piece_string(text, x, x + k);
            proof {
                assert(name@ =~= t@.subrange(0, k as int));
            }
            Some((name, v as u8))
        },
        None => None,
    }
}

fn contributions_at(text: &str, cs: &Vec<char>, i: usize) -> (r: (Option<Vec<(String, u8)>>, usize))
    requires
        cs@ == text@,
        i <= cs.len(),
    ensures
        contributions_step(cs@, i as int).1 == r.1 as int,
        r.1 <= cs.len(),
        match r.0 {
            Some(v) => contributions_step(cs@, i as int).0 == Some(v@.map_values(|p: (String, u8)| (p.0@, p.1))),
            None => contributions_step(cs@, i as int).0 is None,
        },
{
    let ((a, b), j) = match list_at(cs, i, 'S', 'T', 0xffff_ffff) { Some(l) => l, None => { return (None, i); } };
    let ranges = split_ranges(cs, a, b, ',');
    let ghost ps = split_on(cs@.subrange(a as int, b as int), ',');
    let mut out: Vec<(String, u8)> = Vec::new();
    let mut q: usize = 0;
    proof {
        assert(ps.take(0) =~= Seq::<Seq<char>>::empty());
        assert(out@.map_values(|p: (String, u8)| (p.0@, p.1)) =~= Seq::<(Seq<char>, u8)>::empty());
    }
    while q < ranges.len()
        invariant
            cs@ == text@,
            a <= b <= cs.len(),
            q <= ranges@.len() == ps.len(),
            ps == split_on(cs@.subrange(a as int, b as int), ','),
            forall|k: int| 0 <= k < ranges@.len() ==> {
                &&& a <= (#[trigger] ranges@[k]).0 <= ranges@[k].1 <= b
                &&& cs@.subrange(ranges@[k].0 as int, ranges@[k].1 as int) == ps[k]
            },
            pairs_of(ps.take(q as int)) == Some(out@.map_values(|p: (String, u8)| (p.0@, p.1))),
            i <= cs.len(),
            list_step(cs@, i as int, seq!['S', 'T'], u32::MAX as nat) == Some(((a as int, b as int), j as int)),
        decreases ranges@.len() - q,
    {
        let (x, y) = ranges[q];
        proof {
            assert(ps.take(q + 1).drop_last() =~= ps.take(q as int));
            assert(ps.take(q + 1).last() == ps[q as int]);
        }
        match pair_at(text, cs, x, y) {
            Some(p) => {
                out.push(p);
                q = q + 1;
                proof {
                    assert(out@.map_values(|p: (String, u8)| (p.0@, p.1)) =~= pairs_of(ps.take(q as int)).unwrap());
                }
            },
            None => {
                proof {
                    lemma_pairs_none_stays(ps, q + 1, ps.len() as int);
                    assert(ps.take(ps.len() as int) =~= ps);
                }
                return (None, i);
            },
        }
    }
    proof {
        assert(ps.take(ps.len() as int) =~= ps);
    }
    (Some(out), j)
}

/// The pieces of `a..b` between commas, as strings.
fn split_strings(text: &str, cs: &Vec<char>, a: usize, b: usize) -> (r: Vec<String>)
    requires
        cs@ == text@,
        a <= b <= cs.len(),
    ensures
        r@.map_values(|x: String| x@) == split_on(cs@.subrange(a as int, b as int), ','),
{
    let ranges = split_ranges(cs, a, b, ',');
    let ghost ps = split_on(cs@.subrange(a as int, b as int), ',');
    let mut out: Vec<String> = Vec::new();
    let mut q: usize = 0;
    while q < ranges.len()
        invariant
            cs@ == text@,
            a <= b <= cs.len(),
            q <= ranges@.len() == ps.len(),
            ps == split_on(cs@.subrange(a as int, b as int), ','),
            forall|k: int| 0 <= k < ranges@.len() ==> {
                &&& a <= (#[trigger] ranges@[k]).0 <= ranges@[k].1 <= b
                &&& cs@.subrange(ranges@[k].0 as int, ranges@[k].1 as int) == ps[k]
            },
            out@.map_values(|x: String| x@) == ps.take(q as int),
        decreases ranges@.len() - q,
    {
        let (x, y) = ranges[q];
        let piece = piece_string(text, x, y);
        proof {
            assert(piece@ == ps[q as int]);
        }
        proof {
            assert(ps.take(q + 1) =~= ps.take(q as int).push(ps[q as int]));
        }
        out.push(piece);
        q = q + 1;
        proof {
            assert(out@.map_values(|x: String| x@) =~= ps.take(q as int));
        }
    }
    proof {
        assert(ps.take(ps.len() as int) =~= ps);
    }
    out
}

impl Header {
    /// Parses a complete header text; the text must be consumed exactly.
    pub fn new(s: &str) -> (r: Result<Header, HeaderParseError>)
        ensures
            match r {
                Ok(h) => header_spec(s@) == Ok::<HeaderModel, HeaderParseError>(h@),
                Err(e) => header_spec(s@) == Err::<HeaderModel, HeaderParseError>(e),
            },
    {
        reveal(header_spec);
        let cs = text_chars(s);
        let (produktkennung, i) = product_at(s, &cs, 0)?;
        let (datetime, loc, i) = stamp_at(&cs, i)?;
        let (product_length, i) = length_at(&cs, i)?;
        let (fv, i) = text_at(&cs, i, 'V', 'S', 2, HeaderField::FormatVersion)?;
        let (sw, i) = text_at(&cs, i, 'S', 'W', 9, HeaderField::SoftwareVersion)?;
        let (precision, i) = precision_at(&cs, i)?;
        let (interval_duration, i) = interval_at(&cs, i)?;
        let (unit, i) = unit_at(&cs, i);
        let (dimension, i) = dimension_at(&cs, i)?;
        let (binary_representation, i) = marker_at(&cs, i);
        let i = version_skip_at(&cs, i);
        let ((a, b), i) = match list_at(&cs, i, 'M', 'S', 65535) {
            Some(l) => l,
            None => { return Err(HeaderParseError::Grammar(HeaderField::RadarLocations)); },
        };
        let (radar_location_contributions, i) = contributions_at(s, &cs, i);
        if i != cs.len() {
            return Err(HeaderParseError::TrailingInput);
        }
        let h = Header {
            produktkennung,
            datetime,
            location: piece_string(s, loc.0, loc.1),
            product_length,
            format_version: piece_string(s, fv.0, fv.1),
            software_version: piece_string(s, sw.0, sw.1),
            precision,
            interval_duration,
            unit,
            dimension,
            binary_representation,
            radar_locations: split_strings(s, &cs, a, b),
            radar_location_contributions,
        };
        Ok(h)
    }
}

} // verus!
