//! The binary payload of a RADOLAN file: two bytes per cell holding a flag and a
//! 12-bit magnitude, stored row by row from the bottom-left cell.

use vstd::prelude::*;
use vstd::utf8::{decode_utf8, valid_utf8};
use crate::header::{Dimension, Header, HeaderModel, HeaderParseError, header_spec};
use crate::point::Point;

verus! {

/// Byte that ends the header text.
pub const END_OF_TEXT: u8 = 0x03;

/// A decoded cell: its flag and its magnitude (0 to 4095).
#[derive(Clone, Copy, Debug, PartialEq, Eq, Structural)]
pub enum BType {
    Normal(u16),
    /// Interpolated, or hail in some products.
    Interpolated(u16),
    /// Not measurable.
    Error(u16),
    Neg(u16),
    /// Outside the covered area.
    Scope(u16),
}

#[derive(Clone, Copy, Debug, PartialEq, Eq, Structural)]
pub enum GridError {
    /// The high nibble of a cell's second byte is no defined flag.
    UnknownCellFlag { nibble: u8, magnitude: u16 },
    /// The cell lies outside the grid.
    CoordinateOutOfRange { row: u16, column: u16 },
    /// The payload ends before the cell.
    TruncatedPayload { row: u16, column: u16 },
}

#[derive(Clone, Copy, Debug, PartialEq, Eq, Structural)]
pub enum RadolanReadError {
    /// No byte ends the header.
    EndOfTextMissing,
    /// The header is not valid UTF-8.
    Utf8Error,
    HeaderParseError(HeaderParseError),
}

/// An exact physical value, `numerator / denominator`.
#[derive(Clone, Copy, Debug, PartialEq, Eq, Structural)]
pub struct Quotient {
    pub numerator: i32,
    pub denominator: u8,
}

/// The 12-bit magnitude of a cell: the low nibble of `b1` above all of `b0`.
pub open spec fn magnitude_of(b0: u8, b1: u8) -> u16 {
    ((b1 % 16) as int * 256 + b0 as int) as u16
}

/// What the two bytes of a cell decode to.
pub open spec fn cell_spec(b0: u8, b1: u8) -> Result<BType, GridError> {
    let m = magnitude_of(b0, b1);
    let f = b1 / 16;
    if f == 0 {
        Ok(BType::Normal(m))
    } else if f == 1 {
        Ok(BType::Interpolated(m))
    } else if f == 2 {
        Ok(BType::Error(m))
    } else if f == 4 {
        Ok(BType::Neg(m))
    } else if f == 8 {
        Ok(BType::Scope(m))
    } else {
        Err(GridError::UnknownCellFlag { nibble: f, magnitude: m })
    }
}

/// Decodes the two bytes of a cell.
pub fn parse(data: &[u8; 2]) -> (r: Result<BType, GridError>)
    ensures
        r == cell_spec(data@[0], data@[1]),
{
    let nibble = data[1] / 16;
    let magnitude = ((data[1] % 16) as u16) * 256 + data[0] as u16;
    if nibble == 0 {
        Ok(BType::Normal(magnitude))
    } else if nibble == 1 {
        Ok(BType::Interpolated(magnitude))
    } else if nibble == 2 {
        Ok(BType::Error(magnitude))
    } else if nibble == 4 {
        Ok(BType::Neg(magnitude))
    } else if nibble == 8 {
        Ok(BType::Scope(magnitude))
    } else {
        Err(GridError::UnknownCellFlag { nibble, magnitude })
    }
}

impl BType {
    pub open spec fn magnitude_spec(&self) -> u16 {
        match self {
            BType::Normal(v) => *v,
            BType::Interpolated(v) => *v,
            BType::Error(v) => *v,
            BType::Neg(v) => *v,
            BType::Scope(v) => *v,
        }
    }

    /// The physical value at the given precision divisor: `-9` for a cell in
    /// error, the negated quotient for a negative cell, else the quotient.
    pub fn physical_value(&self, precision: u8) -> (r: Quotient)
        ensures
            r == (match self {
                BType::Error(_) => Quotient { numerator: -9i32, denominator: 1 },
                BType::Neg(v) => Quotient { numerator: -(*v as int) as i32, denominator: precision },
                _ => Quotient { numerator: self.magnitude_spec() as i32, denominator: precision },
            }),
    {
        match self {
            BType::Normal(v) => Quotient { numerator: *v as i32, denominator: precision },
            BType::Interpolated(v) => Quotient { numerator: *v as i32, denominator: precision },
            BType::Error(_) => Quotient { numerator: -9, denominator: 1 },
            BType::Neg(v) => Quotient { numerator: -(*v as i32), denominator: precision },
            BType::Scope(v) => Quotient { numerator: *v as i32, denominator: precision },
        }
    }
}

/// The cell index, in a grid stored row by row from the top-left cell, of the
/// 1-based column `x` and row `y` counted from the bottom-left cell.
pub open spec fn bottom_left_index(x: int, y: int, rows: int, columns: int) -> int {
    (rows - y) * columns + (x - 1)
}

/// The cell index of column `x` and row `y`, both 1-based from the bottom left.
pub fn offset_bottom_left_1_1(x: u16, y: u16, rows: u16, columns: u16) -> (r: usize)
    requires
        1 <= x <= columns,
        1 <= y <= rows,
    ensures
        r as int == bottom_left_index(x as int, y as int, rows as int, columns as int),
        r < rows as int * columns as int,
{
    proof {
        assert((rows - y) * columns + (x - 1) < rows * columns) by (nonlinear_arith)
            requires
                1 <= x <= columns,
                1 <= y <= rows,
        ;
        assert((rows - y) * columns <= 65535 * 65535) by (nonlinear_arith)
            requires
                1 <= y <= rows <= 65535,
                columns <= 65535,
        ;
    }
    (rows - y) as usize * columns as usize + (x - 1) as usize
}

/// The first position from `k` that holds the end-of-text byte, or the length of `b`.
pub open spec fn etx_from(b: Seq<u8>, k: int) -> int
    decreases b.len() - k,
{
    if 0 <= k < b.len() && b[k] != END_OF_TEXT {
        etx_from(b, k + 1)
    } else {
        k
    }
}

/// The header text and where it ends, as the file's bytes give them.
#[verifier::opaque]
pub open spec fn read_spec(file: Seq<u8>) -> Result<(HeaderModel, int), RadolanReadError> {
    let e = etx_from(file, 0);
    if e >= file.len() {
        Err(RadolanReadError::EndOfTextMissing)
    } else if !valid_utf8(file.take(e)) {
        Err(RadolanReadError::Utf8Error)
    } else {
        match header_spec(decode_utf8(file.take(e))) {
            Ok(h) => Ok((h, e)),
            Err(x) => Err(RadolanReadError::HeaderParseError(x)),
        }
    }
}

/// Relies on `std::str::from_utf8`: it accepts exactly valid UTF-8 and gives the
/// characters it encodes.
#[verifier::external_body]
fn utf8_text(b: &[u8]) -> (r: Option<&str>)
    ensures
        r is Some <==> valid_utf8(b@),
        r matches Some(t) ==> t@ == decode_utf8(b@),
{
    std::str::from_utf8(b).ok()
}

/// The position of the first end-of-text byte, or the length of `file`.
fn find_etx(file: &[u8]) -> (r: usize)
    ensures
        r as int == etx_from(file@, 0),
        r <= file@.len(),
{
    let mut k: usize = 0;
    while k < file.len() && file[k] != END_OF_TEXT
        invariant
            k <= file@.len(),
            etx_from(file@, k as int) == etx_from(file@, 0),
        decreases file@.len() - k,
    {
        k = k + 1;
    }
    k
}

/// Reads the header of a RADOLAN file; gives it with the position of the end-of-text byte.
fn read_header(file: &[u8]) -> (r: Result<(Header, usize), RadolanReadError>)
    ensures
        match r {
            Ok((h, e)) => read_spec(file@) == Ok::<(HeaderModel, int), RadolanReadError>((h@, e as int)) && e < file@.len(),
            Err(x) => read_spec(file@) == Err::<(HeaderModel, int), RadolanReadError>(x),
        },
{
    reveal(read_spec);
    let e = find_etx(file);
    if e >= file.len() {
        return Err(RadolanReadError::EndOfTextMissing);
    }
    let head = &file[0..e];
    proof {
        assert(head@ =~= file@.take(e as int));
    }
    match utf8_text(head) {
        None => Err(RadolanReadError::Utf8Error),
        Some(text) => match Header::new(text) {
            Ok(h) => Ok((h, e)),
            Err(x) => Err(RadolanReadError::HeaderParseError(x)),
        },
    }
}

/// The byte position, in a file whose header ends at `header_end`, of the cell at
/// 0-based `row` and `column` counted from the top left, the payload being
/// stored from the bottom-left cell.
pub open spec fn cell_offset(rows: int, columns: int, row: int, column: int, header_end: int) -> int {
    ((rows - 1 - row) * columns + column) * 2 + header_end + 1
}

/// A RADOLAN file: the parsed header over the file's bytes.
pub struct Radolan<'a> {
    data: &'a [u8],
    header_end: usize,
    header: Header,
}

impl<'a> Radolan<'a> {
    pub closed spec fn bytes(&self) -> Seq<u8> {
        self.data@
    }

    pub closed spec fn header_end_spec(&self) -> int {
        self.header_end as int
    }

    pub closed spec fn header_model(&self) -> HeaderModel {
        self.header@
    }

    /// Reads the header of `file`, which must be followed by the end-of-text byte.
    pub fn new(file: &'a [u8]) -> (r: Result<Self, RadolanReadError>)
        ensures
            match r {
                Ok(g) => read_spec(file@) == Ok::<(HeaderModel, int), RadolanReadError>((g.header_model(), g.header_end_spec()))
                    && g.bytes() == file@,
                Err(x) => read_spec(file@) == Err::<(HeaderModel, int), RadolanReadError>(x),
            },
    {
        let (header, header_end) = read_header(file)?;
        Ok(Radolan { data: file, header_end, header })
    }

    pub fn header(&self) -> (r: &Header)
        ensures
            r@ == self.header_model(),
    {
        &self.header
    }

    /// The cell at 0-based `row` and `column` counted from the top-left cell.
    pub fn get_point(&self, row: u16, column: u16) -> (r: Result<BType, GridError>)
        ensures
            ({
                let rows = self.header_model().dimension.rows as int;
                let columns = self.header_model().dimension.columns as int;
                let o = cell_offset(rows, columns, row as int, column as int, self.header_end_spec());
                if row as int >= rows || column as int >= columns {
                    r == Err::<BType, GridError>(GridError::CoordinateOutOfRange { row, column })
                } else if o + 2 > self.bytes().len() {
                    r == Err::<BType, GridError>(GridError::TruncatedPayload { row, column })
                } else {
                    r == cell_spec(self.bytes()[o], self.bytes()[o + 1])
                }
            }),
    {
        let rows = self.header.dimension.rows;
        let columns = self.header.dimension.columns;
        if row >= rows || column >= columns {
            return Err(GridError::CoordinateOutOfRange { row, column });
        }
        let flipped = (rows - 1 - row) as usize;
        proof {
            assert(flipped * columns <= 65535 * 65535) by (nonlinear_arith)
                requires
                    flipped <= 65535,
                    columns <= 65535,
            ;
        }
        let cell = flipped * columns as usize + column as usize;
        if self.header_end >= self.data.len() || (self.data.len() - self.header_end - 1) / 2 < cell + 1 {
            return Err(GridError::TruncatedPayload { row, column });
        }
        let offset = cell * 2 + self.header_end + 1;
        parse(&[self.data[offset], self.data[offset + 1]])
    }
}

/// What a point, 1-based from the bottom-left cell with `x` as column and `y`
/// as row, reads as in a payload of a grid of the given dimension, the payload
/// being read as if stored from the top-left cell.
#[verifier::opaque]
pub open spec fn point_in(dim: Dimension, payload: Seq<u8>, p: Point<u16>) -> Result<BType, GridError> {
    let rows = dim.rows as int;
    let columns = dim.columns as int;
    let o = 2 * bottom_left_index(p.x as int, p.y as int, rows, columns);
    if !(1 <= p.x as int <= columns && 1 <= p.y as int <= rows) {
        Err(GridError::CoordinateOutOfRange { row: p.y, column: p.x })
    } else if o + 2 > payload.len() {
        Err(GridError::TruncatedPayload { row: p.y, column: p.x })
    } else {
        cell_spec(payload[o], payload[o + 1])
    }
}

/// A RADOLAN file split into its parsed header and the payload after the end-of-text byte.
pub struct RadolanFile<'a> {
    pub header: Header,
    pub data: &'a [u8],
}

impl<'a> RadolanFile<'a> {
    /// Splits `file` at its first end-of-text byte and parses the header before it.
    pub fn new(file: &'a [u8]) -> (r: Result<Self, RadolanReadError>)
        ensures
            match r {
                Ok(f) => read_spec(file@) is Ok && f.header@ == read_spec(file@).unwrap().0
                    && f.data@ == file@.subrange(read_spec(file@).unwrap().1 + 1, file@.len() as int),
                Err(x) => read_spec(file@) == Err::<(HeaderModel, int), RadolanReadError>(x),
            },
    {
        match read_header(file) {
            Ok((header, e)) => {
                if e >= file.len() {
                    return Err(RadolanReadError::EndOfTextMissing);
                }
                let data = &file[e + 1..file.len()];
                Ok(RadolanFile { header, data })
            },
            Err(x) => Err(x),
        }
    }

    /// What a point, 1-based from the bottom-left cell with `x` as column and
    /// `y` as row, reads as.
    pub open spec fn point_spec(&self, p: Point<u16>) -> Result<BType, GridError> {
        point_in(self.header.dimension, self.data@, p)
    }

    /// The cell at a point, 1-based from the bottom-left cell with `x` as column and `y` as row.
    pub fn point_at(&self, p: Point<u16>) -> (r: Result<BType, GridError>)
        ensures
            r == self.point_spec(p),
    {
        reveal(point_in);
        let rows = self.header.dimension.rows;
        let columns = self.header.dimension.columns;
        if !(1 <= p.x && p.x <= columns && 1 <= p.y && p.y <= rows) {
            return Err(GridError::CoordinateOutOfRange { row: p.y, column: p.x });
        }
        let cell = offset_bottom_left_1_1(p.x, p.y, rows, columns);
        if cell >= self.data.len() / 2 {
            return Err(GridError::TruncatedPayload { row: p.y, column: p.x });
        }
        let o = cell * 2;
        parse(&[self.data[o], self.data[o + 1]])
    }

    /// The cells at the given points, in order; fails at the first point that
    /// cannot be read.
    pub fn extract_points(&self, points: &Vec<Point<u16>>) -> (r: Result<Vec<(Point<u16>, BType)>, GridError>)
        ensures
            match r {
                Ok(v) => {
                    &&& v@.len() == points@.len()
                    &&& forall|k: int|
                        0 <= k < points@.len() ==> #[trigger] v@[k] == (points@[k], self.point_spec(points@[k])->Ok_0)
                            && self.point_spec(points@[k]) is Ok
                },
                Err(e) => exists|k: int|
                    0 <= k < points@.len() && self.point_spec(#[trigger] points@[k]) == Err::<BType, GridError>(e)
                        && forall|j: int| 0 <= j < k ==> (self.point_spec(#[trigger] points@[j]) is Ok),
            },
    {
        let mut out: Vec<(Point<u16>, BType)> = Vec::new();
        let mut k: usize = 0;
        while k < points.len()
            invariant
                k <= points@.len(),
                out@.len() == k,
                forall|j: int|
                    0 <= j < k ==> #[trigger] out@[j] == (points@[j], self.point_spec(points@[j])->Ok_0)
                        && self.point_spec(points@[j]) is Ok,
                forall|j: int| 0 <= j < k ==> (self.point_spec(#[trigger] points@[j]) is Ok),
            decreases points@.len() - k,
        {
            let p = points[k];
            let c = self.point_at(p);
            if c.is_err() {
                let e = c.unwrap_err();
                assert(self.point_spec(points@[k as int]) == Err::<BType, GridError>(e));
                return Err(e);
            }
            out.push((p, c.unwrap()));
            k = k + 1;
        }
        Ok(out)
    }
}

} // verus!
