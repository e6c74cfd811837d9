//! Records of the RADOLAN grid series: month archives (of day archives, for the
//! reprocessed series) of grid files, each file named after its minute.

use vstd::prelude::*;
use crate::archive::{File, NameFilter, minute_in_name, minute_of_name};
use crate::datetime::DateTime;
use crate::grid::{BType, GridError, RadolanFile, RadolanReadError, point_in, read_spec};
use crate::interval::Interval;
use crate::point::Point;
use crate::source::Timespan;

verus! {

/// The cells of one grid file at the requested points, at the minute of the file.
pub struct RadolanRecord {
    pub time: DateTime,
    /// Divisor that turns a cell magnitude into a physical value.
    pub precision: u8,
    pub cells: Vec<BType>,
}

impl Timespan for RadolanRecord {
    open spec fn span(&self) -> Interval<DateTime> {
        Interval { start: self.time, end: self.time }
    }

    fn timespan(&self) -> (r: Interval<DateTime>) {
        Interval { start: self.time, end: self.time }
    }
}

#[derive(Clone, Copy, Debug, PartialEq, Eq, Structural)]
pub enum LeafError {
    /// The file's name holds no minute.
    NoTimestamp,
    Read(RadolanReadError),
    Cell(GridError),
}

/// The filters for a month archive: every month archive is opened, day archives
/// are kept when their day meets the window, grid files when their minute lies in it.
pub fn reproc_filters(window: Interval<DateTime>) -> (r: Vec<NameFilter>)
    ensures
        r@ == seq![NameFilter::Any, NameFilter::DayWithin(window), NameFilter::MinuteWithin(window)],
{
    let r = vec![NameFilter::Any, NameFilter::DayWithin(window), NameFilter::MinuteWithin(window)];
    assert(r@ =~= seq![NameFilter::Any, NameFilter::DayWithin(window), NameFilter::MinuteWithin(window)]);
    r
}

/// The filters for an hourly month archive: every archive is opened, and grid
/// files are kept when their minute lies in the window.
pub fn hourly_filters(window: Interval<DateTime>) -> (r: Vec<NameFilter>)
    ensures
        r@ == seq![NameFilter::Any, NameFilter::MinuteWithin(window)],
{
    let r = vec![NameFilter::Any, NameFilter::MinuteWithin(window)];
    assert(r@ =~= seq![NameFilter::Any, NameFilter::MinuteWithin(window)]);
    r
}

/// The record of one grid file: its minute from its name, the precision from
/// its header and its cells at `points` (1-based from the bottom-left cell).
pub fn leaf_record(leaf: &File, points: &Vec<Point<u16>>) -> (r: Result<RadolanRecord, LeafError>)
    ensures
        minute_in_name(leaf.name@) is None ==> r == Err::<RadolanRecord, LeafError>(LeafError::NoTimestamp),
        minute_in_name(leaf.name@) is Some && read_spec(leaf.data@) is Err ==> r == Err::<RadolanRecord, LeafError>(
            LeafError::Read(read_spec(leaf.data@)->Err_0),
        ),
        minute_in_name(leaf.name@) is Some && read_spec(leaf.data@) is Ok ==> ({
            let (h, e) = read_spec(leaf.data@).unwrap();
            let payload = leaf.data@.subrange(e + 1, leaf.data@.len() as int);
            match r {
                Ok(rec) => {
                    &&& rec.time == minute_in_name(leaf.name@).unwrap()
                    &&& rec.precision == h.precision
                    &&& rec.cells@.len() == points@.len()
                    &&& forall|k: int| 0 <= k < points@.len() ==> point_in(h.dimension, payload, #[trigger] points@[k]) == Ok::<BType, GridError>(rec.cells@[k])
                },
                Err(x) => exists|k: int|
                    0 <= k < points@.len() && point_in(h.dimension, payload, #[trigger] points@[k]) is Err
                        && x == LeafError::Cell(point_in(h.dimension, payload, points@[k])->Err_0)
                        && forall|j: int| 0 <= j < k ==> (point_in(h.dimension, payload, #[trigger] points@[j]) is Ok),
            }
        }),
{
    let time = match minute_of_name(leaf.name.as_str()) {
        Some(t) => t,
        None => { return Err(LeafError::NoTimestamp); },
    };
    let file = match RadolanFile::new(leaf.data.as_slice()) {
        Ok(f) => f,
        Err(e) => { return Err(LeafError::Read(e)); },
    };
    let cells = match file.extract_points(points) {
        Ok(v) => v,
        Err(e) => { return Err(LeafError::Cell(e)); },
    };
    let mut out: Vec<BType> = Vec::new();
    let mut k: usize = 0;
    while k < cells.len()
        invariant
            k <= cells@.len(),
            out@.len() == k,
            forall|j: int| 0 <= j < k ==> out@[j] == (#[trigger] cells@[j]).1,
        decreases cells@.len() - k,
    {
        out.push(cells[k].1);
        k = k + 1;
    }
    proof {
        assert forall|j: int| 0 <= j < points@.len() implies point_in(file.header.dimension, file.data@, #[trigger] points@[j]) == Ok::<BType, GridError>(out@[j]) by {
            assert(cells@[j] == (points@[j], file.point_spec(points@[j])->Ok_0));
        }
    }
    Ok(RadolanRecord { time, precision: file.header.precision, cells: out })
}

} // verus!
