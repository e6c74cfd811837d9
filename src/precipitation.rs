//! Station precipitation tables: lines whose second and third columns give
//! the minutes a line covers.

use vstd::prelude::*;
use crate::datetime::{DateTime, Moment};
use crate::interval::Interval;
use crate::text::{column_at, split_on};
use crate::timefmt::{parse_yyyymmddhhmm, stamp_spec};

verus! {

/// The minute written as `YYYYMMDDhhmm` in column `k` of a line.
pub open spec fn column_minute(line: Seq<char>, k: int) -> Option<DateTime> {
    let cols = split_on(line, ';');
    if k < cols.len() {
        stamp_spec(cols[k], 4)
    } else {
        None
    }
}

/// The span from the minute in the second column to the minute in the third.
pub open spec fn minute_span(line: Seq<char>) -> Option<Interval<DateTime>> {
    match (column_minute(line, 1), column_minute(line, 2)) {
        (Some(s), Some(e)) => if s.rank() <= e.rank() {
            Some(Interval { start: s, end: e })
        } else {
            None
        },
        _ => None,
    }
}

fn column_minute_at(line: &str, k: usize) -> (r: Result<DateTime, ()>)
    ensures
        match column_minute(line@, k as int) {
            Some(t) => r == Ok::<DateTime, ()>(t),
            None => r == Err::<DateTime, ()>(()),
        },
{
    match column_at(line, k, ';') {
        Some(f) => parse_yyyymmddhhmm(f),
        None => Err(()),
    }
}

/// The span covered by a line of a minute table (`STATIONS_ID;MESS_DATUM_BEGINN;MESS_DATUM_ENDE;...`).
pub fn extract_timespan(s: &str) -> (r: Result<Interval<DateTime>, ()>)
    ensures
        match minute_span(s@) {
            Some(i) => r == Ok::<Interval<DateTime>, ()>(i),
            None => r == Err::<Interval<DateTime>, ()>(()),
        },
{
    let start = match column_minute_at(s, 1) { Ok(t) => t, Err(e) => { return Err(e); } };
    let end = match column_minute_at(s, 2) { Ok(t) => t, Err(e) => { return Err(e); } };
    match Interval::new(start, end) {
        Ok(i) => Ok(i),
        Err(_) => Err(()),
    }
}

} // verus!
