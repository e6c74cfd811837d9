//! Station climate series: records are lines of a `;`-separated table whose
//! second (and third) column give the span the line covers.

use vstd::prelude::*;
use crate::datetime::{DateTime, Moment};
use crate::interval::Interval;
use crate::source::{Common, CommonRequestData, Timespan, stitch, stitched};
use crate::text::{column_at, split_on};
use crate::timefmt::{parse_yyyymmdd_into_date_time, yyyymmdd_spec};

verus! {

/// The time resolution of a climate series.
#[derive(Clone, Copy, Debug, PartialEq, Eq, Structural)]
pub enum ClimateResolution {
    ClimateDaily,
    ClimateMonthly,
    ClimateAnnual,
}

impl ClimateResolution {
    pub open spec fn header_text(&self) -> Seq<char> {
        match self {
            ClimateResolution::ClimateDaily => "STATIONS_ID;MESS_DATUM;QN_3;  FX;  FM;QN_4; RSK;RSKF; SDK;SHK_TAG;  NM; VPM;  PM; TMK; UPM; TXK; TNK; TGK;eor"@,
            ClimateResolution::ClimateMonthly => "STATIONS_ID;MESS_DATUM_BEGINN;MESS_DATUM_ENDE;QN_4;MO_N;MO_TT;MO_TX;MO_TN;MO_FK;MX_TX;MX_FX;MX_TN;MO_SD_S;QN_6;MO_RR;MX_RS;eor"@,
            ClimateResolution::ClimateAnnual => "STATIONS_ID;MESS_DATUM_BEGINN;MESS_DATUM_ENDE;QN_4;JA_N;JA_TT;JA_TX;JA_TN;JA_FK;JA_SD_S;JA_MX_FX;JA_MX_TX;JA_MX_TN;QN_6;JA_RR;JA_MX_RS;eor"@,
        }
    }

    /// The column header line of the table.
    pub fn header(&self) -> (r: String)
        ensures
            r@ == self.header_text(),
    {
        match self {
            ClimateResolution::ClimateDaily => "STATIONS_ID;MESS_DATUM;QN_3;  FX;  FM;QN_4; RSK;RSKF; SDK;SHK_TAG;  NM; VPM;  PM; TMK; UPM; TXK; TNK; TGK;eor".to_owned(),
            ClimateResolution::ClimateMonthly => "STATIONS_ID;MESS_DATUM_BEGINN;MESS_DATUM_ENDE;QN_4;MO_N;MO_TT;MO_TX;MO_TN;MO_FK;MX_TX;MX_FX;MX_TN;MO_SD_S;QN_6;MO_RR;MX_RS;eor".to_owned(),
            ClimateResolution::ClimateAnnual => "STATIONS_ID;MESS_DATUM_BEGINN;MESS_DATUM_ENDE;QN_4;JA_N;JA_TT;JA_TX;JA_TN;JA_FK;JA_SD_S;JA_MX_FX;JA_MX_TX;JA_MX_TN;QN_6;JA_RR;JA_MX_RS;eor".to_owned(),
        }
    }
}

/// One line of a climate table with the span it covers.
#[derive(Clone, Debug, PartialEq, Eq)]
pub struct ClimateRecord {
    pub timespan: Interval<DateTime>,
    pub data: String,
}

impl Timespan for ClimateRecord {
    open spec fn span(&self) -> Interval<DateTime> {
        self.timespan
    }

    fn timespan(&self) -> (r: Interval<DateTime>) {
        self.timespan
    }
}

/// A request for a station's climate series.
#[derive(Clone, Debug, PartialEq, Eq)]
pub struct ClimateCommonRequestData {
    pub common: CommonRequestData,
    pub station: String,
    pub resolution: ClimateResolution,
}

impl Common for ClimateCommonRequestData {
    open spec fn common_spec(&self) -> CommonRequestData {
        self.common
    }

    fn common(&self) -> (r: &CommonRequestData) {
        &self.common
    }
}

/// The first instant of the day written as `YYYYMMDD` in column `k` of a line.
pub open spec fn column_day(line: Seq<char>, k: int) -> Option<DateTime> {
    let cols = split_on(line, ';');
    if k < cols.len() {
        match yyyymmdd_spec(cols[k]) {
            Some(d) => Some(DateTime { date: d, hour: 0, minute: 0, second: 0, nanosecond: 0 }),
            None => None,
        }
    } else {
        None
    }
}

/// The span of a line: from the day in its second column to the day in its
/// third column, or, for daily lines, the instant the second column names.
pub open spec fn line_span(line: Seq<char>, daily: bool) -> Option<Interval<DateTime>> {
    let end_column = if daily { 1int } else { 2int };
    match (column_day(line, 1), column_day(line, end_column)) {
        (Some(s), Some(e)) => if s.rank() <= e.rank() {
            Some(Interval { start: s, end: e })
        } else {
            None
        },
        _ => None,
    }
}

/// The day in column `k`, at midnight.
fn column_day_at(line: &str, k: usize) -> (r: Result<DateTime, ()>)
    ensures
        match column_day(line@, k as int) {
            Some(t) => r == Ok::<DateTime, ()>(t),
            None => r == Err::<DateTime, ()>(()),
        },
{
    let field = match column_at(line, k, ';') { Some(f) => f, None => { return Err(()); } };
    parse_yyyymmdd_into_date_time(field)
}

/// The span covered by a line of a monthly or annual table: from the day in
/// its second column to the day in its third.
pub fn extract_timespan(s: &str) -> (r: Result<Interval<DateTime>, ()>)
    ensures
        match line_span(s@, false) {
            Some(i) => r == Ok::<Interval<DateTime>, ()>(i),
            None => r == Err::<Interval<DateTime>, ()>(()),
        },
{
    let start = match column_day_at(s, 1) { Ok(t) => t, Err(e) => { return Err(e); } };
    let end = match column_day_at(s, 2) { Ok(t) => t, Err(e) => { return Err(e); } };
    proof {
        assert(column_day(s@, 1) == Some(start));
        assert(column_day(s@, 2) == Some(end));
    }
    match Interval::new(start, end) {
        Ok(i) => Ok(i),
        Err(_) => Err(()),
    }
}

impl ClimateRecord {
    /// The record of one table line; daily lines cover the instant their
    /// second column names.
    pub fn from_line(line: &str, resolution: ClimateResolution) -> (r: Result<ClimateRecord, ()>)
        ensures
            match line_span(line@, resolution == ClimateResolution::ClimateDaily) {
                Some(i) => r matches Ok(c) && c.timespan == i && c.data@ == line@,
                None => r is Err,
            },
    {
        let timespan = match resolution {
            ClimateResolution::ClimateDaily => {
                let t = column_day_at(line, 1)?;
                Interval::new(t, t)?
            },
            _ => extract_timespan(line)?,
        };
        Ok(ClimateRecord { timespan, data: line.to_owned() })
    }
}

/// The lines of the records, each followed by a line break.
pub open spec fn joined(records: Seq<ClimateRecord>) -> Seq<char>
    decreases records.len(),
{
    if records.len() == 0 {
        Seq::empty()
    } else {
        joined(records.drop_last()) + records.last().data@ + seq!['\n']
    }
}

/// The table: the header line of the resolution, then one line per record.
pub fn climate_data_to_string(records: Vec<ClimateRecord>, resolution: &ClimateResolution) -> (r: String)
    ensures
        r@ == resolution.header_text() + seq!['\n'] + joined(records@),
{
    let mut out = resolution.header();
    out.append("\n");
    proof {
        reveal_strlit("\n");
        assert(records@.take(0) =~= Seq::<ClimateRecord>::empty());
        assert(out@ =~= resolution.header_text() + seq!['\n'] + joined(records@.take(0)));
    }
    let mut k: usize = 0;
    while k < records.len()
        invariant
            k <= records@.len(),
            out@ == resolution.header_text() + seq!['\n'] + joined(records@.take(k as int)),
        decreases records@.len() - k,
    {
        out.append(records[k].data.as_str());
        out.append("\n");
        proof {
            reveal_strlit("\n");
            assert(records@.take(k + 1).drop_last() =~= records@.take(k as int));
            assert(out@ =~= resolution.header_text() + seq!['\n'] + joined(records@.take(k + 1)));
        }
        k = k + 1;
    }
    proof {
        assert(records@.take(records@.len() as int) =~= records@);
    }
    out
}

/// The climate product: station series stitched from the historical and the recent bucket.
pub struct ClimateProduct;

impl ClimateProduct {
    /// Stitches the buckets' records, in priority order, to the requested window.
    pub fn download(&self, batches: Vec<Vec<ClimateRecord>>, request: &ClimateCommonRequestData) -> (r: Vec<ClimateRecord>)
        ensures
            r@ == stitched(batches@.map_values(|b: Vec<ClimateRecord>| b@), request.common.timespan).0,
    {
        stitch(batches, &request.common.timespan)
    }
}

} // verus!
