//! Time ranges with half-open containment and overlap tests, also across the
//! two granularities of dates and date-times.

use vstd::prelude::*;
use crate::datetime::{Date, DateTime, Moment};

verus! {

/// A range of moments from `start` to `end`; well formed when `start` is not after `end`.
#[derive(Clone, Copy, Debug, PartialEq, Eq)]
pub struct Interval<T> {
    pub start: T,
    pub end: T,
}

impl<T: Moment> Interval<T> {
    pub open spec fn wf(&self) -> bool {
        self.start.rank() <= self.end.rank()
    }

    /// Whether `x` lies in the half-open range from `start` to `end`.
    pub open spec fn holds(&self, x: T) -> bool {
        self.start.rank() <= x.rank() < self.end.rank()
    }

    /// The interval from `start` to `end`; fails when `start` is after `end`.
    pub fn new(start: T, end: T) -> (r: Result<Self, ()>)
        ensures
            r is Ok <==> start.rank() <= end.rank(),
            r matches Ok(i) ==> i.start == start && i.end == end,
    {
        if end.is_before(&start) {
            Err(())
        } else {
            Ok(Interval { start, end })
        }
    }

    pub fn start(&self) -> (r: &T)
        ensures
            *r == self.start,
    {
        &self.start
    }

    pub fn end(&self) -> (r: &T)
        ensures
            *r == self.end,
    {
        &self.end
    }

    /// Half-open containment: `start <= x < end`.
    pub fn contains(&self, other: &T) -> (r: bool)
        ensures
            r == self.holds(*other),
    {
        !other.is_before(&self.start) && other.is_before(&self.end)
    }
}

/// An interval holds its own start exactly when it ends after it: an empty
/// interval holds nothing.
pub proof fn lemma_contains_start<T: Moment>(i: Interval<T>)
    ensures
        i.holds(i.start) <==> i.start.rank() < i.end.rank(),
{
}

/// Tests of one range against another, possibly of a different granularity.
pub trait Overlaps<Rhs> {
    /// This range ends strictly before `other` starts.
    spec fn lies_before(&self, other: &Rhs) -> bool;

    /// This range starts strictly after `other` ends.
    spec fn lies_after(&self, other: &Rhs) -> bool;

    fn before(&self, other: &Rhs) -> (r: bool)
        ensures
            r == self.lies_before(other),
    ;

    fn after(&self, other: &Rhs) -> (r: bool)
        ensures
            r == self.lies_after(other),
    ;

    /// Neither range lies wholly before or after the other; the end points count as shared.
    fn overlaps(&self, other: &Rhs) -> (r: bool)
        ensures
            r == !(self.lies_before(other) || self.lies_after(other)),
    {
        !(self.before(other) || self.after(other))
    }
}

impl<T: Moment> Overlaps<Interval<T>> for Interval<T> {
    open spec fn lies_before(&self, other: &Interval<T>) -> bool {
        self.end.rank() < other.start.rank()
    }

    open spec fn lies_after(&self, other: &Interval<T>) -> bool {
        self.start.rank() > other.end.rank()
    }

    fn before(&self, other: &Interval<T>) -> (r: bool) {
        self.end.is_before(&other.start)
    }

    fn after(&self, other: &Interval<T>) -> (r: bool) {
        other.end.is_before(&self.start)
    }
}

impl Overlaps<Interval<Date>> for Interval<DateTime> {
    open spec fn lies_before(&self, other: &Interval<Date>) -> bool {
        self.end.date.rank() < other.start.rank()
    }

    open spec fn lies_after(&self, other: &Interval<Date>) -> bool {
        self.start.date.rank() > other.end.rank()
    }

    fn before(&self, other: &Interval<Date>) -> (r: bool) {
        self.end.date().is_before(other.start())
    }

    fn after(&self, other: &Interval<Date>) -> (r: bool) {
        other.end.is_before(&self.start.date())
    }
}

impl Overlaps<Interval<DateTime>> for Interval<Date> {
    open spec fn lies_before(&self, other: &Interval<DateTime>) -> bool {
        self.end.rank() < other.start.date.rank()
    }

    open spec fn lies_after(&self, other: &Interval<DateTime>) -> bool {
        self.start.rank() > other.end.date.rank()
    }

    fn before(&self, other: &Interval<DateTime>) -> (r: bool) {
        self.end.is_before(&other.start().date())
    }

    fn after(&self, other: &Interval<DateTime>) -> (r: bool) {
        other.end().date().is_before(&self.start)
    }
}

/// The date-time range from the first instant of `date` to the last instant of
/// the last day of its month.
pub fn year_month_to_interval(date: Date) -> (r: Interval<DateTime>)
    requires
        date.wf(),
    ensures
        r.start == date.midnight_at(),
        r.end == date.last_of_month_spec().last_instant_at(),
        r.wf(),
{
    let end = date.last_of_month();
    let days = Interval { start: date, end };
    days.to_date_times()
}

impl Interval<Date> {
    /// The date-time range from the first instant of `start` to the last instant of `end`.
    pub fn to_date_times(&self) -> (r: Interval<DateTime>)
        requires
            self.wf(),
        ensures
            r.start == (DateTime { date: self.start, hour: 0, minute: 0, second: 0, nanosecond: 0 }),
            r.end == (DateTime {
                date: self.end,
                hour: 23,
                minute: 59,
                second: 59,
                nanosecond: 999_999_999,
            }),
            r.wf(),
    {
        Interval { start: self.start.midnight(), end: self.end.last_instant() }
    }
}

} // verus!
