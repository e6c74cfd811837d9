//! Calendar dates and wall-clock date-times held as plain fields, ordered
//! chronologically.

use vstd::prelude::*;

verus! {

/// Whether `y` is a leap year of the proleptic Gregorian calendar.
pub open spec fn is_leap_year(y: int) -> bool {
    (y % 4 == 0 && y % 100 != 0) || y % 400 == 0
}

/// The number of days of month `m` (1 to 12) in year `y`.
pub open spec fn days_in_month(y: int, m: int) -> int {
    if m == 2 {
        if is_leap_year(y) { 29 } else { 28 }
    } else if m == 4 || m == 6 || m == 9 || m == 11 {
        30
    } else {
        31
    }
}

/// A year, month and day naming an existing calendar day in the supported range of years.
pub open spec fn is_valid_date(y: int, m: int, d: int) -> bool {
    &&& -9999 <= y <= 9999
    &&& 1 <= m <= 12
    &&& 1 <= d <= days_in_month(y, m)
}

/// An hour, minute, second and nanosecond naming an instant of a day.
pub open spec fn is_valid_time(h: int, mi: int, s: int, ns: int) -> bool {
    &&& 0 <= h < 24
    &&& 0 <= mi < 60
    &&& 0 <= s < 60
    &&& 0 <= ns < 1_000_000_000
}

/// Relies on `time::Date::from_calendar_date` (with `time::Month::try_from`), built
/// without the `large-dates` feature: it accepts exactly the existing days of
/// years -9999 to 9999.
#[verifier::external_body]
fn calendar_date_exists(year: i32, month: u8, day: u8) -> (r: bool)
    ensures
        r == is_valid_date(year as int, month as int, day as int),
{
    match time::Month::try_from(month) {
        Ok(m) => time::Date::from_calendar_date(year, m, day).is_ok(),
        Err(_) => false,
    }
}

/// Relies on `time::Time::from_hms_nano`: it accepts exactly hours below 24,
/// minutes and seconds below 60 and nanoseconds below one billion.
#[verifier::external_body]
fn clock_time_exists(hour: u8, minute: u8, second: u8, nanosecond: u32) -> (r: bool)
    ensures
        r == is_valid_time(hour as int, minute as int, second as int, nanosecond as int),
{
    time::Time::from_hms_nano(hour, minute, second, nanosecond).is_ok()
}

/// Relies on `time::util::days_in_month` (with `time::Month::try_from`, which
/// accepts the months 1 to 12): the length of the month in the given year.
#[verifier::external_body]
fn month_length(year: i32, month: u8) -> (r: u8)
    requires
        1 <= month <= 12,
    ensures
        r as int == days_in_month(year as int, month as int),
{
    match time::Month::try_from(month) {
        Ok(m) => time::util::days_in_month(m, year),
        Err(_) => 0,
    }
}

/// A calendar day.
#[derive(Clone, Copy, Debug, PartialEq, Eq, Structural)]
pub struct Date {
    pub year: i32,
    pub month: u8,
    pub day: u8,
}

/// A date together with a time of day, without a time zone.
#[derive(Clone, Copy, Debug, PartialEq, Eq, Structural)]
pub struct DateTime {
    pub date: Date,
    pub hour: u8,
    pub minute: u8,
    pub second: u8,
    pub nanosecond: u32,
}

/// A value with a position on a time line; `rank` orders values chronologically.
pub trait Moment: Sized + Copy {
    spec fn rank(&self) -> int;

    fn is_before(&self, other: &Self) -> (r: bool)
        ensures
            r == (self.rank() < other.rank()),
    ;
}

impl Date {
    pub open spec fn wf(&self) -> bool {
        is_valid_date(self.year as int, self.month as int, self.day as int)
    }

    pub open spec fn midnight_at(&self) -> DateTime {
        DateTime { date: *self, hour: 0, minute: 0, second: 0, nanosecond: 0 }
    }

    pub open spec fn last_instant_at(&self) -> DateTime {
        DateTime { date: *self, hour: 23, minute: 59, second: 59, nanosecond: 999_999_999 }
    }

    pub open spec fn last_of_month_spec(&self) -> Date {
        Date { year: self.year, month: self.month, day: days_in_month(self.year as int, self.month as int) as u8 }
    }

    /// The date with the given components, if that day exists.
    pub fn new(year: i32, month: u8, day: u8) -> (r: Option<Date>)
        ensures
            r is Some <==> is_valid_date(year as int, month as int, day as int),
            r matches Some(d) ==> d.year == year && d.month == month && d.day == day,
    {
        if calendar_date_exists(year, month, day) {
            Some(Date { year, month, day })
        } else {
            None
        }
    }

    /// The last day of this date's month.
    pub fn last_of_month(&self) -> (r: Date)
        requires
            self.wf(),
        ensures
            r == self.last_of_month_spec(),
            r.wf(),
            self.rank() <= r.rank(),
    {
        Date { year: self.year, month: self.month, day: month_length(self.year, self.month) }
    }

    /// The first instant of this day.
    pub fn midnight(&self) -> (r: DateTime)
        ensures
            r == (DateTime { date: *self, hour: 0, minute: 0, second: 0, nanosecond: 0 }),
    {
        DateTime { date: *self, hour: 0, minute: 0, second: 0, nanosecond: 0 }
    }

    /// The last representable instant of this day (23:59:59.999999999).
    pub fn last_instant(&self) -> (r: DateTime)
        ensures
            r == (DateTime {
                date: *self,
                hour: 23,
                minute: 59,
                second: 59,
                nanosecond: 999_999_999,
            }),
    {
        DateTime { date: *self, hour: 23, minute: 59, second: 59, nanosecond: 999_999_999 }
    }
}

impl Moment for Date {
    open spec fn rank(&self) -> int {
        self.year * 65536 + self.month * 256 + self.day
    }

    fn is_before(&self, other: &Self) -> (r: bool) {
        if self.year != other.year {
            self.year < other.year
        } else if self.month != other.month {
            self.month < other.month
        } else {
            self.day < other.day
        }
    }
}

impl DateTime {
    pub open spec fn wf(&self) -> bool {
        &&& self.date.wf()
        &&& is_valid_time(
            self.hour as int,
            self.minute as int,
            self.second as int,
            self.nanosecond as int,
        )
    }

    /// The date-time with the given date and clock time, if both exist.
    pub fn new(date: Date, hour: u8, minute: u8, second: u8, nanosecond: u32) -> (r: Option<
        DateTime,
    >)
        ensures
            r is Some <==> date.wf() && is_valid_time(
                hour as int,
                minute as int,
                second as int,
                nanosecond as int,
            ),
            r matches Some(t) ==> t == (DateTime { date, hour, minute, second, nanosecond }),
    {
        if calendar_date_exists(date.year, date.month, date.day) && clock_time_exists(
            hour,
            minute,
            second,
            nanosecond,
        ) {
            Some(DateTime { date, hour, minute, second, nanosecond })
        } else {
            None
        }
    }

    /// The date-time at the given minute, with zero seconds.
    pub fn from_ymdhm(year: i32, month: u8, day: u8, hour: u8, minute: u8) -> (r: Option<DateTime>)
        ensures
            r is Some <==> is_valid_date(year as int, month as int, day as int) && is_valid_time(
                hour as int,
                minute as int,
                0,
                0,
            ),
            r matches Some(t) ==> t == (DateTime {
                date: Date { year, month, day },
                hour,
                minute,
                second: 0,
                nanosecond: 0,
            }),
    {
        match Date::new(year, month, day) {
            Some(d) => DateTime::new(d, hour, minute, 0, 0),
            None => None,
        }
    }

    /// The calendar day of this date-time.
    pub fn date(&self) -> (r: Date)
        ensures
            r == self.date,
    {
        self.date
    }
}

impl Moment for DateTime {
    open spec fn rank(&self) -> int {
        (((self.date.rank() * 256 + self.hour) * 256 + self.minute) * 256 + self.second)
            * 4294967296 + self.nanosecond
    }

    fn is_before(&self, other: &Self) -> (r: bool) {
        if self.date != other.date {
            self.date.is_before(&other.date)
        } else if self.hour != other.hour {
            self.hour < other.hour
        } else if self.minute != other.minute {
            self.minute < other.minute
        } else if self.second != other.second {
            self.second < other.second
        } else {
            self.nanosecond < other.nanosecond
        }
    }
}

} // verus!
