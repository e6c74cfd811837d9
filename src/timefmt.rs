//! Compact textual forms of dates and times: parsing of digit strings such as
//! `YYYYMMDDhhmm` and formatting of zero-padded fields.

use vstd::prelude::*;
use crate::datetime::{Date, DateTime, Moment, is_valid_date, is_valid_time};
use crate::interval::Interval;
use crate::text::{digit_of, is_digit, all_digits, lemma_value_below, number_at, number_in, pow10, text_chars, value_of};

verus! {

/// `s` is exactly `n` digits.
pub open spec fn exact_digits(s: Seq<char>, n: int) -> bool {
    s.len() == n && all_digits(s, 0, n)
}

/// The date of a `YYYYMM` text (a four-digit year and a month number), on the
/// first day of the month.
pub open spec fn yyyymm_spec(s: Seq<char>) -> Option<Date> {
    let y = value_of(s, 0, 4);
    let m = value_of(s, 4, s.len() as int);
    if s.len() >= 4 && number_in(s, 0, 4, 9999) && number_in(s, 4, s.len() as int, 255)
        && is_valid_date(y as int, m as int, 1) {
        Some(Date { year: y as i32, month: m as u8, day: 1 })
    } else {
        None
    }
}

/// The date of a `YYYYMMDD` text.
pub open spec fn yyyymmdd_spec(s: Seq<char>) -> Option<Date> {
    let y = value_of(s, 0, 4);
    let m = value_of(s, 4, 6);
    let d = value_of(s, 6, 8);
    if exact_digits(s, 8) && is_valid_date(y as int, m as int, d as int) {
        Some(Date { year: y as i32, month: m as u8, day: d as u8 })
    } else {
        None
    }
}

/// The date-time of a text of `YYYYMMDD` followed by `n` digits holding the
/// hour and, when `n` is 4, the minute.
pub open spec fn stamp_spec(s: Seq<char>, n: int) -> Option<DateTime> {
    let y = value_of(s, 0, 4);
    let m = value_of(s, 4, 6);
    let d = value_of(s, 6, 8);
    let h = value_of(s, 8, 10);
    let mi = if n == 4 { value_of(s, 10, 12) } else { 0 };
    if exact_digits(s, 8 + n) && is_valid_date(y as int, m as int, d as int) && is_valid_time(
        h as int,
        mi as int,
        0,
        0,
    ) {
        Some(
            DateTime {
                date: Date { year: y as i32, month: m as u8, day: d as u8 },
                hour: h as u8,
                minute: mi as u8,
                second: 0,
                nanosecond: 0,
            },
        )
    } else {
        None
    }
}

pub open spec fn as_result<T>(o: Option<T>) -> Result<T, ()> {
    match o {
        Some(v) => Ok(v),
        None => Err(()),
    }
}

/// Parses `YYYYMM`: a four-digit year followed by the month number.
pub fn parse_yyyymm(s: &str) -> (r: Result<Date, ()>)
    ensures
        r == as_result(yyyymm_spec(s@)),
{
    let cs = text_chars(s);
    if cs.len() < 4 {
        return Err(());
    }
    let y = match number_at(&cs, 0, 4, 9999) { Some(v) => v, None => { return Err(()); } };
    let m = match number_at(&cs, 4, cs.len(), 255) { Some(v) => v, None => { return Err(()); } };
    match Date::new(y as i32, m as u8, 1) {
        Some(d) => Ok(d),
        None => Err(()),
    }
}

/// Reads `n` digits (at most 12) as a whole text, giving the digits' values in pairs after the year.
fn digits_exactly(s: &str, n: usize) -> (r: Option<Vec<char>>)
    requires
        n <= 12,
    ensures
        match r {
            Some(cs) => cs@ == s@ && exact_digits(s@, n as int),
            None => !exact_digits(s@, n as int),
        },
{
    let cs = text_chars(s);
    if cs.len() != n {
        return None;
    }
    let mut k: usize = 0;
    while k < n
        invariant
            k <= n,
            cs@.len() == n,
            cs@ == s@,
            all_digits(cs@, 0, k as int),
        decreases n - k,
    {
        if !('0' <= cs[k] && cs[k] <= '9') {
            assert(!is_digit(cs@[k as int]));
            return None;
        }
        k = k + 1;
    }
    Some(cs)
}

/// The value of the digits `a..b` (at most four of them).
fn field(cs: &Vec<char>, a: usize, b: usize) -> (r: u64)
    requires
        a < b <= cs@.len(),
        b - a <= 4,
        all_digits(cs@, a as int, b as int),
    ensures
        r as nat == value_of(cs@, a as int, b as int),
        r <= 9999,
        b - a <= 2 ==> r <= 99,
{
    proof {
        lemma_value_below(cs@, a as int, b as int);
        reveal_with_fuel(pow10, 5);
        assert(pow10(2) == 100);
        assert(all_digits(cs@, a as int, b as int));
    }
    number_at(cs, a, b, 9999).unwrap()
}

/// Parses `YYYYMMDD`.
pub fn parse_yyyymmdd(s: &str) -> (r: Result<Date, ()>)
    ensures
        r == as_result(yyyymmdd_spec(s@)),
{
    let cs = match digits_exactly(s, 8) { Some(cs) => cs, None => { return Err(()); } };
    let y = field(&cs, 0, 4);
    let m = field(&cs, 4, 6);
    let d = field(&cs, 6, 8);
    match Date::new(y as i32, m as u8, d as u8) {
        Some(v) => Ok(v),
        None => Err(()),
    }
}

/// Parses `YYYYMMDD` as the first instant of that day.
pub fn parse_yyyymmdd_into_date_time(s: &str) -> (r: Result<DateTime, ()>)
    ensures
        match yyyymmdd_spec(s@) {
            Some(d) => r == Ok::<DateTime, ()>(DateTime { date: d, hour: 0, minute: 0, second: 0, nanosecond: 0 }),
            None => r == Err::<DateTime, ()>(()),
        },
{
    let d = parse_yyyymmdd(s)?;
    Ok(d.midnight())
}

fn parse_stamp(s: &str, n: usize) -> (r: Result<DateTime, ()>)
    requires
        n == 2 || n == 4,
    ensures
        r == as_result(stamp_spec(s@, n as int)),
{
    let cs = match digits_exactly(s, 8 + n) { Some(cs) => cs, None => { return Err(()); } };
    let y = field(&cs, 0, 4);
    let m = field(&cs, 4, 6);
    let d = field(&cs, 6, 8);
    let h = field(&cs, 8, 10);
    let mi = if n == 4 { field(&cs, 10, 12) } else { 0 };
    match Date::new(y as i32, m as u8, d as u8) {
        Some(date) => match DateTime::new(date, h as u8, mi as u8, 0, 0) {
            Some(t) => Ok(t),
            None => Err(()),
        },
        None => Err(()),
    }
}

/// Parses `YYYYMMDDhhmm`.
pub fn parse_yyyymmddhhmm(s: &str) -> (r: Result<DateTime, ()>)
    ensures
        r == as_result(stamp_spec(s@, 4)),
{
    parse_stamp(s, 4)
}

/// Parses `YYYYMMDDhh`, at minute 0.
pub fn parse_yyyymmddhh(s: &str) -> (r: Result<DateTime, ()>)
    ensures
        r == as_result(stamp_spec(s@, 2)),
{
    parse_stamp(s, 2)
}

pub open spec fn digit_char(d: nat) -> char {
    if d == 0 { '0' }
    else if d == 1 { '1' }
    else if d == 2 { '2' }
    else if d == 3 { '3' }
    else if d == 4 { '4' }
    else if d == 5 { '5' }
    else if d == 6 { '6' }
    else if d == 7 { '7' }
    else if d == 8 { '8' }
    else { '9' }
}

/// The last `w` decimal digits of `n`, zero-padded.
pub open spec fn digits(n: nat, w: nat) -> Seq<char>
    decreases w,
{
    if w == 0 {
        Seq::empty()
    } else {
        digits(n / 10, (w - 1) as nat).push(digit_char(n % 10))
    }
}

/// A year as four zero-padded digits, with a leading `-` before the common era.
pub open spec fn year_text(y: int) -> Seq<char> {
    if y < 0 {
        seq!['-'] + digits((-y) as nat, 4)
    } else {
        digits(y as nat, 4)
    }
}

fn digit_char_of(d: u32) -> (r: char)
    requires
        d < 10,
    ensures
        r == digit_char(d as nat),
{
    if d == 0 { '0' }
    else if d == 1 { '1' }
    else if d == 2 { '2' }
    else if d == 3 { '3' }
    else if d == 4 { '4' }
    else if d == 5 { '5' }
    else if d == 6 { '6' }
    else if d == 7 { '7' }
    else if d == 8 { '8' }
    else { '9' }
}

fn push_digits(out: &mut Vec<char>, n: u32, w: usize)
    ensures
        final(out)@ == old(out)@ + digits(n as nat, w as nat),
    decreases w,
{
    if w == 0 {
        assert(old(out)@ + digits(n as nat, 0) =~= old(out)@);
        return;
    }
    push_digits(out, n / 10, w - 1);
    out.push(digit_char_of(n % 10));
    assert(final(out)@ =~= old(out)@ + digits(n as nat, w as nat));
}

fn push_year(out: &mut Vec<char>, y: i32)
    requires
        -9999 <= y <= 9999,
    ensures
        final(out)@ == old(out)@ + year_text(y as int),
{
    if y < 0 {
        out.push('-');
        push_digits(out, (-y) as u32, 4);
        assert(final(out)@ =~= old(out)@ + year_text(y as int));
    } else {
        push_digits(out, y as u32, 4);
    }
}

/// Relies on `String`'s `FromIterator<char>`: the string of the given characters in order.
#[verifier::external_body]
fn string_of(cs: &Vec<char>) -> (r: String)
    ensures
        r@ == cs@,
{
    cs.iter().collect()
}

/// The text `YYYYMMDDhhmm` of a date-time.
pub open spec fn stamp_text(date: DateTime) -> Seq<char> {
    year_text(date.date.year as int) + digits(date.date.month as nat, 2) + digits(date.date.day as nat, 2)
        + digits(date.hour as nat, 2) + digits(date.minute as nat, 2)
}

/// `YYYYMMDDhhmm`.
pub fn format_yyyymmddhhmm(date: DateTime) -> (r: String)
    requires
        date.wf(),
    ensures
        r@ == stamp_text(date),
{
    let mut out: Vec<char> = Vec::new();
    push_year(&mut out, date.date.year);
    push_digits(&mut out, date.date.month as u32, 2);
    push_digits(&mut out, date.date.day as u32, 2);
    push_digits(&mut out, date.hour as u32, 2);
    push_digits(&mut out, date.minute as u32, 2);
    assert(out@ =~= year_text(date.date.year as int) + digits(date.date.month as nat, 2) + digits(
        date.date.day as nat,
        2,
    ) + digits(date.hour as nat, 2) + digits(date.minute as nat, 2));
    string_of(&out)
}

/// `hh:mm`.
pub fn format_time_colon(date: DateTime) -> (r: String)
    ensures
        r@ == digits(date.hour as nat, 2) + seq![':'] + digits(date.minute as nat, 2),
{
    let mut out: Vec<char> = Vec::new();
    push_digits(&mut out, date.hour as u32, 2);
    out.push(':');
    push_digits(&mut out, date.minute as u32, 2);
    assert(out@ =~= digits(date.hour as nat, 2) + seq![':'] + digits(date.minute as nat, 2));
    string_of(&out)
}

/// `MM/DD/YYYY`.
pub fn format_date_american(date: DateTime) -> (r: String)
    requires
        date.wf(),
    ensures
        r@ == digits(date.date.month as nat, 2) + seq!['/'] + digits(date.date.day as nat, 2) + seq!['/']
            + year_text(date.date.year as int),
{
    let mut out: Vec<char> = Vec::new();
    push_digits(&mut out, date.date.month as u32, 2);
    out.push('/');
    push_digits(&mut out, date.date.day as u32, 2);
    out.push('/');
    push_year(&mut out, date.date.year);
    assert(out@ =~= digits(date.date.month as nat, 2) + seq!['/'] + digits(date.date.day as nat, 2)
        + seq!['/'] + year_text(date.date.year as int));
    string_of(&out)
}

/// `YYYY-MM-DD`.
pub fn format_date_iso(date: Date) -> (r: String)
    requires
        date.wf(),
    ensures
        r@ == year_text(date.year as int) + seq!['-'] + digits(date.month as nat, 2) + seq!['-']
            + digits(date.day as nat, 2),
{
    let mut out: Vec<char> = Vec::new();
    push_year(&mut out, date.year);
    out.push('-');
    push_digits(&mut out, date.month as u32, 2);
    out.push('-');
    push_digits(&mut out, date.day as u32, 2);
    assert(out@ =~= year_text(date.year as int) + seq!['-'] + digits(date.month as nat, 2) + seq!['-']
        + digits(date.day as nat, 2));
    string_of(&out)
}

/// `hh:mm` of the time of day.
pub fn format_time_iso(time: DateTime) -> (r: String)
    ensures
        r@ == digits(time.hour as nat, 2) + seq![':'] + digits(time.minute as nat, 2),
{
    format_time_colon(time)
}

impl Interval<DateTime> {
    /// The interval between two `YYYYMMDDhhmm` texts; fails when either does not
    /// parse or the start is after the end.
    pub fn parse_str(start: &str, end: &str) -> (r: Result<Self, ()>)
        ensures
            r is Ok <==> stamp_spec(start@, 4) is Some && stamp_spec(end@, 4) is Some
                && stamp_spec(start@, 4).unwrap().rank() <= stamp_spec(end@, 4).unwrap().rank(),
            r matches Ok(i) ==> i.start == stamp_spec(start@, 4).unwrap() && i.end == stamp_spec(end@, 4).unwrap(),
    {
        let s = parse_yyyymmddhhmm(start)?;
        let e = parse_yyyymmddhhmm(end)?;
        Interval::new(s, e)
    }
}

impl Interval<Date> {
    /// The interval between two `YYYYMMDD` texts; fails when either does not
    /// parse or the start is after the end.
    pub fn parse_str(start: &str, end: &str) -> (r: Result<Self, ()>)
        ensures
            r is Ok <==> yyyymmdd_spec(start@) is Some && yyyymmdd_spec(end@) is Some
                && yyyymmdd_spec(start@).unwrap().rank() <= yyyymmdd_spec(end@).unwrap().rank(),
            r matches Ok(i) ==> i.start == yyyymmdd_spec(start@).unwrap() && i.end == yyyymmdd_spec(end@).unwrap(),
    {
        let s = parse_yyyymmdd(start)?;
        let e = parse_yyyymmdd(end)?;
        Interval::new(s, e)
    }
}

proof fn lemma_digit_char(d: nat)
    requires
        d < 10,
    ensures
        is_digit(digit_char(d)),
        digit_of(digit_char(d)) == d,
{
}

/// `value_of` reads only the characters of its range.
proof fn lemma_value_shift(s: Seq<char>, t: Seq<char>, a: int, k: int)
    requires
        0 <= k,
        0 <= a,
        a + k <= s.len(),
        k <= t.len(),
        forall|i: int| 0 <= i < k ==> s[a + i] == t[i],
    ensures
        value_of(s, a, a + k) == value_of(t, 0, k),
        all_digits(t, 0, k) ==> all_digits(s, a, a + k),
    decreases k,
{
    if k > 0 {
        lemma_value_shift(s, t, a, k - 1);
        assert(s[a + k - 1] == t[k - 1]);
        if all_digits(t, 0, k) {
            assert forall|j: int| a <= j < a + k implies is_digit(#[trigger] s[j]) by {
                assert(s[a + (j - a)] == t[j - a]);
            }
        }
    }
}

/// Zero-padded digits read back give the number.
proof fn lemma_digits(n: nat, w: nat)
    requires
        n < pow10(w),
    ensures
        digits(n, w).len() == w,
        all_digits(digits(n, w), 0, w as int),
        value_of(digits(n, w), 0, w as int) == n,
    decreases w,
{
    if w > 0 {
        let p = pow10((w - 1) as nat);
        assert(n / 10 < p) by (nonlinear_arith)
            requires
                n < 10 * p,
        ;
        lemma_digits(n / 10, (w - 1) as nat);
        lemma_digit_char(n % 10);
        let prev = digits(n / 10, (w - 1) as nat);
        let s = digits(n, w);
        assert(s == prev.push(digit_char(n % 10)));
        lemma_value_shift(s, prev, 0, w - 1);
        assert forall|j: int| 0 <= j < w implies is_digit(#[trigger] s[j]) by {
            if j < w - 1 {
                assert(s[j] == prev[j]);
            }
        }
    } else {
        assert(n == 0) by {
            reveal_with_fuel(pow10, 1);
        }
    }
}

/// Reads the `k` characters of `t`, standing at `a` in `s`, as a number.
proof fn lemma_field(s: Seq<char>, t: Seq<char>, a: int, n: nat)
    requires
        n < pow10(t.len()),
        t == digits(n, t.len()),
        a >= 0,
        a + t.len() <= s.len(),
        s.subrange(a, a + t.len()) == t,
    ensures
        value_of(s, a, a + t.len()) == n,
        all_digits(s, a, a + t.len()),
{
    lemma_digits(n, t.len());
    assert forall|i: int| 0 <= i < t.len() implies s[a + i] == t[i] by {
        assert(s.subrange(a, a + t.len())[i] == s[a + i]);
    }
    lemma_value_shift(s, t, a, t.len() as int);
}

/// Reading back what `format_yyyymmddhhmm` writes gives the date-time again,
/// for dates of the common era at a whole minute.
pub proof fn lemma_stamp_round_trip(t: DateTime)
    requires
        t.wf(),
        t.date.year >= 0,
        t.second == 0,
        t.nanosecond == 0,
    ensures
        stamp_spec(stamp_text(t), 4) == Some(t),
{
    reveal_with_fuel(pow10, 5);
    let y = digits(t.date.year as nat, 4);
    let mo = digits(t.date.month as nat, 2);
    let d = digits(t.date.day as nat, 2);
    let h = digits(t.hour as nat, 2);
    let mi = digits(t.minute as nat, 2);
    lemma_digits(t.date.year as nat, 4);
    lemma_digits(t.date.month as nat, 2);
    lemma_digits(t.date.day as nat, 2);
    lemma_digits(t.hour as nat, 2);
    lemma_digits(t.minute as nat, 2);
    let s = stamp_text(t);
    assert(s == y + mo + d + h + mi);
    assert(s.len() == 12);
    assert(s.subrange(0, 4) =~= y);
    assert(s.subrange(4, 6) =~= mo);
    assert(s.subrange(6, 8) =~= d);
    assert(s.subrange(8, 10) =~= h);
    assert(s.subrange(10, 12) =~= mi);
    lemma_field(s, y, 0, t.date.year as nat);
    lemma_field(s, mo, 4, t.date.month as nat);
    lemma_field(s, d, 6, t.date.day as nat);
    lemma_field(s, h, 8, t.hour as nat);
    lemma_field(s, mi, 10, t.minute as nat);
    assert(all_digits(s, 0, 12)) by {
        assert forall|j: int| 0 <= j < 12 implies is_digit(#[trigger] s[j]) by {
            if j < 4 {
            } else if j < 6 {
            } else if j < 8 {
            } else if j < 10 {
            } else {
            }
        }
    }
}

} // verus!
