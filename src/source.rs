//! Stitching of record series from several buckets into one series clipped to
//! a requested window: each bucket's records are trimmed to the window and
//! only those that start after the last record taken so far are appended.

use vstd::prelude::*;
use crate::datetime::{DateTime, Moment};
use crate::interval::{Interval, Overlaps};

verus! {

/// A record that covers a span of time.
pub trait Timespan {
    spec fn span(&self) -> Interval<DateTime>;

    fn timespan(&self) -> (r: Interval<DateTime>)
        ensures
            r == self.span(),
    ;
}

impl Timespan for Interval<DateTime> {
    open spec fn span(&self) -> Interval<DateTime> {
        *self
    }

    fn timespan(&self) -> (r: Interval<DateTime>) {
        *self
    }
}

/// What every request carries: the window of time asked for.
#[derive(Clone, Copy, Debug, PartialEq, Eq)]
pub struct CommonRequestData {
    pub timespan: Interval<DateTime>,
}

/// A request that carries the common request data.
pub trait Common {
    spec fn common_spec(&self) -> CommonRequestData;

    fn common(&self) -> (r: &CommonRequestData)
        ensures
            *r == self.common_spec(),
    ;
}

impl Common for CommonRequestData {
    open spec fn common_spec(&self) -> CommonRequestData {
        *self
    }

    fn common(&self) -> (r: &CommonRequestData) {
        self
    }
}

/// A file to fetch, with the span it is declared to cover when that is known
/// before fetching.
#[derive(Clone, Debug, PartialEq, Eq)]
pub struct UrlTimeIntervall {
    pub url: String,
    pub interval: Option<Interval<DateTime>>,
}

/// Whether a candidate with the given coverage is worth fetching for `window`.
pub open spec fn wanted(coverage: Option<Interval<DateTime>>, window: Interval<DateTime>) -> bool {
    match coverage {
        None => true,
        Some(c) => !(c.end.rank() < window.start.rank() || c.start.rank() > window.end.rank()),
    }
}

/// The positions of the wanted candidates among the first `n`, in order.
pub open spec fn wanted_positions(cs: Seq<UrlTimeIntervall>, window: Interval<DateTime>, n: int) -> Seq<usize>
    decreases n,
{
    if n <= 0 {
        Seq::empty()
    } else if wanted(cs[n - 1].interval, window) {
        wanted_positions(cs, window, n - 1).push((n - 1) as usize)
    } else {
        wanted_positions(cs, window, n - 1)
    }
}

/// The positions of the candidates whose coverage is unknown or overlaps `window`.
pub fn select_candidates(candidates: &Vec<UrlTimeIntervall>, window: &Interval<DateTime>) -> (r: Vec<usize>)
    ensures
        r@ == wanted_positions(candidates@, *window, candidates@.len() as int),
{
    let mut out: Vec<usize> = Vec::new();
    let mut k: usize = 0;
    while k < candidates.len()
        invariant
            k <= candidates@.len(),
            out@ == wanted_positions(candidates@, *window, k as int),
        decreases candidates@.len() - k,
    {
        let keep = match &candidates[k].interval {
            None => true,
            Some(c) => c.overlaps(window),
        };
        if keep {
            out.push(k);
        }
        k = k + 1;
    }
    out
}

/// The first position from `k` below `hi` whose record does not start before `bound`.
pub open spec fn first_not_before<R: Timespan>(s: Seq<R>, bound: int, k: int, hi: int) -> int
    decreases hi - k,
{
    if k < hi && s[k].span().start.rank() < bound {
        first_not_before(s, bound, k + 1, hi)
    } else {
        k
    }
}

/// The first position from `k` below `hi` whose record starts after `bound`.
pub open spec fn first_after<R: Timespan>(s: Seq<R>, bound: int, k: int, hi: int) -> int
    decreases hi - k,
{
    if k < hi && s[k].span().start.rank() <= bound {
        first_after(s, bound, k + 1, hi)
    } else {
        k
    }
}

/// The bounds of the part of `s` that one bucket contributes: leading records
/// that start before the window are dropped, the records from the first one that
/// starts at or after its end are cut off, and with a watermark the leading
/// records that start at or before it are dropped too.
pub open spec fn contribution<R: Timespan>(s: Seq<R>, window: Interval<DateTime>, mark: Option<DateTime>) -> (int, int) {
    let a = first_not_before(s, window.start.rank(), 0, s.len() as int);
    let b = first_not_before(s, window.end.rank(), a, s.len() as int);
    match mark {
        None => (a, b),
        Some(w) => (first_after(s, w.rank(), a, b), b),
    }
}

/// The records and the watermark after stitching the buckets' record series in order.
pub open spec fn stitched<R: Timespan>(bs: Seq<Seq<R>>, window: Interval<DateTime>) -> (Seq<R>, Option<DateTime>)
    decreases bs.len(),
{
    if bs.len() == 0 {
        (Seq::empty(), None)
    } else {
        let (acc, mark) = stitched(bs.drop_last(), window);
        if done_at(mark, window) {
            (acc, mark)
        } else {
            let (c, b) = contribution(bs.last(), window, mark);
            let next = acc + bs.last().subrange(c, b);
            (next, if next.len() > 0 { Some(next.last().span().end) } else { None })
        }
    }
}

/// A watermark at or after the window's end leaves nothing to add.
pub open spec fn done_at(mark: Option<DateTime>, window: Interval<DateTime>) -> bool {
    match mark {
        Some(w) => w.rank() >= window.end.rank(),
        None => false,
    }
}

proof fn lemma_first_not_before<R: Timespan>(s: Seq<R>, bound: int, k: int, hi: int)
    requires
        0 <= k <= hi <= s.len(),
    ensures
        k <= first_not_before(s, bound, k, hi) <= hi,
        forall|j: int| k <= j < first_not_before(s, bound, k, hi) ==> #[trigger] s[j].span().start.rank() < bound,
        first_not_before(s, bound, k, hi) < hi ==> s[first_not_before(s, bound, k, hi)].span().start.rank() >= bound,
    decreases hi - k,
{
    if k < hi && s[k].span().start.rank() < bound {
        lemma_first_not_before(s, bound, k + 1, hi);
    }
}

proof fn lemma_first_after<R: Timespan>(s: Seq<R>, bound: int, k: int, hi: int)
    requires
        0 <= k <= hi <= s.len(),
    ensures
        k <= first_after(s, bound, k, hi) <= hi,
        first_after(s, bound, k, hi) < hi ==> s[first_after(s, bound, k, hi)].span().start.rank() > bound,
    decreases hi - k,
{
    if k < hi && s[k].span().start.rank() <= bound {
        lemma_first_after(s, bound, k + 1, hi);
    }
}

proof fn lemma_contribution<R: Timespan>(s: Seq<R>, window: Interval<DateTime>, mark: Option<DateTime>)
    ensures
        0 <= contribution(s, window, mark).0 <= contribution(s, window, mark).1 <= s.len(),
{
    let a = first_not_before(s, window.start.rank(), 0, s.len() as int);
    lemma_first_not_before(s, window.start.rank(), 0, s.len() as int);
    lemma_first_not_before(s, window.end.rank(), a, s.len() as int);
    let b = first_not_before(s, window.end.rank(), a, s.len() as int);
    if let Some(w) = mark {
        lemma_first_after(s, w.rank(), a, b);
    }
}

fn first_not_before_at<R: Timespan>(s: &Vec<R>, bound: &DateTime, k: usize) -> (r: usize)
    requires
        k <= s@.len(),
    ensures
        r as int == first_not_before(s@, bound.rank(), k as int, s@.len() as int),
{
    let mut j = k;
    while j < s.len() && s[j].timespan().start.is_before(bound)
        invariant
            k <= j <= s@.len(),
            first_not_before(s@, bound.rank(), j as int, s@.len() as int) == first_not_before(
                s@,
                bound.rank(),
                k as int,
                s@.len() as int,
            ),
        decreases s@.len() - j,
    {
        j = j + 1;
    }
    j
}

fn first_after_at<R: Timespan>(s: &Vec<R>, bound: &DateTime, k: usize, hi: usize) -> (r: usize)
    requires
        k <= hi <= s@.len(),
    ensures
        r as int == first_after(s@, bound.rank(), k as int, hi as int),
{
    let mut j = k;
    while j < hi && !bound.is_before(&s[j].timespan().start)
        invariant
            k <= j <= hi <= s@.len(),
            first_after(s@, bound.rank(), j as int, hi as int) == first_after(
                s@,
                bound.rank(),
                k as int,
                hi as int,
            ),
        decreases hi - j,
    {
        j = j + 1;
    }
    j
}

/// The series stitched so far, with the end of its last record as watermark.
pub struct Stitcher<R> {
    pub records: Vec<R>,
    pub last_timestamp: Option<DateTime>,
}

impl<R: Timespan> Stitcher<R> {
    pub fn new() -> (r: Self)
        ensures
            r.records@ == Seq::<R>::empty(),
            r.last_timestamp is None,
    {
        Stitcher { records: Vec::new(), last_timestamp: None }
    }

    /// Whether the watermark has reached the window's end, so that no later
    /// bucket needs to be fetched.
    pub fn is_done(&self, window: &Interval<DateTime>) -> (r: bool)
        ensures
            r == done_at(self.last_timestamp, *window),
    {
        match &self.last_timestamp {
            Some(w) => !w.is_before(&window.end),
            None => false,
        }
    }

    /// Appends what the next bucket's record series contributes, unless the
    /// watermark has already reached the window's end.
    pub fn append(&mut self, batch: Vec<R>, window: &Interval<DateTime>)
        ensures
            ({
                let (c, b) = contribution(batch@, *window, old(self).last_timestamp);
                let next = old(self).records@ + batch@.subrange(c, b);
                if done_at(old(self).last_timestamp, *window) {
                    *final(self) == *old(self)
                } else {
                    &&& final(self).records@ == next
                    &&& final(self).last_timestamp == (if next.len() > 0 {
                        Some(next.last().span().end)
                    } else {
                        None::<DateTime>
                    })
                }
            }),
    {
        if self.is_done(window) {
            return;
        }
        proof {
            lemma_contribution(batch@, *window, self.last_timestamp);
        }
        let a = first_not_before_at(&batch, &window.start, 0);
        let b = first_not_before_at(&batch, &window.end, a);
        let c = match &self.last_timestamp {
            None => a,
            Some(w) => first_after_at(&batch, w, a, b),
        };
        let ghost whole = batch@;
        let mut batch = batch;
        let mut part = batch.split_off(c);
        part.truncate(b - c);
        proof {
            assert(part@ =~= whole.subrange(c as int, b as int));
        }
        self.records.append(&mut part);
        let n = self.records.len();
        if n > 0 {
            self.last_timestamp = Some(self.records[n - 1].timespan().end);
        } else {
            self.last_timestamp = None;
        }
    }
}

/// Stitches the buckets' record series, in priority order, into one series
/// clipped to `window`.
pub fn stitch<R: Timespan>(batches: Vec<Vec<R>>, window: &Interval<DateTime>) -> (r: Vec<R>)
    ensures
        r@ == stitched(batches@.map_values(|b: Vec<R>| b@), *window).0,
{
    let ghost bs = batches@.map_values(|b: Vec<R>| b@);
    let mut st: Stitcher<R> = Stitcher::new();
    let n = batches.len();
    let mut rest = batches;
    let mut k: usize = 0;
    assert(bs.take(0) =~= Seq::<Seq<R>>::empty());
    while rest.len() > 0
        invariant
            k + rest@.len() == bs.len(),
            bs.len() == n,
            forall|j: int| 0 <= j < rest@.len() ==> #[trigger] rest@[j]@ == bs[k + j],
            (st.records@, st.last_timestamp) == stitched(bs.take(k as int), *window),
        decreases rest@.len(),
    {
        let batch = rest.remove(0);
        proof {
            assert(bs.take(k + 1).drop_last() =~= bs.take(k as int));
            assert(bs.take(k + 1).last() == batch@);
        }
        st.append(batch, window);
        k = k + 1;
    }
    assert(bs.take(k as int) =~= bs);
    st.records
}

/// The records start in strictly increasing order.
pub open spec fn ascending<R: Timespan>(s: Seq<R>) -> bool {
    forall|j: int, k: int|
        #![trigger s[j], s[k]]
        0 <= j < k < s.len() ==> s[j].span().start.rank() < s[k].span().start.rank()
}

/// No record ends before it starts.
pub open spec fn spans_wf<R: Timespan>(s: Seq<R>) -> bool {
    forall|j: int| 0 <= j < s.len() ==> (#[trigger] s[j]).span().wf()
}

/// Every record starts inside the window.
pub open spec fn in_window<R: Timespan>(s: Seq<R>, window: Interval<DateTime>) -> bool {
    forall|j: int| 0 <= j < s.len() ==> window.holds((#[trigger] s[j]).span().start)
}

/// When every bucket yields well-formed records in strictly ascending order of
/// their start, the stitched series is strictly ascending too (no record is
/// taken twice where buckets overlap), every record of it starts inside the
/// window, and the watermark is the end of its last record.
pub proof fn lemma_stitched_ordered<R: Timespan>(bs: Seq<Seq<R>>, window: Interval<DateTime>)
    requires
        forall|i: int| 0 <= i < bs.len() ==> ascending(#[trigger] bs[i]) && spans_wf(bs[i]),
    ensures
        ascending(stitched(bs, window).0),
        spans_wf(stitched(bs, window).0),
        in_window(stitched(bs, window).0, window),
        stitched(bs, window).1 == (if stitched(bs, window).0.len() > 0 {
            Some(stitched(bs, window).0.last().span().end)
        } else {
            None::<DateTime>
        }),
    decreases bs.len(),
{
    if bs.len() > 0 {
        let prev = bs.drop_last();
        assert forall|i: int| 0 <= i < prev.len() implies ascending(#[trigger] prev[i]) && spans_wf(prev[i]) by {
            assert(prev[i] == bs[i]);
        }
        lemma_stitched_ordered(prev, window);
        let (acc, mark) = stitched(prev, window);
        if !done_at(mark, window) {
            let s = bs.last();
            assert(ascending(s) && spans_wf(s)) by {
                assert(s == bs[bs.len() - 1]);
            }
            lemma_contribution(s, window, mark);
            let a = first_not_before(s, window.start.rank(), 0, s.len() as int);
            lemma_first_not_before(s, window.start.rank(), 0, s.len() as int);
            lemma_first_not_before(s, window.end.rank(), a, s.len() as int);
            let b = first_not_before(s, window.end.rank(), a, s.len() as int);
            let c = contribution(s, window, mark).0;
            if let Some(w) = mark {
                lemma_first_after(s, w.rank(), a, b);
            }
            let part = s.subrange(c, b);
            let next = acc + part;
            assert forall|j: int| 0 <= j < part.len() implies window.holds((#[trigger] part[j]).span().start)
                && part[j].span().wf() && (mark matches Some(w) ==> part[j].span().start.rank() > w.rank()) by {
                assert(part[j] == s[c + j]);
                assert(s[c + j].span().start.rank() < window.end.rank());
                if c + j > a {
                    assert(s[a].span().start.rank() < s[c + j].span().start.rank());
                }
                if let Some(w) = mark {
                    if c + j > c {
                        assert(s[c].span().start.rank() < s[c + j].span().start.rank());
                    }
                }
            }
            assert forall|j: int, k: int|
                #![trigger next[j], next[k]]
                0 <= j < k < next.len() implies next[j].span().start.rank() < next[k].span().start.rank() by {
                if k < acc.len() {
                } else if j >= acc.len() {
                    assert(next[j] == s[c + j - acc.len()]);
                    assert(next[k] == s[c + k - acc.len()]);
                } else {
                    let l = acc.len() - 1;
                    assert(next[k] == part[k - acc.len()]);
                    assert(acc[l].span().wf());
                    if j < l {
                        assert(acc[j].span().start.rank() < acc[l].span().start.rank());
                    }
                }
            }
            assert forall|j: int| 0 <= j < next.len() implies (#[trigger] next[j]).span().wf() && window.holds(next[j].span().start) by {
                if j >= acc.len() {
                    assert(next[j] == part[j - acc.len()]);
                }
            }
        }
    }
}

} // verus!
