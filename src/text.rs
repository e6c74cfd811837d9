//! Character-level building blocks of fixed-width text fields: tags, trimming,
//! decimal numbers and splitting, all stated over positions in a character sequence.

use vstd::prelude::*;

verus! {

pub open spec fn is_space(c: char) -> bool {
    c == ' ' || c == '\t' || c == '\n' || c == '\r' || c == '\x0c'
}

pub open spec fn is_digit(c: char) -> bool {
    '0' <= c && c <= '9'
}

pub open spec fn digit_of(c: char) -> nat {
    ((c as u32) - ('0' as u32)) as nat
}

/// `n` characters starting at `i` exist in `s`.
pub open spec fn fits(s: Seq<char>, i: int, n: int) -> bool {
    0 <= i && 0 <= n && i + n <= s.len()
}

/// `s` holds the characters of `t` starting at `i`.
pub open spec fn has_tag(s: Seq<char>, i: int, t: Seq<char>) -> bool {
    fits(s, i, t.len() as int) && s.subrange(i, i + t.len()) == t
}

/// The first position from `i` (below `hi`) that does not hold a space.
pub open spec fn skip_spaces(s: Seq<char>, i: int, hi: int) -> int
    decreases hi - i,
{
    if i < hi && is_space(s[i]) {
        skip_spaces(s, i + 1, hi)
    } else {
        i
    }
}

/// The end of the range `lo..j` once trailing spaces are dropped.
pub open spec fn drop_spaces(s: Seq<char>, lo: int, j: int) -> int
    decreases j - lo,
{
    if j > lo && is_space(s[j - 1]) {
        drop_spaces(s, lo, j - 1)
    } else {
        j
    }
}

/// The bounds of the range `a..b` of `s` without leading and trailing spaces.
pub open spec fn trimmed(s: Seq<char>, a: int, b: int) -> (int, int) {
    let lo = skip_spaces(s, a, b);
    (lo, drop_spaces(s, lo, b))
}

pub open spec fn all_digits(s: Seq<char>, a: int, b: int) -> bool {
    forall|k: int| a <= k < b ==> is_digit(#[trigger] s[k])
}

/// The decimal value of the digits in `a..b`.
pub open spec fn value_of(s: Seq<char>, a: int, b: int) -> nat
    decreases b - a,
{
    if b <= a {
        0
    } else {
        value_of(s, a, b - 1) * 10 + digit_of(s[b - 1])
    }
}

/// The range `a..b` is a non-empty run of digits whose value is at most `max`.
pub open spec fn number_in(s: Seq<char>, a: int, b: int, max: nat) -> bool {
    a < b && all_digits(s, a, b) && value_of(s, a, b) <= max
}

/// The end of the run of digits that starts at `i`.
pub open spec fn digit_run_end(s: Seq<char>, i: int) -> int
    decreases s.len() - i,
{
    if 0 <= i < s.len() && is_digit(s[i]) {
        digit_run_end(s, i + 1)
    } else {
        i
    }
}

/// The pieces of `s` between occurrences of `sep`; an empty `s` has one empty piece.
pub open spec fn split_on(s: Seq<char>, sep: char) -> Seq<Seq<char>>
    decreases s.len(),
{
    if s.len() == 0 {
        seq![Seq::empty()]
    } else {
        let prev = split_on(s.drop_last(), sep);
        if s.last() == sep {
            prev.push(Seq::empty())
        } else {
            prev.update(prev.len() - 1, prev.last().push(s.last()))
        }
    }
}

pub proof fn lemma_split_on_nonempty(s: Seq<char>, sep: char)
    ensures
        split_on(s, sep).len() >= 1,
    decreases s.len(),
{
    if s.len() > 0 {
        lemma_split_on_nonempty(s.drop_last(), sep);
    }
}

proof fn lemma_value_grows(s: Seq<char>, a: int, k: int, b: int)
    requires
        a <= k <= b,
    ensures
        value_of(s, a, k) <= value_of(s, a, b),
    decreases b - k,
{
    if k < b {
        lemma_value_grows(s, a, k, b - 1);
    }
}

pub open spec fn pow10(n: nat) -> nat
    decreases n,
{
    if n == 0 {
        1
    } else {
        10 * pow10((n - 1) as nat)
    }
}

/// The value of `n` digits is below `10^n`.
pub proof fn lemma_value_below(s: Seq<char>, a: int, b: int)
    requires
        a <= b,
        all_digits(s, a, b),
    ensures
        value_of(s, a, b) < pow10((b - a) as nat),
    decreases b - a,
{
    if a < b {
        lemma_value_below(s, a, b - 1);
        let v = value_of(s, a, b - 1);
        let p = pow10((b - 1 - a) as nat);
        let d = digit_of(s[b - 1]);
        assert(is_digit(s[b - 1]));
        assert(d <= 9);
        assert(v * 10 + d < 10 * p) by (nonlinear_arith)
            requires
                v < p,
                d <= 9,
        ;
    }
}

proof fn lemma_digit_run(s: Seq<char>, i: int)
    requires
        0 <= i <= s.len(),
    ensures
        i <= digit_run_end(s, i) <= s.len(),
        all_digits(s, i, digit_run_end(s, i)),
    decreases s.len() - i,
{
    if i < s.len() && is_digit(s[i]) {
        lemma_digit_run(s, i + 1);
    }
}

pub fn is_space_char(c: char) -> (r: bool)
    ensures
        r == is_space(c),
{
    c == ' ' || c == '\t' || c == '\n' || c == '\r' || c == '\x0c'
}

/// Whether `a` stands at `i`.
pub fn tag1_at(cs: &Vec<char>, i: usize, a: char) -> (r: bool)
    ensures
        r == has_tag(cs@, i as int, seq![a]),
{
    if i < cs.len() && cs[i] == a {
        assert(cs@.subrange(i as int, i + 1) =~= seq![a]);
        true
    } else {
        proof {
            if has_tag(cs@, i as int, seq![a]) {
                assert(cs@.subrange(i as int, i + 1)[0] == a);
            }
        }
        false
    }
}

/// Whether `a` and `b` stand at `i`.
pub fn tag2_at(cs: &Vec<char>, i: usize, a: char, b: char) -> (r: bool)
    ensures
        r == has_tag(cs@, i as int, seq![a, b]),
{
    if i < cs.len() && cs.len() - i >= 2 && cs[i] == a && cs[i + 1] == b {
        assert(cs@.subrange(i as int, i + 2) =~= seq![a, b]);
        true
    } else {
        proof {
            if has_tag(cs@, i as int, seq![a, b]) {
                assert(cs@.subrange(i as int, i + 2)[0] == a);
                assert(cs@.subrange(i as int, i + 2)[1] == b);
            }
        }
        false
    }
}

/// Whether `a`, `b` and `c` stand at `i`.
pub fn tag3_at(cs: &Vec<char>, i: usize, a: char, b: char, c: char) -> (r: bool)
    ensures
        r == has_tag(cs@, i as int, seq![a, b, c]),
{
    if i < cs.len() && cs.len() - i >= 3 && cs[i] == a && cs[i + 1] == b && cs[i + 2] == c {
        assert(cs@.subrange(i as int, i + 3) =~= seq![a, b, c]);
        true
    } else {
        proof {
            if has_tag(cs@, i as int, seq![a, b, c]) {
                assert(cs@.subrange(i as int, i + 3)[0] == a);
                assert(cs@.subrange(i as int, i + 3)[1] == b);
                assert(cs@.subrange(i as int, i + 3)[2] == c);
            }
        }
        false
    }
}

/// The bounds of `a..b` without leading and trailing spaces.
pub fn trim_range(cs: &Vec<char>, a: usize, b: usize) -> (r: (usize, usize))
    requires
        a <= b <= cs.len(),
    ensures
        r.0 as int == trimmed(cs@, a as int, b as int).0,
        r.1 as int == trimmed(cs@, a as int, b as int).1,
        a <= r.0 <= r.1 <= b,
{
    let mut lo = a;
    while lo < b && is_space_char(cs[lo])
        invariant
            a <= lo <= b <= cs.len(),
            skip_spaces(cs@, lo as int, b as int) == skip_spaces(cs@, a as int, b as int),
        decreases b - lo,
    {
        lo = lo + 1;
    }
    let mut hi = b;
    while hi > lo && is_space_char(cs[hi - 1])
        invariant
            lo <= hi <= b <= cs.len(),
            lo == skip_spaces(cs@, a as int, b as int),
            drop_spaces(cs@, lo as int, hi as int) == drop_spaces(cs@, lo as int, b as int),
        decreases hi - lo,
    {
        hi = hi - 1;
    }
    (lo, hi)
}

/// The value of the digits in `a..b` when they form a non-empty number of at most `max`.
pub fn number_at(cs: &Vec<char>, a: usize, b: usize, max: u64) -> (r: Option<u64>)
    requires
        a <= b <= cs.len(),
        max <= u32::MAX,
    ensures
        r is Some <==> number_in(cs@, a as int, b as int, max as nat),
        r matches Some(v) ==> v as nat == value_of(cs@, a as int, b as int),
{
    if a == b {
        return None;
    }
    let mut v: u64 = 0;
    let mut k = a;
    while k < b
        invariant
            a <= k <= b <= cs.len(),
            max <= u32::MAX,
            all_digits(cs@, a as int, k as int),
            v as nat == value_of(cs@, a as int, k as int),
            v <= max,
        decreases b - k,
    {
        let c = cs[k];
        if !('0' <= c && c <= '9') {
            return None;
        }
        let d = (c as u32 - '0' as u32) as u64;
        if v * 10 + d > max {
            proof {
                lemma_value_grows(cs@, a as int, k + 1, b as int);
            }
            return None;
        }
        v = v * 10 + d;
        k = k + 1;
    }
    Some(v)
}

/// The end of the run of digits that starts at `i`.
pub fn digit_run(cs: &Vec<char>, i: usize) -> (r: usize)
    requires
        i <= cs.len(),
    ensures
        r as int == digit_run_end(cs@, i as int),
        i <= r <= cs.len(),
        all_digits(cs@, i as int, r as int),
{
    let mut j = i;
    while j < cs.len() && '0' <= cs[j] && cs[j] <= '9'
        invariant
            i <= j <= cs.len(),
            digit_run_end(cs@, j as int) == digit_run_end(cs@, i as int),
        decreases cs.len() - j,
    {
        j = j + 1;
    }
    proof {
        lemma_digit_run(cs@, i as int);
    }
    j
}

/// The ranges of the pieces of `a..b` between occurrences of `sep`.
pub fn split_ranges(cs: &Vec<char>, a: usize, b: usize, sep: char) -> (r: Vec<(usize, usize)>)
    requires
        a <= b <= cs.len(),
    ensures
        r@.len() == split_on(cs@.subrange(a as int, b as int), sep).len(),
        forall|k: int|
            0 <= k < r@.len() ==> {
                &&& a <= (#[trigger] r@[k]).0 <= r@[k].1 <= b
                &&& cs@.subrange(r@[k].0 as int, r@[k].1 as int) == split_on(
                    cs@.subrange(a as int, b as int),
                    sep,
                )[k]
            },
{
    let ghost s = cs@;
    let mut out: Vec<(usize, usize)> = Vec::new();
    let mut start = a;
    let mut j = a;
    proof {
        assert(s.subrange(a as int, a as int) =~= Seq::<char>::empty());
    }
    while j < b
        invariant
            a <= start <= j <= b <= cs.len(),
            s == cs@,
            out@.len() + 1 == split_on(s.subrange(a as int, j as int), sep).len(),
            s.subrange(start as int, j as int) == split_on(s.subrange(a as int, j as int), sep).last(),
            forall|k: int|
                0 <= k < out@.len() ==> {
                    &&& a <= (#[trigger] out@[k]).0 <= out@[k].1 <= j
                    &&& s.subrange(out@[k].0 as int, out@[k].1 as int) == split_on(
                        s.subrange(a as int, j as int),
                        sep,
                    )[k]
                },
        decreases b - j,
    {
        let ghost prev = split_on(s.subrange(a as int, j as int), sep);
        proof {
            lemma_split_on_nonempty(s.subrange(a as int, j as int), sep);
            assert(s.subrange(a as int, j + 1).drop_last() =~= s.subrange(a as int, j as int));
        }
        if cs[j] == sep {
            out.push((start, j));
            start = j + 1;
            j = j + 1;
            proof {
                assert(s.subrange(start as int, j as int) =~= Seq::<char>::empty());
            }
        } else {
            j = j + 1;
            proof {
                assert(s.subrange(start as int, j as int) =~= s.subrange(
                    start as int,
                    j - 1,
                ).push(s[j - 1]));
            }
        }
    }
    out.push((start, b));
    out
}

/// The characters of `text` as a vector.
pub fn text_chars(text: &str) -> (r: Vec<char>)
    ensures
        r@ == text@,
{
    let n = text.unicode_len();
    let mut out: Vec<char> = Vec::new();
    let mut k: usize = 0;
    while k < n
        invariant
            k <= n,
            n == text@.len(),
            out@ == text@.subrange(0, k as int),
        decreases n - k,
    {
        out.push(text.get_char(k));
        k = k + 1;
        proof {
            assert(out@ =~= text@.subrange(0, k as int));
        }
    }
    proof {
        assert(out@ =~= text@);
    }
    out
}

/// Column `k` of a line whose columns are separated by `sep`.
pub fn column_at<'a>(line: &'a str, k: usize, sep: char) -> (r: Option<&'a str>)
    ensures
        match r {
            Some(t) => k < split_on(line@, sep).len() && t@ == split_on(line@, sep)[k as int],
            None => k >= split_on(line@, sep).len(),
        },
{
    let cs = text_chars(line);
    let ranges = split_ranges(&cs, 0, cs.len(), sep);
    proof {
        assert(cs@.subrange(0, cs@.len() as int) =~= line@);
    }
    if k >= ranges.len() {
        return None;
    }
    let (a, b) = ranges[k];
    Some(line.substring_char(a, b))
}

} // verus!
