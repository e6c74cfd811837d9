//! Lazy unwrapping of nested gzip and tar containers. A frontier of pending
//! entries is worked off one entry at a time; a name filter per nesting depth
//! decides, before anything is opened, whether an entry is unwrapped further.

use vstd::prelude::*;
use crate::datetime::{Date, DateTime, Moment, is_valid_date, is_valid_time};
use crate::interval::{Interval, Overlaps};
use crate::text::{all_digits, fits, lemma_value_below, number_at, pow10, text_chars, value_of};
use vstd::slice::slice_to_vec;

verus! {

// ---------------------------------------------------------------------------
// Name filters.
/// The first position from `k` where `n` ASCII digits in a row start, or the
/// length of `s`. Digits of other scripts do not count.
pub open spec fn first_digits(s: Seq<char>, n: int, k: int) -> int
    decreases s.len() - k,
{
    if k >= s.len() || k < 0 {
        s.len() as int
    } else if fits(s, k, n) && all_digits(s, k, k + n) {
        k
    } else {
        first_digits(s, n, k + 1)
    }
}

/// The date written as `YYYYMMDD` at the first run of eight ASCII digits of a name.
pub open spec fn day_in_name(s: Seq<char>) -> Option<Date> {
    let i = first_digits(s, 8, 0);
    let y = value_of(s, i, i + 4);
    let m = value_of(s, i + 4, i + 6);
    let d = value_of(s, i + 6, i + 8);
    if i + 8 <= s.len() && is_valid_date(y as int, m as int, d as int) {
        Some(Date { year: y as i32, month: m as u8, day: d as u8 })
    } else {
        None
    }
}

/// The minute written as `YYMMDDhhmm` (of the 21st century) at the first run of
/// ten ASCII digits of a name.
pub open spec fn minute_in_name(s: Seq<char>) -> Option<DateTime> {
    let i = first_digits(s, 10, 0);
    let y = 2000 + value_of(s, i, i + 2);
    let m = value_of(s, i + 2, i + 4);
    let d = value_of(s, i + 4, i + 6);
    let h = value_of(s, i + 6, i + 8);
    let mi = value_of(s, i + 8, i + 10);
    if i + 10 <= s.len() && is_valid_date(y as int, m as int, d as int) && is_valid_time(
        h as int,
        mi as int,
        0,
        0,
    ) {
        Some(
            DateTime {
                date: Date { year: y as i32, month: m as u8, day: d as u8 },
                hour: h as u8,
                minute: mi as u8,
                second: 0,
                nanosecond: 0,
            },
        )
    } else {
        None
    }
}

/// Decides from an entry's name whether it is unwrapped further.
#[derive(Clone, Copy, Debug, PartialEq, Eq)]
pub enum NameFilter {
    /// Every entry passes.
    Any,
    /// Entries whose name holds a day (`YYYYMMDD`) within the window's days.
    DayWithin(Interval<DateTime>),
    /// Entries whose name holds a minute (`YYMMDDhhmm`) inside the window.
    MinuteWithin(Interval<DateTime>),
}

impl NameFilter {
    pub open spec fn keeps(&self, name: Seq<char>) -> bool {
        match self {
            NameFilter::Any => true,
            NameFilter::DayWithin(w) => match day_in_name(name) {
                Some(d) => w.start.date.rank() <= d.rank() <= w.end.date.rank(),
                None => false,
            },
            NameFilter::MinuteWithin(w) => match minute_in_name(name) {
                Some(t) => w.holds(t),
                None => false,
            },
        }
    }

    pub fn accepts(&self, name: &str) -> (r: bool)
        ensures
            r == self.keeps(name@),
    {
        match self {
            NameFilter::Any => true,
            NameFilter::DayWithin(w) => match day_of_name(name) {
                Some(day) => {
                    let days = Interval { start: day, end: day };
                    w.overlaps(&days)
                },
                None => false,
            },
            NameFilter::MinuteWithin(w) => match minute_of_name(name) {
                Some(t) => w.contains(&t),
                None => false,
            },
        }
    }
}

/// The day written as `YYYYMMDD` at the first run of eight ASCII digits of `name`.
pub fn day_of_name(name: &str) -> (r: Option<Date>)
    ensures
        r == day_in_name(name@),
{
    let cs = text_chars(name);
    let i = first_digits_at(&cs, 8);
    if i > cs.len() || cs.len() - i < 8 {
        return None;
    }
    proof {
        lemma_value_below(cs@, i as int, i + 4);
        lemma_value_below(cs@, i + 4, i + 6);
        lemma_value_below(cs@, i + 6, i + 8);
        reveal_with_fuel(pow10, 5);
    }
    let y = number_at(&cs, i, i + 4, 9999);
    let m = number_at(&cs, i + 4, i + 6, 99);
    let d = number_at(&cs, i + 6, i + 8, 99);
    match (y, m, d) {
        (Some(y), Some(m), Some(d)) => Date::new(y as i32, m as u8, d as u8),
        _ => None,
    }
}

/// The minute written as `YYMMDDhhmm` at the first run of ten ASCII digits of `name`.
pub fn minute_of_name(name: &str) -> (r: Option<DateTime>)
    ensures
        r == minute_in_name(name@),
{
    let cs = text_chars(name);
    let i = first_digits_at(&cs, 10);
    if i > cs.len() || cs.len() - i < 10 {
        return None;
    }
    proof {
        lemma_value_below(cs@, i as int, i + 2);
        lemma_value_below(cs@, i + 2, i + 4);
        lemma_value_below(cs@, i + 4, i + 6);
        lemma_value_below(cs@, i + 6, i + 8);
        lemma_value_below(cs@, i + 8, i + 10);
        reveal_with_fuel(pow10, 3);
    }
    let y = number_at(&cs, i, i + 2, 99);
    let m = number_at(&cs, i + 2, i + 4, 99);
    let d = number_at(&cs, i + 4, i + 6, 99);
    let h = number_at(&cs, i + 6, i + 8, 99);
    let mi = number_at(&cs, i + 8, i + 10, 99);
    match (y, m, d, h, mi) {
        (Some(y), Some(m), Some(d), Some(h), Some(mi)) => DateTime::from_ymdhm(
            2000 + y as i32,
            m as u8,
            d as u8,
            h as u8,
            mi as u8,
        ),
        _ => None,
    }
}

/// Where `n` ASCII digits in a row first start, or the length of `cs`.
fn first_digits_at(cs: &Vec<char>, n: usize) -> (r: usize)
    requires
        1 <= n <= 16,
    ensures
        r as int == first_digits(cs@, n as int, 0),
        r <= cs@.len(),
        r < cs@.len() ==> fits(cs@, r as int, n as int) && all_digits(cs@, r as int, r + n),
{
    let len = cs.len();
    let mut k: usize = 0;
    while k < cs.len()
        invariant
            k <= cs@.len(),
            cs@.len() == len,
            1 <= n <= 16,
            first_digits(cs@, n as int, k as int) == first_digits(cs@, n as int, 0),
        decreases cs@.len() - k,
    {
        if cs.len() - k >= n {
            let mut j: usize = 0;
            while j < n && '0' <= cs[k + j] && cs[k + j] <= '9'
                invariant
                    j <= n,
                    k + n <= cs@.len(),
                    cs@.len() == len,
                    all_digits(cs@, k as int, k + j),
                decreases n - j,
            {
                j = j + 1;
            }
            if j == n {
                return k;
            }
        }
        k = k + 1;
    }
    k
}

// ---------------------------------------------------------------------------
// Entries and the outside decoders.
/// A named blob of bytes: a container or a payload.
pub struct File {
    pub name: String,
    pub data: Vec<u8>,
}

impl View for File {
    type V = (Seq<char>, Seq<u8>);

    open spec fn view(&self) -> (Seq<char>, Seq<u8>) {
        (self.name@, self.data@)
    }
}

/// How an entry is opened, by the ending of its name.
#[derive(Clone, Copy, Debug, PartialEq, Eq, Structural)]
pub enum Extension {
    Gz,
    Tar,
    Tgz,
    Other,
}

pub open spec fn ends_with(s: Seq<char>, t: Seq<char>) -> bool {
    s.len() >= t.len() && s.subrange(s.len() - t.len(), s.len() as int) == t
}

pub open spec fn extension_of(name: Seq<char>) -> Extension {
    if ends_with(name, seq!['.', 'g', 'z']) {
        Extension::Gz
    } else if ends_with(name, seq!['.', 't', 'a', 'r']) {
        Extension::Tar
    } else if ends_with(name, seq!['.', 't', 'g', 'z']) {
        Extension::Tgz
    } else {
        Extension::Other
    }
}

/// Whether `cs` ends with the characters of `t`.
fn ends_with_chars(cs: &Vec<char>, t: &Vec<char>) -> (r: bool)
    ensures
        r == ends_with(cs@, t@),
{
    if cs.len() < t.len() {
        return false;
    }
    let off = cs.len() - t.len();
    let len = cs.len();
    let mut k: usize = 0;
    while k < t.len()
        invariant
            k <= t@.len(),
            cs@.len() == len,
            off + t@.len() == cs@.len(),
            forall|j: int| 0 <= j < k ==> cs@[off + j] == t@[j],
        decreases t@.len() - k,
    {
        if cs[off + k] != t[k] {
            assert(cs@.subrange(off as int, cs@.len() as int)[k as int] != t@[k as int]);
            return false;
        }
        k = k + 1;
    }
    assert(cs@.subrange(off as int, cs@.len() as int) =~= t@);
    true
}

impl File {
    pub fn new(name: String, data: Vec<u8>) -> (r: Self)
        ensures
            r.name@ == name@ && r.data@ == data@,
    {
        File { name, data }
    }

    /// How the entry is opened, by the ending of its name.
    pub fn extension(&self) -> (r: Extension)
        ensures
            r == extension_of(self.name@),
    {
        let cs = text_chars(self.name.as_str());
        if ends_with_chars(&cs, &vec!['.', 'g', 'z']) {
            Extension::Gz
        } else if ends_with_chars(&cs, &vec!['.', 't', 'a', 'r']) {
            Extension::Tar
        } else if ends_with_chars(&cs, &vec!['.', 't', 'g', 'z']) {
            Extension::Tgz
        } else {
            Extension::Other
        }
    }
}

/// What gzip decompression of `b` gives with at most `limit` output bytes.
pub uninterp spec fn gunzip_of(b: Seq<u8>, limit: nat) -> Option<Seq<u8>>;

/// Relies on `zune_inflate::DeflateDecoder::decode_gzip` (checksum confirmed,
/// output limit `limit`, checked before each block, so the output may exceed it
/// by up to one block): its result depends on the bytes and the limit alone.
#[verifier::external_body]
fn gunzip(data: &[u8], limit: usize) -> (r: Option<Vec<u8>>)
    ensures
        match r {
            Some(v) => gunzip_of(data@, limit as nat) == Some(v@),
            None => gunzip_of(data@, limit as nat) is None,
        },
{
    let options = zune_inflate::DeflateOptions::default().set_confirm_checksum(true).set_limit(
        limit,
    );
    let mut decoder = zune_inflate::DeflateDecoder::new_with_options(data, options);
    decoder.decode_gzip().ok()
}

/// The output limit for one gzip entry, checked before each block.
pub const GZIP_LIMIT: usize = 2_000_000_000;

/// Decompresses a gzip stream; nothing when the stream is malformed or
/// reaches `GZIP_LIMIT` bytes of output before its last block.
pub fn decode_gz(data: &[u8]) -> (r: Option<Vec<u8>>)
    ensures
        match r {
            Some(v) => gunzip_of(data@, GZIP_LIMIT as nat) == Some(v@),
            None => gunzip_of(data@, GZIP_LIMIT as nat) is None,
        },
{
    gunzip(data, GZIP_LIMIT)
}

/// The entries a tar archive lists: each with its path, the position of its
/// contents and their size.
pub uninterp spec fn tar_entries_of(b: Seq<u8>) -> Option<Seq<(Seq<char>, u64, u64)>>;

/// Relies on `tar::Archive::entries` with `Entry::path_bytes` (read as UTF-8; a
/// path that is not gives nothing), `Entry::raw_file_position` and `Entry::size`:
/// the listing depends on the archive's bytes alone, on every platform.
#[verifier::external_body]
fn tar_listing(data: &[u8]) -> (r: Option<Vec<(String, u64, u64)>>)
    ensures
        match r {
            Some(v) => tar_entries_of(data@) == Some(listing_view(v@)),
            None => tar_entries_of(data@) is None,
        },
{
    let mut archive = tar::Archive::new(data);
    let mut out = Vec::new();
    for entry in archive.entries().ok()? {
        let entry = entry.ok()?;
        let name = String::from_utf8(entry.path_bytes().into_owned()).ok()?;
        out.push((name, entry.raw_file_position(), entry.size()));
    }
    Some(out)
}

/// A listing with its paths as character sequences.
pub open spec fn listing_view(v: Seq<(String, u64, u64)>) -> Seq<(Seq<char>, u64, u64)> {
    v.map_values(|e: (String, u64, u64)| (e.0@, e.1, e.2))
}

/// The files' names and contents.
pub open spec fn files_view(v: Seq<File>) -> Seq<(Seq<char>, Seq<u8>)> {
    v.map_values(|f: File| f@)
}

/// The names of the entries of a zip archive, in the archive's order.
pub uninterp spec fn zip_names_of(b: Seq<u8>) -> Option<Seq<Seq<char>>>;

/// Relies on `zip::ZipArchive::new`, `ZipArchive::len` and `ZipArchive::by_index_raw`
/// with `ZipFile::name`: the names depend on the archive's bytes alone.
#[verifier::external_body]
fn zip_names(data: &[u8]) -> (r: Option<Vec<String>>)
    ensures
        match r {
            Some(v) => zip_names_of(data@) == Some(v@.map_values(|s: String| s@)),
            None => zip_names_of(data@) is None,
        },
{
    let mut archive = zip::ZipArchive::new(std::io::Cursor::new(data)).ok()?;
    let mut names = Vec::new();
    for i in 0..archive.len() {
        names.push(archive.by_index_raw(i).ok()?.name().to_string());
    }
    Some(names)
}

/// The decompressed contents of entry `i` of a zip archive.
pub uninterp spec fn zip_entry_of(b: Seq<u8>, i: nat) -> Option<Seq<u8>>;

/// Relies on `zip::ZipArchive::new` and `ZipArchive::by_index_decrypt` with an
/// empty password (discarded for unencrypted entries), read to its end; an
/// entry that cannot be opened gives nothing. The contents depend on the
/// archive's bytes and the index alone.
#[verifier::external_body]
fn zip_entry(data: &[u8], i: usize) -> (r: Option<Vec<u8>>)
    ensures
        match r {
            Some(v) => zip_entry_of(data@, i as nat) == Some(v@),
            None => zip_entry_of(data@, i as nat) is None,
        },
{
    let mut archive = zip::ZipArchive::new(std::io::Cursor::new(data)).ok()?;
    let mut file = match archive.by_index_decrypt(i, &[]) {
        Ok(Ok(f)) => f,
        Ok(Err(_)) => return None,
        Err(_) => return None,
    };
    let mut buf = Vec::new();
    std::io::Read::read_to_end(&mut file, &mut buf).ok()?;
    Some(buf)
}

/// `t` occurs in `s` starting at `i`.
pub open spec fn occurs_at(s: Seq<char>, t: Seq<char>, i: int) -> bool {
    0 <= i && i + t.len() <= s.len() && s.subrange(i, i + t.len()) == t
}

pub open spec fn has_substring(s: Seq<char>, t: Seq<char>) -> bool {
    exists|i: int| occurs_at(s, t, i)
}

/// The first position from `k` of a name that holds `t`, or the number of names.
pub open spec fn first_holding(ns: Seq<Seq<char>>, t: Seq<char>, k: int) -> int
    decreases ns.len() - k,
{
    if 0 <= k < ns.len() && !has_substring(ns[k], t) {
        first_holding(ns, t, k + 1)
    } else {
        k
    }
}

fn occurs_at_exec(s: &Vec<char>, t: &Vec<char>, i: usize) -> (r: bool)
    requires
        i + t@.len() <= s@.len(),
    ensures
        r == occurs_at(s@, t@, i as int),
{
    let n = s.len();
    let mut j: usize = 0;
    while j < t.len()
        invariant
            j <= t@.len(),
            i + t@.len() <= s@.len(),
            s@.len() == n,
            forall|q: int| 0 <= q < j ==> s@[i + q] == t@[q],
        decreases t@.len() - j,
    {
        if s[i + j] != t[j] {
            assert(s@.subrange(i as int, i + t@.len())[j as int] != t@[j as int]);
            return false;
        }
        j = j + 1;
    }
    assert(s@.subrange(i as int, i + t@.len()) =~= t@);
    true
}

/// Whether `t` occurs in `s`.
fn holds_text(s: &Vec<char>, t: &Vec<char>) -> (r: bool)
    ensures
        r == has_substring(s@, t@),
{
    if t.len() > s.len() {
        return false;
    }
    let last = s.len() - t.len();
    let mut i: usize = 0;
    while i < last
        invariant
            i <= last,
            last + t@.len() == s@.len(),
            forall|q: int| 0 <= q < i ==> !occurs_at(s@, t@, q),
        decreases last - i,
    {
        if occurs_at_exec(s, t, i) {
            return true;
        }
        i = i + 1;
    }
    if occurs_at_exec(s, t, last) {
        return true;
    }
    assert forall|q: int| !occurs_at(s@, t@, q) by {
        if 0 <= q && q + t@.len() <= s@.len() {
            assert(q <= last);
        }
    }
    false
}

/// The contents of the first entry of a zip archive whose name holds `search`;
/// nothing when the archive cannot be read or no name holds it.
pub fn extract_file(b: &[u8], search: &str) -> (r: Option<Vec<u8>>)
    ensures
        match zip_names_of(b@) {
            None => r is None,
            Some(ns) => {
                let k = first_holding(ns, search@, 0);
                if k >= ns.len() {
                    r is None
                } else {
                    match r {
                        Some(v) => zip_entry_of(b@, k as nat) == Some(v@),
                        None => zip_entry_of(b@, k as nat) is None,
                    }
                }
            },
        },
{
    let names = match zip_names(b) { Some(n) => n, None => { return None; } };
    let ghost ns = names@.map_values(|s: String| s@);
    let t = text_chars(search);
    let mut k: usize = 0;
    while k < names.len()
        invariant
            k <= names@.len(),
            ns == names@.map_values(|s: String| s@),
            zip_names_of(b@) == Some(ns),
            t@ == search@,
            first_holding(ns, t@, k as int) == first_holding(ns, t@, 0),
        decreases names@.len() - k,
    {
        let name = text_chars(names[k].as_str());
        if holds_text(&name, &t) {
            return zip_entry(b, k);
        }
        k = k + 1;
    }
    None
}

/// The entries of a listing cut out of the archive's bytes, if all lie within them.
pub open spec fn entry_files(b: Seq<u8>, es: Seq<(Seq<char>, u64, u64)>) -> Option<Seq<(Seq<char>, Seq<u8>)>>
    decreases es.len(),
{
    if es.len() == 0 {
        Some(Seq::empty())
    } else {
        let (name, pos, size) = es.last();
        match entry_files(b, es.drop_last()) {
            Some(fs) => if pos + size <= b.len() {
                Some(fs.push((name, b.subrange(pos as int, pos + size))))
            } else {
                None
            },
            None => None,
        }
    }
}

/// `a` comes before `b` in the order of their characters, comparing from position `k`.
pub open spec fn name_lt(a: Seq<char>, b: Seq<char>, k: int) -> bool
    decreases a.len() - k,
{
    if k < 0 || k >= a.len() {
        k >= 0 && k < b.len()
    } else if k >= b.len() {
        false
    } else if a[k] != b[k] {
        (a[k] as u32) < (b[k] as u32)
    } else {
        name_lt(a, b, k + 1)
    }
}

/// The position at which `x` is inserted into `s`: before the first entry whose
/// name comes after its own.
pub open spec fn insert_position(s: Seq<(Seq<char>, Seq<u8>)>, x: (Seq<char>, Seq<u8>), k: int) -> int
    decreases s.len() - k,
{
    if k < 0 || k >= s.len() {
        s.len() as int
    } else if name_lt(x.0, s[k].0, 0) {
        k
    } else {
        insert_position(s, x, k + 1)
    }
}

/// The entries ordered by name; entries of equal names keep their order.
pub open spec fn sorted_by_name(s: Seq<(Seq<char>, Seq<u8>)>) -> Seq<(Seq<char>, Seq<u8>)>
    decreases s.len(),
{
    if s.len() == 0 {
        s
    } else {
        let t = sorted_by_name(s.drop_last());
        t.insert(insert_position(t, s.last(), 0), s.last())
    }
}

proof fn lemma_name_lt_trans(a: Seq<char>, b: Seq<char>, c: Seq<char>, k: int)
    requires
        0 <= k,
        name_lt(a, b, k),
        name_lt(b, c, k),
    ensures
        name_lt(a, c, k),
    decreases a.len() - k,
{
    if k < a.len() && k < b.len() && k < c.len() && a[k] == b[k] && b[k] == c[k] {
        lemma_name_lt_trans(a, b, c, k + 1);
    }
}

proof fn lemma_name_lt_irrefl(a: Seq<char>, k: int)
    requires
        0 <= k,
    ensures
        !name_lt(a, a, k),
    decreases a.len() - k,
{
    if k < a.len() {
        lemma_name_lt_irrefl(a, k + 1);
    }
}

proof fn lemma_insert_position(s: Seq<(Seq<char>, Seq<u8>)>, x: (Seq<char>, Seq<u8>), k: int)
    requires
        0 <= k <= s.len(),
    ensures
        k <= insert_position(s, x, k) <= s.len(),
        forall|j: int| k <= j < insert_position(s, x, k) ==> !name_lt(x.0, (#[trigger] s[j]).0, 0),
        insert_position(s, x, k) < s.len() ==> name_lt(x.0, s[insert_position(s, x, k)].0, 0),
    decreases s.len() - k,
{
    if k < s.len() && !name_lt(x.0, s[k].0, 0) {
        lemma_insert_position(s, x, k + 1);
    }
}

/// Ordering entries by name gives a rearrangement of them in which no entry's
/// name comes before the name of an entry ahead of it.
pub proof fn lemma_sorted_by_name(s: Seq<(Seq<char>, Seq<u8>)>)
    ensures
        sorted_by_name(s).to_multiset() == s.to_multiset(),
        forall|j: int, k: int|
            #![trigger sorted_by_name(s)[j], sorted_by_name(s)[k]]
            0 <= j < k < sorted_by_name(s).len() ==> !name_lt(sorted_by_name(s)[k].0, sorted_by_name(s)[j].0, 0),
    decreases s.len(),
{
    broadcast use vstd::seq_lib::to_multiset_insert;
    if s.len() == 0 {
        return;
    }
    let prev = s.drop_last();
    let x = s.last();
    lemma_sorted_by_name(prev);
    let t = sorted_by_name(prev);
    lemma_insert_position(t, x, 0);
    let p = insert_position(t, x, 0);
    let u = t.insert(p, x);
    assert(u == sorted_by_name(s));
    vstd::seq_lib::to_multiset_insert(t, p, x);
    assert(s =~= prev.push(x));
    vstd::seq_lib::to_multiset_build(prev, x);
    assert forall|j: int, k: int|
        #![trigger u[j], u[k]]
        0 <= j < k < u.len() implies !name_lt(u[k].0, u[j].0, 0) by {
        if k < p {
            assert(u[j] == t[j] && u[k] == t[k]);
        } else if k == p {
            assert(u[j] == t[j]);
        } else if j == p {
            assert(u[k] == t[k - 1]);
            if k - 1 > p {
                assert(!name_lt(t[k - 1].0, t[p].0, 0));
            }
            if name_lt(t[k - 1].0, x.0, 0) {
                if k - 1 == p {
                    lemma_name_lt_trans(x.0, t[p].0, x.0, 0);
                    lemma_name_lt_irrefl(x.0, 0);
                } else {
                    lemma_name_lt_trans(t[k - 1].0, x.0, t[p].0, 0);
                }
            }
        } else if j < p {
            assert(u[j] == t[j] && u[k] == t[k - 1]);
        } else {
            assert(u[j] == t[j - 1] && u[k] == t[k - 1]);
        }
    }
}

fn name_before(a: &Vec<char>, b: &Vec<char>) -> (r: bool)
    ensures
        r == name_lt(a@, b@, 0),
{
    let mut k: usize = 0;
    while k < a.len() && k < b.len() && a[k] == b[k]
        invariant
            k <= a@.len(),
            k <= b@.len(),
            name_lt(a@, b@, k as int) == name_lt(a@, b@, 0),
        decreases a@.len() - k,
    {
        k = k + 1;
    }
    if k == a.len() {
        k < b.len()
    } else if k == b.len() {
        false
    } else {
        (a[k] as u32) < (b[k] as u32)
    }
}

proof fn lemma_entry_files_none_stays(b: Seq<u8>, es: Seq<(Seq<char>, u64, u64)>, q: int, q2: int)
    requires
        0 <= q <= q2 <= es.len(),
        entry_files(b, es.take(q)) is None,
    ensures
        entry_files(b, es.take(q2)) is None,
    decreases q2 - q,
{
    if q < q2 {
        lemma_entry_files_none_stays(b, es, q, q2 - 1);
        assert(es.take(q2).drop_last() =~= es.take(q2 - 1));
    }
}

/// The entries of a listing as files, in order of their names.
fn entries_by_name(data: &[u8], listing: Vec<(String, u64, u64)>) -> (r: Option<Vec<File>>)
    ensures
        match r {
            Some(v) => entry_files(data@, listing_view(listing@)) is Some
                && files_view(v@) == sorted_by_name(
                entry_files(data@, listing_view(listing@)).unwrap(),
            ),
            None => entry_files(data@, listing_view(listing@)) is None,
        },
{
    let ghost es = listing_view(listing@);
    let mut out: Vec<File> = Vec::new();
    let mut keys: Vec<Vec<char>> = Vec::new();
    let mut rest = listing;
    let n = rest.len();
    let mut k: usize = 0;
    proof {
        assert(es.take(0) =~= Seq::<(Seq<char>, u64, u64)>::empty());
    }
    while rest.len() > 0
        invariant
            k + rest@.len() == n,
            es.len() == n,
            es == listing_view(listing@),
            forall|j: int| 0 <= j < rest@.len() ==> (#[trigger] rest@[j].0)@ == es[k + j].0
                && rest@[j].1 == es[k + j].1 && rest@[j].2 == es[k + j].2,
            entry_files(data@, es.take(k as int)) is Some,
            files_view(out@) == sorted_by_name(entry_files(data@, es.take(k as int)).unwrap()),
            keys@.len() == out@.len(),
            forall|j: int| 0 <= j < keys@.len() ==> (#[trigger] keys@[j])@ == out@[j].name@,
        decreases rest@.len(),
    {
        proof {
            assert(rest@[0].0@ == es[k as int].0);
        }
        let ghost old_rest = rest@;
        let (name, pos, size) = rest.remove(0);
        let ghost prev = entry_files(data@, es.take(k as int)).unwrap();
        proof {
            assert forall|j: int| 0 <= j < rest@.len() implies (#[trigger] rest@[j].0)@ == es[k + 1 + j].0
                && rest@[j].1 == es[k + 1 + j].1 && rest@[j].2 == es[k + 1 + j].2 by {
                assert(rest@[j] == old_rest[j + 1]);
                assert(old_rest[j + 1].0@ == es[k + (j + 1)].0);
            }
            assert(es.take(k + 1).last() == (name@, pos, size));
            assert(es.take(k + 1).drop_last() =~= es.take(k as int));
            assert(es.take(k + 1).last() == es[k as int]);
        }
        if pos > data.len() as u64 || size > data.len() as u64 - pos {
            proof {
                assert(es.take(k + 1).drop_last() =~= es.take(k as int));
                assert(pos + size > data@.len());
                assert(entry_files(data@, es.take(k + 1)) is None);
                assert(k + 1 <= n);
                lemma_entry_files_none_stays(data@, es, k + 1, n as int);
                assert(es.take(n as int) =~= es);
            }
            return None;
        }
        let lo = pos as usize;
        let hi = (pos + size) as usize;
        let bytes = slice_to_vec(&data[lo..hi]);
        let key = text_chars(name.as_str());
        let ghost x = (name@, bytes@);
        let ghost sorted_prev = files_view(out@);
        let mut p: usize = 0;
        while p < out.len() && !name_before(&key, &keys[p])
            invariant
                p <= out@.len(),
                keys@.len() == out@.len(),
                forall|j: int| 0 <= j < keys@.len() ==> (#[trigger] keys@[j])@ == out@[j].name@,
                sorted_prev == files_view(out@),
                key@ == x.0,
                insert_position(sorted_prev, x, p as int) == insert_position(sorted_prev, x, 0),
            decreases out@.len() - p,
        {
            p = p + 1;
        }
        proof {
            if p < out@.len() {
                assert(keys@[p as int]@ == out@[p as int].name@);
                assert(sorted_prev[p as int].0 == out@[p as int].name@);
            }
            assert(bytes@ == data@.subrange(lo as int, hi as int));
            assert(entry_files(data@, es.take(k + 1)) == Some(prev.push(x)));
            assert(prev.push(x).drop_last() =~= prev);
            assert(sorted_by_name(prev.push(x)) == sorted_prev.insert(insert_position(sorted_prev, x, 0), x));
        }
        let ghost old_keys = keys@;
        let ghost old_out = out@;
        out.insert(p, File { name, data: bytes });
        keys.insert(p, key);
        k = k + 1;
        proof {
            assert forall|j: int| 0 <= j < rest@.len() implies (#[trigger] rest@[j].0)@ == es[k + j].0
                && rest@[j].1 == es[k + j].1 && rest@[j].2 == es[k + j].2 by {
                assert(rest@[j] == old_rest[j + 1]);
                assert(old_rest[j + 1].0@ == es[(k - 1) + (j + 1)].0);
            }
            assert(files_view(out@) =~= sorted_prev.insert(p as int, x));
            assert(data@.subrange(lo as int, hi as int) == bytes@);
            assert forall|j: int| 0 <= j < keys@.len() implies (#[trigger] keys@[j])@ == out@[j].name@ by {
                if j < p {
                    assert(keys@[j] == old_keys[j] && out@[j] == old_out[j]);
                } else if j > p {
                    assert(keys@[j] == old_keys[j - 1] && out@[j] == old_out[j - 1]);
                }
            }
        }
    }
    proof {
        assert(es.take(n as int) =~= es);
    }
    Some(out)
}

// ---------------------------------------------------------------------------
// The unwrapping engine.
/// Why a container could not be opened.
#[derive(Clone, Copy, Debug, PartialEq, Eq, Structural)]
pub enum ArchiveFailure {
    /// The entry lies deeper than the filters reach.
    NoFilterForDepth,
    /// The gzip stream is malformed or decompresses to too many bytes.
    Gzip,
    /// The tar archive is malformed.
    Tar,
    /// A tar entry's contents lie outside the archive.
    EntryOutOfBounds,
}

/// A container that could not be opened, by name, with the reason.
#[derive(Clone, Debug, PartialEq, Eq)]
pub struct ArchiveFormatError {
    pub container: String,
    pub reason: ArchiveFailure,
}

/// What one step of unwrapping came to.
pub enum Step {
    /// A payload that passed its depth's filter.
    Leaf(File),
    /// An entry was discarded or opened; there may be more to come.
    Pending,
    /// Nothing is left.
    Finished,
}

/// The outcome of a step, with files as names and contents.
pub enum StepModel {
    Leaf((Seq<char>, Seq<u8>)),
    Pending,
    Finished,
    Failed(Seq<char>, ArchiveFailure),
}

/// One named blob together with the filters for each nesting depth.
pub struct MultiLayerFolder {
    pub file: File,
    pub filters: Vec<NameFilter>,
}

impl MultiLayerFolder {
    pub fn new(file: File, filters: Vec<NameFilter>) -> (r: Self)
        ensures
            r.file@ == file@,
            r.filters@ == filters@,
    {
        MultiLayerFolder { file, filters }
    }

    /// The unwrapping state with the blob as the only pending entry, at depth 0.
    pub fn into_iter(self) -> (r: MultiLayerFolderIter)
        ensures
            r.wf(),
            files_view(r.folder@) == seq![self.file@],
            r.layer_start_index@ == seq![0usize],
            r.filters@ == self.filters@,
    {
        let mut folder: Vec<File> = Vec::new();
        folder.push(self.file);
        let mut layer_start_index: Vec<usize> = Vec::new();
        layer_start_index.push(0);
        proof {
            assert(files_view(folder@) =~= seq![self.file@]);
            assert(layer_start_index@ =~= seq![0usize]);
        }
        MultiLayerFolderIter { folder, current_layer: 0, layer_start_index, filters: self.filters }
    }
}

/// The frontier of pending entries, topmost last; for each open depth the
/// frontier length at which it began; and the filters by depth.
pub struct MultiLayerFolderIter {
    pub folder: Vec<File>,
    pub current_layer: usize,
    pub layer_start_index: Vec<usize>,
    pub filters: Vec<NameFilter>,
}

/// The open depths once those whose entries are all worked off are closed.
pub open spec fn close_layers(len: int, starts: Seq<usize>) -> Seq<usize>
    decreases starts.len(),
{
    if starts.len() > 1 && len < starts.last() {
        close_layers(len, starts.drop_last())
    } else {
        starts
    }
}

proof fn lemma_close_layers(len: int, starts: Seq<usize>)
    requires
        starts.len() >= 1,
    ensures
        1 <= close_layers(len, starts).len() <= starts.len(),
        close_layers(len, starts)[0] == starts[0],
    decreases starts.len(),
{
    if starts.len() > 1 && len < starts.last() {
        lemma_close_layers(len, starts.drop_last());
    }
}

proof fn lemma_reverse<A>(s: Seq<A>)
    ensures
        s.reverse().len() == s.len(),
        forall|i: int| 0 <= i < s.len() ==> #[trigger] s.reverse()[i] == s[s.len() - 1 - i],
{
}

pub open spec fn tar_gz_suffix() -> Seq<char> {
    seq!['.', 't', 'a', 'r', '.', 'g', 'z']
}

/// One step on the frontier `f` with open depths `starts`: the outcome, the
/// frontier after it and the open depths after it.
pub open spec fn step_spec(f: Seq<(Seq<char>, Seq<u8>)>, starts: Seq<usize>, filters: Seq<NameFilter>) -> (StepModel, Seq<(Seq<char>, Seq<u8>)>, Seq<usize>) {
    let cl = close_layers(f.len() as int, starts);
    let depth = cl.len() - 1;
    let top = f.last();
    let rest = f.drop_last();
    let name = top.0;
    let n = name.len() as int;
    if f.len() == 0 {
        (StepModel::Finished, f, starts)
    } else if depth >= filters.len() {
        (StepModel::Failed(name, ArchiveFailure::NoFilterForDepth), rest, cl)
    } else if !filters[depth].keeps(name) {
        (StepModel::Pending, rest, cl)
    } else {
        match extension_of(name) {
            Extension::Gz => match gunzip_of(top.1, GZIP_LIMIT as nat) {
                Some(b) => (StepModel::Pending, rest.push((name.subrange(0, n - 3), b)), cl),
                None => (StepModel::Failed(name, ArchiveFailure::Gzip), rest, cl),
            },
            Extension::Tar => match tar_entries_of(top.1) {
                Some(es) => match entry_files(top.1, es) {
                    Some(fs) => (StepModel::Pending, rest + sorted_by_name(fs).reverse(), cl.push(f.len() as usize)),
                    None => (StepModel::Failed(name, ArchiveFailure::EntryOutOfBounds), rest, cl),
                },
                None => (StepModel::Failed(name, ArchiveFailure::Tar), rest, cl),
            },
            Extension::Tgz => (StepModel::Pending, rest.push((name.subrange(0, n - 4) + tar_gz_suffix(), top.1)), cl),
            Extension::Other => (StepModel::Leaf(top), rest, cl),
        }
    }
}

impl MultiLayerFolderIter {
    /// The depths are numbered from 0 and the first one starts at the bottom of the frontier.
    pub open spec fn wf(&self) -> bool {
        &&& self.layer_start_index@.len() == self.current_layer + 1
        &&& self.layer_start_index@[0] == 0
    }

    pub open spec fn outcome(r: Result<Step, ArchiveFormatError>) -> StepModel {
        match r {
            Ok(Step::Leaf(f)) => StepModel::Leaf(f@),
            Ok(Step::Pending) => StepModel::Pending,
            Ok(Step::Finished) => StepModel::Finished,
            Err(e) => StepModel::Failed(e.container@, e.reason),
        }
    }

    /// Works off the topmost pending entry: closes the depths that are done,
    /// discards the entry if its depth's filter rejects its name, decompresses a
    /// `.gz` entry in place, opens a `.tar` entry one depth further down with its
    /// entries ordered so that they come off by ascending name, renames a `.tgz`
    /// entry to `.tar.gz`, and hands out any other entry as a leaf.
    pub fn step(&mut self) -> (r: Result<Step, ArchiveFormatError>)
        requires
            old(self).wf(),
        ensures
            final(self).wf(),
            final(self).filters@ == old(self).filters@,
            step_spec(files_view(old(self).folder@), old(self).layer_start_index@, old(self).filters@) == (
                MultiLayerFolderIter::outcome(r),
                files_view(final(self).folder@),
                final(self).layer_start_index@,
            ),
    {
        let ghost f0 = files_view(self.folder@);
        if self.folder.len() == 0 {
            return Ok(Step::Finished);
        }
        let len = self.folder.len();
        proof {
            lemma_close_layers(len as int, self.layer_start_index@);
        }
        while self.layer_start_index.len() > 1 && len < self.layer_start_index[self.layer_start_index.len() - 1]
            invariant
                self.layer_start_index@.len() == self.current_layer + 1,
                self.layer_start_index@.len() >= 1,
                self.layer_start_index@[0] == 0,
                close_layers(len as int, self.layer_start_index@) == close_layers(len as int, old(self).layer_start_index@),
                self.folder@ == old(self).folder@,
                self.filters@ == old(self).filters@,
                len == self.folder@.len(),
            decreases self.layer_start_index@.len(),
        {
            self.layer_start_index.pop();
            self.current_layer = self.current_layer - 1;
        }
        let ghost cl = self.layer_start_index@;
        proof {
            assert(cl == close_layers(len as int, old(self).layer_start_index@));
            assert(f0.len() == len);
        }
        let top = self.folder.pop().unwrap();
        proof {
            assert(files_view(self.folder@) =~= f0.drop_last());
            assert(top@ == f0.last());
        }
        let depth = self.current_layer;
        if depth >= self.filters.len() {
            return Err(ArchiveFormatError { container: top.name, reason: ArchiveFailure::NoFilterForDepth });
        }
        if !self.filters[depth].accepts(top.name.as_str()) {
            return Ok(Step::Pending);
        }
        let ghost rest = files_view(self.folder@);
        let n = top.name.as_str().unicode_len();
        match top.extension() {
            Extension::Gz => {
                match decode_gz(top.data.as_slice()) {
                    Some(b) => {
                        let name = top.name.as_str().substring_char(0, n - 3).to_owned();
                        self.folder.push(File { name, data: b });
                        proof {
                            assert(files_view(self.folder@) =~= rest.push(self.folder@.last()@));
                        }
                        Ok(Step::Pending)
                    },
                    None => Err(ArchiveFormatError { container: top.name, reason: ArchiveFailure::Gzip }),
                }
            },
            Extension::Tar => {
                let listing = match tar_listing(top.data.as_slice()) {
                    Some(l) => l,
                    None => { return Err(ArchiveFormatError { container: top.name, reason: ArchiveFailure::Tar }); },
                };
                let mut entries = match entries_by_name(top.data.as_slice(), listing) {
                    Some(v) => v,
                    None => {
                        return Err(ArchiveFormatError { container: top.name, reason: ArchiveFailure::EntryOutOfBounds });
                    },
                };
                self.layer_start_index.push(len);
                self.current_layer = self.current_layer + 1;
                let ghost sorted = files_view(entries@);
                let m = entries.len();
                proof {
                    assert(sorted.subrange(m as int, m as int).reverse() =~= Seq::<(Seq<char>, Seq<u8>)>::empty());
                    assert(files_view(self.folder@) =~= rest + sorted.subrange(m as int, m as int).reverse());
                }
                while entries.len() > 0
                    invariant
                        entries@.len() <= m,
                        sorted.len() == m,
                        files_view(entries@) == sorted.subrange(0, entries@.len() as int),
                        files_view(self.folder@) == rest + sorted.subrange(entries@.len() as int, m as int).reverse(),
                        self.layer_start_index@.len() == self.current_layer + 1,
                        self.layer_start_index@[0] == 0,
                        self.layer_start_index@ == cl.push(len),
                        self.filters@ == old(self).filters@,
                    decreases entries@.len(),
                {
                    let ghost old_entries = entries@;
                    let ghost old_folder = files_view(self.folder@);
                    let e = entries.pop().unwrap();
                    let ghost k = entries@.len();
                    proof {
                        assert(files_view(old_entries)[k as int] == old_entries[k as int]@);
                        assert(e@ == sorted[k as int]);
                    }
                    self.folder.push(e);
                    proof {
                        assert(files_view(entries@) =~= sorted.subrange(0, k as int));
                        lemma_reverse(sorted.subrange(k as int, m as int));
                        lemma_reverse(sorted.subrange(k as int + 1, m as int));
                        assert(files_view(self.folder@) =~= old_folder.push(e@));
                        assert(files_view(self.folder@) =~= rest + sorted.subrange(k as int, m as int).reverse());
                    }
                }
                proof {
                    assert(sorted.subrange(0, m as int) =~= sorted);
                }
                Ok(Step::Pending)
            },
            Extension::Tgz => {
                let base = top.name.as_str().substring_char(0, n - 4).to_owned();
                let name = base.concat(".tar.gz");
                proof {
                    reveal_strlit(".tar.gz");
                    assert(name@ =~= top.name@.subrange(0, n - 4) + tar_gz_suffix());
                }
                self.folder.push(File { name, data: top.data });
                proof {
                    assert(files_view(self.folder@) =~= rest.push(self.folder@.last()@));
                }
                Ok(Step::Pending)
            },
            Extension::Other => Ok(Step::Leaf(top)),
        }
    }
}

} // verus!
