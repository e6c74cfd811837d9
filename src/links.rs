//! Links of an HTML directory listing.

use vstd::prelude::*;
use crate::text::{all_digits, lemma_value_below, number_at, pow10, text_chars, value_of};

verus! {

/// For each match of `pattern` in `text`, left to right, what its group named
/// `group` captured; nothing when `pattern` is no valid expression.
pub uninterp spec fn group_matches_of(pattern: Seq<char>, text: Seq<char>, group: Seq<char>) -> Option<Seq<Option<Seq<char>>>>;

pub open spec fn captures_view(v: Seq<Option<String>>) -> Seq<Option<Seq<char>>> {
    v.map_values(|c: Option<String>| match c {
        Some(s) => Some(s@),
        None => None,
    })
}

pub open spec fn strings_view(v: Seq<String>) -> Seq<Seq<char>> {
    v.map_values(|s: String| s@)
}

/// Relies on `regex::Regex::new` and `Regex::captures_iter` with `Captures::name`:
/// the matches depend on the pattern, the text and the group name alone.
#[verifier::external_body]
fn group_matches(pattern: &str, text: &str, group: &str) -> (r: Option<Vec<Option<String>>>)
    ensures
        match r {
            Some(v) => group_matches_of(pattern@, text@, group@) == Some(captures_view(v@)),
            None => group_matches_of(pattern@, text@, group@) is None,
        },
{
    let re = regex::Regex::new(pattern).ok()?;
    Some(re.captures_iter(text).map(|c| c.name(group).map(|m| m.as_str().to_string())).collect())
}

pub open spec fn link_prefix() -> Seq<char> {
    seq!['<', 'a', ' ', 'h', 'r', 'e', 'f', '=', '"', '(', '\\', '.', '/', ')', '?', '(', '?', 'P', '<', 'u', 'r', 'l', '>']
}

pub open spec fn link_suffix() -> Seq<char> {
    seq![')', '/', '?', '"', '>']
}

/// The expression for an anchor whose target, with an optional leading `./` and
/// trailing `/`, matches `p`; the target is captured as `url`.
pub open spec fn link_pattern(p: Seq<char>) -> Seq<char> {
    link_prefix() + p + link_suffix()
}

/// The captured texts, skipping matches where nothing was captured.
pub open spec fn captured(ms: Seq<Option<Seq<char>>>) -> Seq<Seq<char>>
    decreases ms.len(),
{
    if ms.len() == 0 {
        Seq::empty()
    } else {
        match ms.last() {
            Some(t) => captured(ms.drop_last()).push(t),
            None => captured(ms.drop_last()),
        }
    }
}

pub open spec fn links_spec(text: Seq<char>, pattern: Seq<char>) -> Seq<Seq<char>> {
    match group_matches_of(link_pattern(pattern), text, seq!['u', 'r', 'l']) {
        Some(ms) => captured(ms),
        None => Seq::empty(),
    }
}

/// The targets of the anchors of `text` that match `regex`, in order; none when
/// `regex` is not a valid expression.
pub fn links_in_text(text: &str, regex: &str) -> (r: Vec<String>)
    ensures
        strings_view(r@) == links_spec(text@, regex@),
{
    let pattern = "<a href=\"(\\./)?(?P<url>".to_owned().concat(regex).concat(")/?\">");
    proof {
        reveal_strlit("<a href=\"(\\./)?(?P<url>");
        reveal_strlit(")/?\">");
        reveal_strlit("url");
        assert(pattern@ =~= link_pattern(regex@));
        assert("url"@ =~= seq!['u', 'r', 'l']);
    }
    let ms = match group_matches(pattern.as_str(), text, "url") {
        Some(ms) => ms,
        None => {
            proof {
                assert(strings_view(Seq::<String>::empty()) =~= Seq::<Seq<char>>::empty());
            }
            return Vec::new();
        },
    };
    let ghost cv = captures_view(ms@);
    let mut out: Vec<String> = Vec::new();
    let mut k: usize = 0;
    proof {
        assert(cv.take(0) =~= Seq::<Option<Seq<char>>>::empty());
        assert(strings_view(out@) =~= Seq::<Seq<char>>::empty());
    }
    while k < ms.len()
        invariant
            k <= ms@.len(),
            cv == captures_view(ms@),
            strings_view(out@) == captured(cv.take(k as int)),
        decreases ms@.len() - k,
    {
        proof {
            assert(cv.take(k + 1).drop_last() =~= cv.take(k as int));
        }
        match &ms[k] {
            Some(s) => {
                out.push(s.clone());
                proof {
                    assert(strings_view(out@) =~= captured(cv.take(k + 1)));
                }
            },
            None => {},
        }
        k = k + 1;
    }
    proof {
        assert(cv.take(ms@.len() as int) =~= cv);
    }
    out
}

/// The four-digit years among `links`, in order.
pub open spec fn years_of(links: Seq<Seq<char>>) -> Seq<i32>
    decreases links.len(),
{
    if links.len() == 0 {
        Seq::empty()
    } else {
        let t = links.last();
        if t.len() == 4 && all_digits(t, 0, 4) {
            years_of(links.drop_last()).push(value_of(t, 0, 4) as i32)
        } else {
            years_of(links.drop_last())
        }
    }
}

pub open spec fn four_digits_pattern() -> Seq<char> {
    seq!['\\', 'd', '{', '4', '}']
}

/// The years that the anchors of `text` link to, as targets of four digits.
pub fn year_links_in_text(text: &str) -> (r: Vec<i32>)
    ensures
        r@ == years_of(links_spec(text@, four_digits_pattern())),
{
    let pattern = "\\d{4}";
    proof {
        reveal_strlit("\\d{4}");
        assert(pattern@ =~= four_digits_pattern());
    }
    let links = links_in_text(text, pattern);
    let ghost lv = strings_view(links@);
    let mut out: Vec<i32> = Vec::new();
    let mut k: usize = 0;
    proof {
        assert(lv.take(0) =~= Seq::<Seq<char>>::empty());
    }
    while k < links.len()
        invariant
            k <= links@.len(),
            lv == strings_view(links@),
            out@ == years_of(lv.take(k as int)),
        decreases links@.len() - k,
    {
        proof {
            assert(lv.take(k + 1).drop_last() =~= lv.take(k as int));
            assert(lv.take(k + 1).last() == links@[k as int]@);
        }
        let cs = text_chars(links[k].as_str());
        if cs.len() == 4 {
            proof {
                if all_digits(cs@, 0, 4) {
                    lemma_value_below(cs@, 0, 4);
                    reveal_with_fuel(pow10, 5);
                }
            }
            match number_at(&cs, 0, 4, 9999) {
                Some(v) => {
                    out.push(v as i32);
                },
                None => {},
            }
        }
        k = k + 1;
    }
    proof {
        assert(lv.take(links@.len() as int) =~= lv);
    }
    out
}

} // verus!
