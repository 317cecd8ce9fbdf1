//! Regular-expression search, through the `regex` crate, and the mapping of
//! its byte offsets to char indices.

use crate::text::{char_utf8_width, char_width, lemma_utf8_len_prefix_mono, lemma_utf8_len_push, utf8_len};
use vstd::prelude::*;

verus! {

/// What `Regex::new(pattern)` followed by `find_iter(haystack)` yields, as
/// `(start, end)` byte offsets of each match; `None` when `pattern` does not compile.
pub uninterp spec fn regex_find_spans(pattern: Seq<char>, haystack: Seq<char>) -> Option<
    Seq<(usize, usize)>,
>;

/// What `Regex::new(pattern)` followed by `captures_iter(haystack)` yields, as the
/// byte offsets of capture group 0 and of capture group 1 of each match; `None`
/// when `pattern` does not compile.
pub uninterp spec fn regex_capture_spans(pattern: Seq<char>, haystack: Seq<char>) -> Option<
    Seq<(Option<(usize, usize)>, Option<(usize, usize)>)>,
>;

/// Calls `regex::Regex::new` and `Regex::find_iter`; the offsets of the matches
/// are returned as the crate gives them, and equal the named result
/// `regex_find_spans` of the pattern and the haystack.
#[verifier::external_body]
pub(crate) fn regex_find_all(pattern: &str, haystack: &str) -> (r: Option<Vec<(usize, usize)>>)
    ensures
        r matches Some(v) ==> regex_find_spans(pattern@, haystack@) == Some(v@),
        r is None ==> regex_find_spans(pattern@, haystack@) is None,
{
    match regex::Regex::new(pattern) {
        Ok(re) => Some(re.find_iter(haystack).map(|m| (m.start(), m.end())).collect()),
        Err(_) => None,
    }
}

/// Calls `regex::Regex::new` and `Regex::captures_iter`; for each match the byte
/// offsets of groups 0 and 1 are returned as the crate gives them, and equal the
/// named result `regex_capture_spans` of the pattern and the haystack.
#[verifier::external_body]
pub(crate) fn regex_captures_all(pattern: &str, haystack: &str) -> (r: Option<
    Vec<(Option<(usize, usize)>, Option<(usize, usize)>)>,
>)
    ensures
        r matches Some(v) ==> regex_capture_spans(pattern@, haystack@) == Some(v@),
        r is None ==> regex_capture_spans(pattern@, haystack@) is None,
{
    match regex::Regex::new(pattern) {
        Ok(re) => Some(
            re.captures_iter(haystack).map(
                |c| (c.get(0).map(|m| (m.start(), m.end())), c.get(1).map(|m| (m.start(), m.end()))),
            ).collect(),
        ),
        Err(_) => None,
    }
}

/// Byte offset of char index `c` of `s` in its UTF-8 encoding.
pub open spec fn byte_offset(s: Seq<char>, c: int) -> nat {
    utf8_len(s.subrange(0, c))
}

/// The char index whose byte offset is `b`, if `b` falls on a char boundary.
pub open spec fn char_index_of_byte(s: Seq<char>, b: int) -> Option<int> {
    if exists|c: int| 0 <= c <= s.len() && byte_offset(s, c) == b {
        Some(choose|c: int| 0 <= c <= s.len() && byte_offset(s, c) == b)
    } else {
        None
    }
}

proof fn lemma_byte_offset_step(s: Seq<char>, c: int)
    requires
        0 <= c < s.len(),
    ensures
        byte_offset(s, c + 1) == byte_offset(s, c) + char_width(s[c]),
{
    assert(s.subrange(0, c + 1) =~= s.subrange(0, c).push(s[c]));
    lemma_utf8_len_push(s.subrange(0, c), s[c]);
}

proof fn lemma_byte_offset_strict(s: Seq<char>, a: int, b: int)
    requires
        0 <= a < b <= s.len(),
    ensures
        byte_offset(s, a) < byte_offset(s, b),
{
    lemma_utf8_len_prefix_mono(s, a, b);
}

/// The char index of byte offset `b` of `s`, as `char_index_of_byte` states it.
pub fn char_index_at_byte(s: &Vec<char>, b: usize) -> (r: Option<usize>)
    ensures
        r matches Some(c) ==> char_index_of_byte(s@, b as int) == Some(c as int),
        r is None ==> char_index_of_byte(s@, b as int) is None,
{
    let mut c: usize = 0;
    let mut acc: usize = 0;
    assert(s@.subrange(0, 0) =~= Seq::<char>::empty());
    while c < s.len() && acc < b
        invariant
            c <= s.len(),
            acc == byte_offset(s@, c as int),
            forall|k: int| 0 <= k < c ==> byte_offset(s@, k) < b,
        decreases s.len() - c,
    {
        let w = char_utf8_width(s[c]);
        proof {
            lemma_byte_offset_step(s@, c as int);
        }
        if w > b - acc {
            // the next boundary lies beyond b
            proof {
                assert forall|k: int| 0 <= k <= s.len() implies byte_offset(s@, k) != b by {
                    if k > c as int {
                        if k > c + 1 {
                            lemma_byte_offset_strict(s@, c as int + 1, k);
                        }
                    }
                }
            }
            return None;
        }
        acc = acc + w;
        c += 1;
    }
    if acc == b {
        proof {
            assert forall|k: int| 0 <= k <= s.len() && byte_offset(s@, k) == b implies k == c by {
                if k < c {
                } else if k > c {
                    lemma_byte_offset_strict(s@, c as int, k);
                }
            }
        }
        Some(c)
    } else {
        proof {
            assert forall|k: int| 0 <= k <= s.len() implies byte_offset(s@, k) != b by {
                if k > c as int {
                    lemma_byte_offset_strict(s@, c as int, k);
                }
            }
        }
        None
    }
}

/// A byte span `(bs, be)` of `s` as a char span, when both ends fall on char
/// boundaries in order.
pub open spec fn char_span_of(s: Seq<char>, bs: int, be: int) -> Option<(int, int)> {
    match (char_index_of_byte(s, bs), char_index_of_byte(s, be)) {
        (Some(a), Some(b)) => if a <= b {
            Some((a, b))
        } else {
            None
        },
        _ => None,
    }
}

pub fn char_span_at(s: &Vec<char>, bs: usize, be: usize) -> (r: Option<(usize, usize)>)
    ensures
        r matches Some(p) ==> char_span_of(s@, bs as int, be as int) == Some((p.0 as int, p.1 as int))
            && p.0 <= p.1 <= s.len(),
        r is None ==> char_span_of(s@, bs as int, be as int) is None,
{
    match (char_index_at_byte(s, bs), char_index_at_byte(s, be)) {
        (Some(a), Some(b)) => {
            proof {
                let ca = choose|c: int| 0 <= c <= s@.len() && byte_offset(s@, c) == bs;
                let cb = choose|c: int| 0 <= c <= s@.len() && byte_offset(s@, c) == be;
                assert(ca == a && cb == b);
            }
            if a <= b {
                Some((a, b))
            } else {
                None
            }
        },
        _ => None,
    }
}

/// The byte spans of `ms` that fall on char boundaries of `s`, as char spans.
pub open spec fn char_spans(s: Seq<char>, ms: Seq<(usize, usize)>) -> Seq<(int, int)>
    decreases ms.len(),
{
    if ms.len() == 0 {
        Seq::empty()
    } else {
        let r = char_spans(s, ms.drop_last());
        match char_span_of(s, ms.last().0 as int, ms.last().1 as int) {
            Some(p) => r.push(p),
            None => r,
        }
    }
}

/// `s[cur..]` with each span of `cs` that starts at or after the end of the
/// previous one replaced by `rep`.
pub open spec fn splice_from(s: Seq<char>, cs: Seq<(int, int)>, rep: Seq<char>, cur: int) -> Seq<
    char,
>
    decreases cs.len(),
{
    if cs.len() == 0 {
        s.subrange(cur, s.len() as int)
    } else {
        let a = cs[0].0;
        let b = cs[0].1;
        if cur <= a && a <= b && b <= s.len() {
            s.subrange(cur, a) + rep + splice_from(s, cs.drop_first(), rep, b)
        } else {
            splice_from(s, cs.drop_first(), rep, cur)
        }
    }
}

/// What `Regex::replace_all(s, rep)` (or `Regex::replace` when `first_only`)
/// gives with a literal replacement: each match, in order, replaced by `rep`.
/// `None` when the pattern does not compile.
pub open spec fn regex_replaced(pattern: Seq<char>, s: Seq<char>, rep: Seq<char>, first_only: bool) -> Option<
    Seq<char>,
> {
    match regex_find_spans(pattern, s) {
        Some(ms) => {
            let used = if first_only && ms.len() > 1 {
                ms.take(1)
            } else {
                ms
            };
            Some(splice_from(s, char_spans(s, used), rep, 0))
        },
        None => None,
    }
}

/// Every match of `pattern` in `s` (only the first, when `first_only`)
/// replaced by `rep`, as `regex_replaced` states it.
pub fn regex_replace(pattern: &str, s: &Vec<char>, rep: &Vec<char>, first_only: bool) -> (r: Option<
    Vec<char>,
>)
    ensures
        r matches Some(v) ==> regex_replaced(pattern@, s@, rep@, first_only) == Some(v@),
        r is None ==> regex_replaced(pattern@, s@, rep@, first_only) is None,
{
    let st = crate::text::chars_to_string(s);
    let found = regex_find_all(pattern, st.as_str());
    match found {
        None => None,
        Some(ms) => {
            let n: usize = if first_only && ms.len() > 1 {
                1
            } else {
                ms.len()
            };
            let ghost used = if first_only && ms@.len() > 1 {
                ms@.take(1)
            } else {
                ms@
            };
            assert(used =~= ms@.take(n as int));
            let mut cs: Vec<(usize, usize)> = Vec::new();
            let mut k: usize = 0;
            while k < n
                invariant
                    k <= n <= ms.len(),
                    used == ms@.take(n as int),
                    cs@.len() == char_spans(s@, ms@.take(k as int)).len(),
                    forall|j: int|
                        0 <= j < cs@.len() ==> (#[trigger] cs@[j]).0 as int == char_spans(
                            s@,
                            ms@.take(k as int),
                        )[j].0 && cs@[j].1 as int == char_spans(s@, ms@.take(k as int))[j].1,
                    forall|j: int| 0 <= j < cs@.len() ==> (#[trigger] cs@[j]).1 <= s.len(),
                decreases n - k,
            {
                let (bs, be) = ms[k];
                proof {
                    assert(ms@.take(k + 1).drop_last() =~= ms@.take(k as int));
                    assert(ms@.take(k + 1).last() == ms@[k as int]);
                }
                match char_span_at(s, bs, be) {
                    Some(p) => {
                        cs.push(p);
                    },
                    None => {},
                }
                k += 1;
            }
            let ghost cspec = char_spans(s@, used);
            let mut out: Vec<char> = Vec::new();
            let mut cur: usize = 0;
            let mut j: usize = 0;
            assert(cspec.skip(0) =~= cspec);
            while j < cs.len()
                invariant
                    j <= cs.len(),
                    cur <= s.len(),
                    cspec.len() == cs@.len(),
                    forall|i: int|
                        0 <= i < cs@.len() ==> (#[trigger] cs@[i]).0 as int == cspec[i].0
                            && cs@[i].1 as int == cspec[i].1,
                    forall|i: int| 0 <= i < cs@.len() ==> (#[trigger] cs@[i]).1 <= s.len(),
                    out@ + splice_from(s@, cspec.skip(j as int), rep@, cur as int) == splice_from(
                        s@,
                        cspec,
                        rep@,
                        0,
                    ),
                decreases cs.len() - j,
            {
                let (a, b) = cs[j];
                let ghost before = out@;
                assert(cspec.skip(j as int)[0] == cspec[j as int]);
                assert(cspec.skip(j as int).drop_first() =~= cspec.skip(j + 1));
                if cur <= a && a <= b {
                    let piece = crate::text::slice_chars(s, cur, a);
                    crate::text::append_chars(&mut out, &piece);
                    crate::text::append_chars(&mut out, rep);
                    assert(out@ =~= before + s@.subrange(cur as int, a as int) + rep@);
                    cur = b;
                }
                j += 1;
            }
            let tail = crate::text::slice_chars(s, cur, s.len());
            crate::text::append_chars(&mut out, &tail);
            Some(out)
        },
    }
}

/// For each match that falls on char boundaries: its char span, and the text
/// of its capture group 1 (empty when the group did not take part).
pub open spec fn group1_edits(
    s: Seq<char>,
    caps: Seq<(Option<(usize, usize)>, Option<(usize, usize)>)>,
) -> Seq<(int, int, Seq<char>)>
    decreases caps.len(),
{
    if caps.len() == 0 {
        Seq::empty()
    } else {
        let r = group1_edits(s, caps.drop_last());
        let c = caps.last();
        match c.0 {
            Some(g0) => match char_span_of(s, g0.0 as int, g0.1 as int) {
                Some(p) => {
                    let rep = match c.1 {
                        Some(g1) => match char_span_of(s, g1.0 as int, g1.1 as int) {
                            Some(q) => s.subrange(q.0, q.1),
                            None => Seq::empty(),
                        },
                        None => Seq::empty(),
                    };
                    r.push((p.0, p.1, rep))
                },
                None => r,
            },
            None => r,
        }
    }
}

/// `s[cur..]` with each edit that starts at or after the end of the previous
/// one applied: its span replaced by its text.
pub open spec fn splice_edits(s: Seq<char>, es: Seq<(int, int, Seq<char>)>, cur: int) -> Seq<char>
    decreases es.len(),
{
    if es.len() == 0 {
        s.subrange(cur, s.len() as int)
    } else {
        let a = es[0].0;
        let b = es[0].1;
        if cur <= a && a <= b && b <= s.len() {
            s.subrange(cur, a) + es[0].2 + splice_edits(s, es.drop_first(), b)
        } else {
            splice_edits(s, es.drop_first(), cur)
        }
    }
}

/// What `Regex::replace_all(s, "$1")` gives: each match replaced by the text
/// of its capture group 1. `None` when the pattern does not compile.
pub open spec fn regex_group1_replaced(pattern: Seq<char>, s: Seq<char>) -> Option<Seq<char>> {
    match regex_capture_spans(pattern, s) {
        Some(caps) => Some(splice_edits(s, group1_edits(s, caps), 0)),
        None => None,
    }
}

/// Every match of `pattern` in `s` replaced by its capture group 1, as
/// `regex_group1_replaced` states it.
pub fn regex_replace_group1(pattern: &str, s: &Vec<char>) -> (r: Option<Vec<char>>)
    ensures
        r matches Some(v) ==> regex_group1_replaced(pattern@, s@) == Some(v@),
        r is None ==> regex_group1_replaced(pattern@, s@) is None,
{
    let st = crate::text::chars_to_string(s);
    let found = regex_captures_all(pattern, st.as_str());
    match found {
        None => None,
        Some(caps) => {
            let mut es: Vec<(usize, usize, Vec<char>)> = Vec::new();
            let mut k: usize = 0;
            while k < caps.len()
                invariant
                    k <= caps.len(),
                    es@.len() == group1_edits(s@, caps@.take(k as int)).len(),
                    forall|j: int|
                        0 <= j < es@.len() ==> (#[trigger] es@[j]).0 as int == group1_edits(
                            s@,
                            caps@.take(k as int),
                        )[j].0 && es@[j].1 as int == group1_edits(s@, caps@.take(k as int))[j].1
                            && es@[j].2@ == group1_edits(s@, caps@.take(k as int))[j].2,
                    forall|j: int| 0 <= j < es@.len() ==> (#[trigger] es@[j]).1 <= s.len(),
                decreases caps.len() - k,
            {
                proof {
                    assert(caps@.take(k + 1).drop_last() =~= caps@.take(k as int));
                    assert(caps@.take(k + 1).last() == caps@[k as int]);
                }
                let c = &caps[k];
                match c.0 {
                    Some(g0) => match char_span_at(s, g0.0, g0.1) {
                        Some(p) => {
                            let rep: Vec<char> = match c.1 {
                                Some(g1) => match char_span_at(s, g1.0, g1.1) {
                                    Some(q) => crate::text::slice_chars(s, q.0, q.1),
                                    None => Vec::new(),
                                },
                                None => Vec::new(),
                            };
                            es.push((p.0, p.1, rep));
                        },
                        None => {},
                    },
                    None => {},
                }
                k += 1;
            }
            assert(caps@.take(caps.len() as int) =~= caps@);
            let ghost espec = group1_edits(s@, caps@);
            let mut out: Vec<char> = Vec::new();
            let mut cur: usize = 0;
            let mut j: usize = 0;
            assert(espec.skip(0) =~= espec);
            while j < es.len()
                invariant
                    j <= es.len(),
                    cur <= s.len(),
                    espec.len() == es@.len(),
                    forall|i: int|
                        0 <= i < es@.len() ==> (#[trigger] es@[i]).0 as int == espec[i].0
                            && es@[i].1 as int == espec[i].1 && es@[i].2@ == espec[i].2,
                    forall|i: int| 0 <= i < es@.len() ==> (#[trigger] es@[i]).1 <= s.len(),
                    out@ + splice_edits(s@, espec.skip(j as int), cur as int) == splice_edits(
                        s@,
                        espec,
                        0,
                    ),
                decreases es.len() - j,
            {
                let a = es[j].0;
                let b = es[j].1;
                let ghost before = out@;
                assert(espec.skip(j as int)[0] == espec[j as int]);
                assert(espec.skip(j as int).drop_first() =~= espec.skip(j + 1));
                if cur <= a && a <= b {
                    let piece = crate::text::slice_chars(s, cur, a);
                    crate::text::append_chars(&mut out, &piece);
                    crate::text::append_chars(&mut out, &es[j].2);
                    assert(out@ =~= before + s@.subrange(cur as int, a as int) + espec[j as int].2);
                    cur = b;
                }
                j += 1;
            }
            let tail = crate::text::slice_chars(s, cur, s.len());
            crate::text::append_chars(&mut out, &tail);
            Some(out)
        },
    }
}

} // verus!
