//! Laws of privacy masking: restoring the placeholders of a masked text gives
//! the text back, and texts masked with one shared counter never share a
//! placeholder.

use crate::privacy_mask::{
    group_span, group_spans, header_candidates, header_span, surname_span_at, header_spans, header_spans_of, lemma_run_end_pub, match_spans,
    spans_from_groups, spans_from_matches, surname_spans, surname_spans_upto, EMAIL_PATTERN,
    LABELED_PHONE_PATTERN, LANDLINE_PATTERN, MOBILE_PATTERN, NAME_LABELED_PATTERN, QQ_PATTERN,
    WECHAT_PATTERN, advance, candidate_spans, dec_width, greedy, insert_sorted, key_le, mask_result,
    mask_next_id, next_id_of, overlaps, pairs_of, pick_spans, placeholder, placeholder_prefix, render,
    sort_spans, unmask_spec, SpanV,
};
use crate::numbers::digit_char;
use crate::search::{char_index_of_byte, char_span_of, regex_capture_spans, regex_find_spans};
use crate::text::{lemma_first_match, matches_at, replace_all};
use vstd::prelude::*;

verus! {

/// `RM_PRIV_`, what every placeholder holds after its leading `__`.
pub open spec fn privacy_marker() -> Seq<char> {
    seq!['R', 'M', '_', 'P', 'R', 'I', 'V', '_']
}

/// A text in which `RM_PRIV_` does not occur.
pub open spec fn no_marker(s: Seq<char>) -> bool {
    forall|i: int| !#[trigger] matches_at(s, privacy_marker(), i)
}

/// Empty, or led by `__` as a placeholder is.
pub open spec fn led_by_placeholder(y: Seq<char>) -> bool {
    y.len() == 0 || (y.len() >= 2 && y[0] == '_' && y[1] == '_')
}

/// Chosen segments in text order, non-empty, not overlapping, inside `text`,
/// each standing for its own region of `text`, with the first at or after `last`.
pub open spec fn chain_ok(text: Seq<char>, s: Seq<SpanV>, last: int) -> bool {
    &&& 0 <= last
    &&& s.len() > 0 ==> last <= s[0].start
    &&& forall|k: int| 0 <= k < s.len() ==> 0 <= (#[trigger] s[k]).start < s[k].end <= text.len()
    &&& forall|k: int| 0 <= k < s.len() - 1 ==> (#[trigger] s[k]).end <= s[k + 1].start
    &&& forall|k: int|
        0 <= k < s.len() ==> (#[trigger] s[k]).text == text.subrange(s[k].start, s[k].end)
}

// ------------------------------------------------------------ replace_all facts

proof fn lemma_skip_prefix(x: Seq<char>, y: Seq<char>, p: Seq<char>, r: Seq<char>)
    requires
        p.len() > 0,
        forall|i: int| 0 <= i < x.len() ==> !matches_at(x + y, p, i),
    ensures
        replace_all(x + y, p, r) == x + replace_all(y, p, r),
    decreases x.len(),
{
    if x.len() == 0 {
        assert(x + y =~= y);
        assert(x + replace_all(y, p, r) =~= replace_all(y, p, r));
    } else {
        let w = x + y;
        assert(!matches_at(w, p, 0));
        assert(w.drop_first() =~= x.drop_first() + y);
        assert forall|i: int| 0 <= i < x.drop_first().len() implies !matches_at(
            x.drop_first() + y,
            p,
            i,
        ) by {
            if matches_at(x.drop_first() + y, p, i) {
                assert(w.subrange(i + 1, i + 1 + p.len()) =~= (x.drop_first() + y).subrange(
                    i,
                    i + p.len(),
                ));
                assert(matches_at(w, p, i + 1));
            }
        }
        lemma_skip_prefix(x.drop_first(), y, p, r);
        assert(seq![w[0]] + (x.drop_first() + replace_all(y, p, r)) =~= x + replace_all(y, p, r));
    }
}

proof fn lemma_skip_text(x: Seq<char>, y: Seq<char>, b: u32, r: Seq<char>)
    requires
        no_marker(x),
        led_by_placeholder(y),
    ensures
        replace_all(x + y, placeholder(b), r) == x + replace_all(y, placeholder(b), r),
{
    let q = placeholder(b);
    lemma_placeholder_shape(b);
    assert forall|i: int| 0 <= i < x.len() implies !matches_at(x + y, q, i) by {
        if matches_at(x + y, q, i) {
            assert forall|k: int| 0 <= k < q.len() && 0 <= i + k implies #[trigger] (x + y)[i + k]
                == q[k] by {
                assert((x + y).subrange(i, i + q.len())[k] == (x + y)[i + k]);
            }
            lemma_no_placeholder_from(x, y, b, i);
        }
    }
    lemma_skip_prefix(x, y, q, r);
}

proof fn lemma_plain_unchanged(y: Seq<char>, b: u32, r: Seq<char>)
    requires
        no_marker(y),
    ensures
        replace_all(y, placeholder(b), r) == y,
{
    let e = Seq::<char>::empty();
    lemma_placeholder_shape(b);
    lemma_skip_text(y, e, b, r);
    assert(y + e =~= y);
    assert(!matches_at(e, placeholder(b), 0));
    assert(y + replace_all(e, placeholder(b), r) =~= y);
}

proof fn lemma_no_marker_subrange(t: Seq<char>, a: int, b: int)
    requires
        no_marker(t),
        0 <= a <= b <= t.len(),
    ensures
        no_marker(t.subrange(a, b)),
{
    let u = t.subrange(a, b);
    assert forall|i: int| !#[trigger] matches_at(u, privacy_marker(), i) by {
        if matches_at(u, privacy_marker(), i) {
            assert(t.subrange(a + i, a + i + 8) =~= u.subrange(i, i + 8));
            assert(matches_at(t, privacy_marker(), a + i));
        }
    }
}

proof fn lemma_match_front(p: Seq<char>, y: Seq<char>, r: Seq<char>)
    requires
        p.len() > 0,
    ensures
        replace_all(p + y, p, r) == r + replace_all(y, p, r),
{
    assert((p + y).subrange(0, p.len() as int) =~= p);
    assert((p + y).subrange(p.len() as int, (p + y).len() as int) =~= y);
}

// ------------------------------------------------------------ placeholder facts

pub open spec fn is_digit_char(c: char) -> bool {
    '0' <= c && c <= '9'
}

proof fn lemma_digit_char(d: nat)
    ensures
        is_digit_char(digit_char(d)),
        d < 10 ==> (forall|e: nat| e < 10 && digit_char(e) == digit_char(d) ==> e == d),
{
}

proof fn lemma_dec_width_digits(n: nat, w: nat)
    ensures
        forall|k: int| 0 <= k < dec_width(n, w).len() ==> is_digit_char(#[trigger] dec_width(n, w)[k]),
        dec_width(n, w).len() >= w,
        (n > 0 || w > 0) ==> dec_width(n, w).len() > 0,
    decreases n, w,
{
    if !(n == 0 && w == 0) {
        let w2: nat = if w > 0 {
            (w - 1) as nat
        } else {
            0
        };
        lemma_dec_width_digits(n / 10, w2);
        lemma_digit_char(n % 10);
    }
}

proof fn lemma_dec_width_injective(a: nat, b: nat, w: nat)
    requires
        dec_width(a, w) == dec_width(b, w),
    ensures
        a == b,
    decreases a, w,
{
    lemma_dec_width_digits(a, w);
    lemma_dec_width_digits(b, w);
    if a == 0 && w == 0 {
        if b > 0 {
            assert(dec_width(b, w).len() > 0);
        }
    } else {
        let w2: nat = if w > 0 {
            (w - 1) as nat
        } else {
            0
        };
        if b == 0 && w == 0 {
            assert(dec_width(a, w).len() > 0);
        } else {
            let da = dec_width(a, w);
            let db = dec_width(b, w);
            assert(da.last() == digit_char(a % 10));
            assert(db.last() == digit_char(b % 10));
            lemma_digit_char(a % 10);
            assert(a % 10 == b % 10);
            assert(da.drop_last() =~= dec_width(a / 10, w2));
            assert(db.drop_last() =~= dec_width(b / 10, w2));
            lemma_dec_width_injective(a / 10, b / 10, w2);
        }
    }
}

proof fn lemma_placeholder_shape(id: u32)
    ensures
        placeholder(id).len() == 12 + dec_width(id as nat, 4).len(),
        dec_width(id as nat, 4).len() >= 4,
        placeholder(id)[0] == '_' && placeholder(id)[1] == '_' && placeholder(id)[2] == 'R'
            && placeholder(id)[3] == 'M' && placeholder(id)[4] == '_' && placeholder(id)[5] == 'P'
            && placeholder(id)[6] == 'R' && placeholder(id)[7] == 'I' && placeholder(id)[8] == 'V'
            && placeholder(id)[9] == '_',
        forall|k: int|
            10 <= k < 10 + dec_width(id as nat, 4).len() ==> is_digit_char(
                #[trigger] placeholder(id)[k],
            ) && placeholder(id)[k] == dec_width(id as nat, 4)[k - 10],
        placeholder(id)[placeholder(id).len() - 2] == '_',
        placeholder(id)[placeholder(id).len() - 1] == '_',
{
    lemma_dec_width_digits(id as nat, 4);
    let d = dec_width(id as nat, 4);
    let p = placeholder(id);
    assert(p == placeholder_prefix() + d + seq!['_', '_']);
    assert forall|k: int| 10 <= k < 10 + d.len() implies is_digit_char(#[trigger] p[k]) && p[k]
        == d[k - 10] by {
        assert(p[k] == d[k - 10]);
    }
}

/// No placeholder starts at `j` (or runs on into `x + y` from just before it)
/// when `x` holds no `RM_PRIV_` and `y` is led by a placeholder: its marker
/// would lie in `x`, or its `__` or digits would meet the `__` that leads `y`.
proof fn lemma_no_placeholder_from(x: Seq<char>, y: Seq<char>, b: u32, j: int)
    requires
        no_marker(x),
        led_by_placeholder(y),
        -2 <= j < x.len(),
        j + placeholder(b).len() <= x.len() + y.len(),
    ensures
        !(forall|k: int|
            0 <= k < placeholder(b).len() && 0 <= j + k ==> #[trigger] (x + y)[j + k]
                == placeholder(b)[k]),
{
    let q = placeholder(b);
    let w = x + y;
    lemma_placeholder_shape(b);
    if forall|k: int| 0 <= k < q.len() && 0 <= j + k ==> #[trigger] w[j + k] == q[k] {
        if j + 10 <= x.len() {
            assert(x.subrange(j + 2, j + 10) =~= privacy_marker()) by {
                assert forall|t: int| 0 <= t < 8 implies x.subrange(j + 2, j + 10)[t]
                    == privacy_marker()[t] by {
                    assert(w[j + (2 + t)] == q[2 + t]);
                }
            }
            assert(matches_at(x, privacy_marker(), j + 2));
        } else {
            let m = x.len() - j;
            assert(w[j + m] == q[m]);
            assert(w[j + (m + 1)] == q[m + 1]);
            assert(y[0] == '_' && y[1] == '_');
            assert(is_digit_char(q[10]));
        }
    }
}

/// What follows a placeholder in a masked text: a run without `RM_PRIV_`,
/// then nothing or the next placeholder.
pub open spec fn head_ok(r: Seq<char>) -> bool {
    exists|x: Seq<char>, y: Seq<char>|
        #![trigger no_marker(x), led_by_placeholder(y)]
        r == x + y && no_marker(x) && led_by_placeholder(y)
}

proof fn lemma_other_placeholder(a: u32, b: u32, rest: Seq<char>, r: Seq<char>)
    requires
        a != b,
        head_ok(rest),
    ensures
        replace_all(placeholder(a) + rest, placeholder(b), r) == placeholder(a) + replace_all(
            rest,
            placeholder(b),
            r,
        ),
{
    let p = placeholder(a);
    let q = placeholder(b);
    let w = p + rest;
    lemma_placeholder_shape(a);
    lemma_placeholder_shape(b);
    let da = dec_width(a as nat, 4);
    let db = dec_width(b as nat, 4);
    let l = p.len() as int;
    assert forall|i: int| 0 <= i < p.len() implies !matches_at(w, q, i) by {
        if matches_at(w, q, i) {
            let sub = w.subrange(i, i + q.len());
            assert(sub == q);
            assert(forall|k: int| 0 <= k < q.len() ==> #[trigger] w[i + k] == q[k]) by {
                assert forall|k: int| 0 <= k < q.len() implies #[trigger] w[i + k] == q[k] by {
                    assert(sub[k] == w[i + k]);
                }
            }
            assert(w[i] == q[0]);
            assert(w[i + 1] == q[1]);
            assert(forall|k: int| 0 <= k < l ==> #[trigger] w[k] == p[k]);
            assert(forall|k: int| 0 <= k < rest.len() ==> #[trigger] w[l + k] == rest[k]);
            if i == 0 {
                if da.len() == db.len() {
                    assert(da =~= db) by {
                        assert forall|k: int| 0 <= k < da.len() implies da[k] == db[k] by {
                            assert(w[10 + k] == q[10 + k]);
                            assert(p[10 + k] == da[k]);
                            assert(q[10 + k] == db[k]);
                        }
                    }
                    lemma_dec_width_injective(a as nat, b as nat, 4);
                } else if da.len() < db.len() {
                    let k: int = 10 + da.len() as int;
                    assert(w[k] == q[k]);
                    assert(p[k] == '_');
                    assert(is_digit_char(q[k]));
                } else {
                    let k: int = 10 + db.len() as int;
                    assert(w[k] == q[k]);
                    assert(is_digit_char(p[k]));
                    assert(q[k] == '_');
                }
            } else if i == 1 {
                assert(w[2] == 'R');
            } else if i <= 9 {
                assert(w[i] == p[i]);
                assert(w[i + 1] == p[i + 1]);
                if i + 1 >= 10 {
                    assert(is_digit_char(p[i + 1]));
                }
            } else if i <= l - 3 {
                assert(w[i] == p[i]);
                assert(is_digit_char(p[i]));
            } else {
                // the match would run on into `rest`
                let (x, y) = choose|x: Seq<char>, y: Seq<char>|
                    #![trigger no_marker(x), led_by_placeholder(y)]
                    rest == x + y && no_marker(x) && led_by_placeholder(y);
                assert forall|k: int| 0 <= k < q.len() && 0 <= (i - l) + k implies #[trigger] (x
                    + y)[(i - l) + k] == q[k] by {
                    assert(w[i + k] == q[k]);
                    assert(w[l + ((i - l) + k)] == rest[(i - l) + k]);
                }
                lemma_no_placeholder_from(x, y, b, i - l);
            }
        }
    }
    lemma_skip_prefix(p, rest, q, r);
}


// ------------------------------------------------------------ masked text facts

proof fn lemma_render_head_ok(text: Seq<char>, s: Seq<SpanV>, last: int, id: u32)
    requires
        chain_ok(text, s, last),
        no_marker(text),
    ensures
        head_ok(render(text, s, last, id)),
{
    let w = render(text, s, last, id);
    let e = Seq::<char>::empty();
    if s.len() == 0 {
        if last < text.len() {
            lemma_no_marker_subrange(text, last, text.len() as int);
        } else {
            assert forall|i: int| !#[trigger] matches_at(w, privacy_marker(), i) by {}
        }
        assert(w + e =~= w);
        assert(led_by_placeholder(e));
        assert(no_marker(w));
    } else {
        let sp = s[0];
        let c = if sp.start > last {
            text.subrange(last, sp.start)
        } else {
            Seq::<char>::empty()
        };
        if sp.start > last {
            lemma_no_marker_subrange(text, last, sp.start);
        } else {
            assert forall|i: int| !#[trigger] matches_at(c, privacy_marker(), i) by {}
        }
        let ph = placeholder(id);
        lemma_placeholder_shape(id);
        let rest = render(text, s.drop_first(), sp.end, next_id_of(id));
        assert(w == c + ph + rest);
        assert(c + ph + rest =~= c + (ph + rest));
        assert((ph + rest)[0] == ph[0] && (ph + rest)[1] == ph[1]);
        assert(led_by_placeholder(ph + rest));
        assert(no_marker(c));
    }
}

proof fn lemma_chain_drop_first(text: Seq<char>, s: Seq<SpanV>, last: int)
    requires
        chain_ok(text, s, last),
        s.len() > 0,
    ensures
        chain_ok(text, s.drop_first(), s[0].end),
{
    let t = s.drop_first();
    assert forall|k: int| 0 <= k < t.len() implies 0 <= (#[trigger] t[k]).start < t[k].end
        <= text.len() by {
        assert(t[k] == s[k + 1]);
    }
    assert forall|k: int| 0 <= k < t.len() - 1 implies (#[trigger] t[k]).end <= t[k + 1].start by {
        assert(t[k] == s[k + 1]);
        assert(t[k + 1] == s[k + 2]);
    }
    assert forall|k: int| 0 <= k < t.len() implies (#[trigger] t[k]).text == text.subrange(
        t[k].start,
        t[k].end,
    ) by {
        assert(t[k] == s[k + 1]);
    }
    if t.len() > 0 {
        assert(t[0] == s[1]);
    }
}

proof fn lemma_chain_drop_last(text: Seq<char>, s: Seq<SpanV>, last: int)
    requires
        chain_ok(text, s, last),
        s.len() > 0,
    ensures
        chain_ok(text, s.drop_last(), last),
{
    let t = s.drop_last();
    assert forall|k: int| 0 <= k < t.len() implies 0 <= (#[trigger] t[k]).start < t[k].end
        <= text.len() by {
        assert(t[k] == s[k]);
    }
    assert forall|k: int| 0 <= k < t.len() - 1 implies (#[trigger] t[k]).end <= t[k + 1].start by {
        assert(t[k] == s[k]);
        assert(t[k + 1] == s[k + 1]);
    }
    assert forall|k: int| 0 <= k < t.len() implies (#[trigger] t[k]).text == text.subrange(
        t[k].start,
        t[k].end,
    ) by {
        assert(t[k] == s[k]);
    }
}

#[verifier::spinoff_prover]
#[verifier::rlimit(40)]
proof fn lemma_replace_last(text: Seq<char>, s: Seq<SpanV>, last: int, id: u32)
    requires
        s.len() >= 1,
        chain_ok(text, s, last),
        no_marker(text),
        forall|k: int| 0 <= k < s.len() - 1 ==> #[trigger] advance(id, k as nat) != advance(id, (s.len() - 1) as nat),
    ensures
        replace_all(
            render(text, s, last, id),
            placeholder(advance(id, (s.len() - 1) as nat)),
            s.last().text,
        ) == render(text, s.drop_last(), last, id),
    decreases s.len(),
{
    let n = s.len();
    let sp = s[0];
    let c = if sp.start > last {
        text.subrange(last, sp.start)
    } else {
        Seq::<char>::empty()
    };
    assert(no_marker(c)) by {
        if sp.start > last {
            lemma_no_marker_subrange(text, last, sp.start);
        } else {
            assert forall|i: int| !#[trigger] matches_at(c, privacy_marker(), i) by {}
        }
    }
    let ph = placeholder(id);
    let target = placeholder(advance(id, (n - 1) as nat));
    let orig = s.last().text;
    lemma_placeholder_shape(advance(id, (n - 1) as nat));
    let rest = render(text, s.drop_first(), sp.end, next_id_of(id));
    assert(render(text, s, last, id) == c + ph + rest);
    assert(c + ph + rest =~= c + (ph + rest));
    assert((ph + rest)[0] == ph[0] && (ph + rest)[1] == ph[1]);
    lemma_skip_text(c, ph + rest, advance(id, (n - 1) as nat), orig);
    if n == 1 {
        assert(advance(id, 0) == id);
        lemma_match_front(ph, rest, orig);
        assert(no_marker(rest)) by {
            if sp.end < text.len() {
                lemma_no_marker_subrange(text, sp.end, text.len() as int);
            } else {
                assert forall|i: int| !#[trigger] matches_at(rest, privacy_marker(), i) by {}
            }
        }
        lemma_plain_unchanged(rest, advance(id, (n - 1) as nat), orig);
        assert(last < text.len());
        assert(s.drop_last().len() == 0);
        assert(orig == text.subrange(sp.start, sp.end));
        assert(c + (orig + rest) =~= text.subrange(last, text.len() as int));
    } else {
        let z: int = 0;
        assert(advance(id, z as nat) != advance(id, (n - 1) as nat));
        assert(advance(id, 0) == id);
        lemma_chain_drop_first(text, s, last);
        lemma_render_head_ok(text, s.drop_first(), sp.end, next_id_of(id));
        lemma_other_placeholder(id, advance(id, (n - 1) as nat), rest, orig);
        let t = s.drop_first();
        assert forall|k: int| 0 <= k < t.len() - 1 implies #[trigger] advance(next_id_of(id), k as nat)
            != advance(next_id_of(id), (t.len() - 1) as nat) by {
            assert(advance(id, (k + 1) as nat) == advance(next_id_of(id), k as nat));
            assert(advance(id, (n - 1) as nat) == advance(next_id_of(id), (n - 2) as nat));
        }
        assert(advance(id, (n - 1) as nat) == advance(next_id_of(id), (t.len() - 1) as nat));
        assert(t.last() == s.last());
        lemma_replace_last(text, t, sp.end, next_id_of(id));
        let u = s.drop_last();
        assert(u[0] == sp);
        assert(u.drop_first() =~= t.drop_last());
        assert(render(text, u, last, id) == c + ph + render(text, u.drop_first(), sp.end, next_id_of(id)));
        assert(c + (ph + render(text, t.drop_last(), sp.end, next_id_of(id))) =~= c + ph + render(
            text,
            t.drop_last(),
            sp.end,
            next_id_of(id),
        ));
    }
}

proof fn lemma_pairs_index(s: Seq<SpanV>, id: u32)
    ensures
        pairs_of(s, id).len() == s.len(),
        forall|k: int|
            0 <= k < s.len() ==> #[trigger] pairs_of(s, id)[k] == (
                placeholder(advance(id, k as nat)),
                s[k].text,
            ),
    decreases s.len(),
{
    if s.len() > 0 {
        lemma_pairs_index(s.drop_first(), next_id_of(id));
        let p = pairs_of(s, id);
        assert forall|k: int| 0 <= k < s.len() implies #[trigger] p[k] == (
            placeholder(advance(id, k as nat)),
            s[k].text,
        ) by {
            if k > 0 {
                assert(p[k] == pairs_of(s.drop_first(), next_id_of(id))[k - 1]);
                assert(advance(id, k as nat) == advance(next_id_of(id), (k - 1) as nat));
                assert(s.drop_first()[k - 1] == s[k]);
            } else {
                assert(advance(id, 0) == id);
            }
        }
    }
}

proof fn lemma_unmask_render(text: Seq<char>, s: Seq<SpanV>, id: u32)
    requires
        chain_ok(text, s, 0),
        no_marker(text),
        forall|a: int, b: int|
            0 <= a < b < s.len() ==> #[trigger] advance(id, a as nat) != #[trigger] advance(id, b as nat),
    ensures
        unmask_spec(render(text, s, 0, id), pairs_of(s, id)) == text,
    decreases s.len(),
{
    if s.len() == 0 {
        if text.len() > 0 {
            assert(text.subrange(0, text.len() as int) =~= text);
        } else {
            assert(render(text, s, 0, id) =~= text);
        }
    } else {
        let n = s.len();
        let p = pairs_of(s, id);
        lemma_pairs_index(s, id);
        lemma_pairs_index(s.drop_last(), id);
        assert(p.last() == (placeholder(advance(id, (n - 1) as nat)), s.last().text));
        assert(p.drop_last() =~= pairs_of(s.drop_last(), id));
        lemma_replace_last(text, s, 0, id);
        lemma_chain_drop_last(text, s, 0);
        lemma_unmask_render(text, s.drop_last(), id);
    }
}

proof fn lemma_advance_mod(id: u32, k: nat)
    ensures
        advance(id, k) as int == (id as int + k) % 0x1_0000_0000,
    decreases k,
{
    if k > 0 {
        lemma_advance_mod(id, (k - 1) as nat);
        crate::privacy_mask::lemma_advance_step_pub(id, (k - 1) as nat);
    }
}

proof fn lemma_advance_distinct(id: u32, n: nat)
    requires
        n <= 0x1_0000_0000,
    ensures
        forall|a: int, b: int| 0 <= a < b < n ==> #[trigger] advance(id, a as nat) != #[trigger] advance(id, b as nat),
{
    assert forall|a: int, b: int| 0 <= a < b < n implies #[trigger] advance(id, a as nat) != #[trigger] advance(
        id,
        b as nat,
    ) by {
        lemma_advance_mod(id, a as nat);
        lemma_advance_mod(id, b as nat);
    }
}


// ------------------------------------------------------------ chosen segments

pub open spec fn pairwise_disjoint(s: Seq<SpanV>) -> bool {
    forall|i: int, j: int|
        0 <= i < s.len() && 0 <= j < s.len() && i != j ==> !overlaps(#[trigger] s[i], #[trigger] s[j])
}

proof fn lemma_greedy_disjoint(s: Seq<SpanV>)
    ensures
        pairwise_disjoint(greedy(s)),
    decreases s.len(),
{
    if s.len() > 0 {
        lemma_greedy_disjoint(s.drop_last());
        let g = greedy(s.drop_last());
        let x = s.last();
        if !(exists|k: int| 0 <= k < g.len() && overlaps(x, #[trigger] g[k])) {
            let t = g.push(x);
            assert forall|i: int, j: int|
                0 <= i < t.len() && 0 <= j < t.len() && i != j implies !overlaps(
                #[trigger] t[i],
                #[trigger] t[j],
            ) by {
                if i == g.len() {
                    assert(!overlaps(x, g[j]));
                } else if j == g.len() {
                    assert(!overlaps(x, g[i]));
                } else {
                    assert(t[i] == g[i] && t[j] == g[j]);
                }
            }
        }
    }
}

proof fn lemma_insert_shape(s: Seq<SpanV>, x: SpanV, by_len: bool) -> (j: int)
    ensures
        0 <= j <= s.len(),
        insert_sorted(s, x, by_len) == s.take(j).push(x) + s.skip(j),
        forall|k: int| j <= k < s.len() ==> !key_le(#[trigger] s[k], x, by_len),
        j == 0 || key_le(s[j - 1], x, by_len),
    decreases s.len(),
{
    if s.len() == 0 {
        assert(s.take(0).push(x) + s.skip(0) =~= seq![x]);
        0
    } else if key_le(s.last(), x, by_len) {
        assert(s.take(s.len() as int).push(x) + s.skip(s.len() as int) =~= s.push(x));
        s.len() as int
    } else {
        let d = s.drop_last();
        let j = lemma_insert_shape(d, x, by_len);
        assert(d.take(j).push(x) + d.skip(j) + seq![s.last()] =~= s.take(j).push(x) + s.skip(j));
        assert forall|k: int| j <= k < s.len() implies !key_le(#[trigger] s[k], x, by_len) by {
            if k < s.len() - 1 {
                assert(s[k] == d[k]);
            }
        }
        if j > 0 {
            assert(s[j - 1] == d[j - 1]);
        }
        j
    }
}

proof fn lemma_sort_disjoint(s: Seq<SpanV>, by_len: bool)
    requires
        pairwise_disjoint(s),
    ensures
        pairwise_disjoint(sort_spans(s, by_len)),
    decreases s.len(),
{
    if s.len() > 0 {
        let d = s.drop_last();
        let x = s.last();
        assert(pairwise_disjoint(d)) by {
            assert forall|i: int, j: int|
                0 <= i < d.len() && 0 <= j < d.len() && i != j implies !overlaps(
                #[trigger] d[i],
                #[trigger] d[j],
            ) by {
                assert(d[i] == s[i] && d[j] == s[j]);
            }
        }
        lemma_sort_disjoint(d, by_len);
        let sd = sort_spans(d, by_len);
        let away = |y: SpanV| !overlaps(x, y) && !overlaps(y, x);
        assert forall|k: int| 0 <= k < d.len() implies away(#[trigger] d[k]) by {
            assert(d[k] == s[k]);
            assert(s[s.len() - 1] == x);
        }
        crate::privacy_mask::lemma_sort_elems_pub(d, by_len, away);
        let j = lemma_insert_shape(sd, x, by_len);
        let t = insert_sorted(sd, x, by_len);
        assert forall|a: int, b: int|
            0 <= a < t.len() && 0 <= b < t.len() && a != b implies !overlaps(
            #[trigger] t[a],
            #[trigger] t[b],
        ) by {
            let ia = if a < j {
                a
            } else {
                a - 1
            };
            let ib = if b < j {
                b
            } else {
                b - 1
            };
            if a == j {
                assert(t[a] == x);
                assert(t[b] == sd[ib]);
                assert(away(sd[ib]));
            } else if b == j {
                assert(t[b] == x);
                assert(t[a] == sd[ia]);
                assert(away(sd[ia]));
            } else {
                assert(t[a] == sd[ia]);
                assert(t[b] == sd[ib]);
            }
        }
    }
}

pub open spec fn sorted_by_start(s: Seq<SpanV>) -> bool {
    forall|i: int, j: int| 0 <= i < j < s.len() ==> (#[trigger] s[i]).start <= (#[trigger] s[j]).start
}

proof fn lemma_sort_sorted(s: Seq<SpanV>)
    ensures
        sorted_by_start(sort_spans(s, false)),
    decreases s.len(),
{
    if s.len() > 0 {
        lemma_sort_sorted(s.drop_last());
        let sd = sort_spans(s.drop_last(), false);
        let x = s.last();
        let j = lemma_insert_shape(sd, x, false);
        let t = insert_sorted(sd, x, false);
        assert forall|a: int, b: int| 0 <= a < b < t.len() implies (#[trigger] t[a]).start <= (
        #[trigger] t[b]).start by {
            if a < j {
                assert(t[a] == sd[a]);
                assert(sd[a].start <= sd[j - 1].start || a == j - 1);
                if b == j {
                    assert(t[b] == x);
                } else if b < j {
                    assert(t[b] == sd[b]);
                } else {
                    assert(t[b] == sd[b - 1]);
                    assert(!key_le(sd[b - 1], x, false));
                }
            } else if a == j {
                assert(t[a] == x);
                assert(t[b] == sd[b - 1]);
                assert(!key_le(sd[b - 1], x, false));
            } else {
                assert(t[a] == sd[a - 1]);
                assert(t[b] == sd[b - 1]);
            }
        }
    }
}

/// Segments that are sorted, disjoint and non-empty follow one another.
proof fn lemma_chain_of_picked(text: Seq<char>, s: Seq<SpanV>)
    requires
        sorted_by_start(s),
        pairwise_disjoint(s),
        forall|k: int|
            0 <= k < s.len() ==> 0 <= (#[trigger] s[k]).start < s[k].end <= text.len() && s[k].text
                == text.subrange(s[k].start, s[k].end),
    ensures
        chain_ok(text, s, 0),
{
    assert forall|k: int| 0 <= k < s.len() - 1 implies (#[trigger] s[k]).end <= s[k + 1].start by {
        assert(s[k].start <= s[k + 1].start);
        assert(!overlaps(s[k], s[k + 1]));
    }
}


// ------------------------------------------------------------ segment bounds

pub open spec fn within(sp: SpanV, n: int) -> bool {
    0 <= sp.start <= sp.end <= n
}

proof fn lemma_char_index_bound(s: Seq<char>, b: int)
    ensures
        char_index_of_byte(s, b) matches Some(c) ==> 0 <= c <= s.len(),
{
}

proof fn lemma_char_span_bound(s: Seq<char>, bs: int, be: int)
    ensures
        char_span_of(s, bs, be) matches Some(p) ==> 0 <= p.0 <= p.1 <= s.len(),
{
    lemma_char_index_bound(s, bs);
    lemma_char_index_bound(s, be);
}

proof fn lemma_push_within(r0: Seq<SpanV>, x: SpanV, n: int)
    requires
        forall|k: int| 0 <= k < r0.len() ==> within(#[trigger] r0[k], n),
        within(x, n),
    ensures
        forall|k: int| 0 <= k < r0.push(x).len() ==> within(#[trigger] r0.push(x)[k], n),
{
    assert forall|k: int| 0 <= k < r0.push(x).len() implies within(#[trigger] r0.push(x)[k], n) by {
        if k < r0.len() {
            assert(r0.push(x)[k] == r0[k]);
        }
    }
}

proof fn lemma_match_spans_within(text: Seq<char>, ms: Seq<(usize, usize)>)
    ensures
        forall|k: int|
            0 <= k < spans_from_matches(text, ms).len() ==> within(
                #[trigger] spans_from_matches(text, ms)[k],
                text.len() as int,
            ),
    decreases ms.len(),
{
    if ms.len() > 0 {
        lemma_match_spans_within(text, ms.drop_last());
        let r0 = spans_from_matches(text, ms.drop_last());
        lemma_char_span_bound(text, ms.last().0 as int, ms.last().1 as int);
        if let Some(p) = char_span_of(text, ms.last().0 as int, ms.last().1 as int) {
            lemma_push_within(
                r0,
                SpanV { start: p.0, end: p.1, text: text.subrange(p.0, p.1) },
                text.len() as int,
            );
        }
    }
}

proof fn lemma_group_spans_within(
    text: Seq<char>,
    caps: Seq<(Option<(usize, usize)>, Option<(usize, usize)>)>,
    is_name: bool,
)
    ensures
        forall|k: int|
            0 <= k < spans_from_groups(text, caps, is_name).len() ==> within(
                #[trigger] spans_from_groups(text, caps, is_name)[k],
                text.len() as int,
            ),
    decreases caps.len(),
{
    if caps.len() > 0 {
        lemma_group_spans_within(text, caps.drop_last(), is_name);
        let r0 = spans_from_groups(text, caps.drop_last(), is_name);
        if let Some(g) = caps.last().1 {
            lemma_char_span_bound(text, g.0 as int, g.1 as int);
            if let Some(p) = char_span_of(text, g.0 as int, g.1 as int) {
                if let Some(sp) = group_span(text, p.0, p.1, is_name) {
                    lemma_push_within(r0, sp, text.len() as int);
                }
            }
        }
    }
}

proof fn lemma_header_spans_within(text: Seq<char>, cands: Seq<Seq<char>>)
    ensures
        forall|k: int|
            0 <= k < header_spans_of(text, cands).len() ==> within(
                #[trigger] header_spans_of(text, cands)[k],
                text.len() as int,
            ),
    decreases cands.len(),
{
    if cands.len() > 0 {
        lemma_header_spans_within(text, cands.drop_last());
        lemma_first_match(text, cands.last(), 0);
        let r0 = header_spans_of(text, cands.drop_last());
        if let Some(sp) = header_span(text, cands.last()) {
            lemma_push_within(r0, sp, text.len() as int);
        }
    }
}

proof fn lemma_surname_spans_within(text: Seq<char>, n: int)
    requires
        n <= text.len(),
    ensures
        forall|k: int|
            0 <= k < surname_spans_upto(text, n).len() ==> within(
                #[trigger] surname_spans_upto(text, n)[k],
                text.len() as int,
            ),
    decreases n,
{
    if n > 0 {
        lemma_surname_spans_within(text, n - 1);
        lemma_run_end_pub(text, n - 1, n);
        let r0 = surname_spans_upto(text, n - 1);
        if let Some(sp) = surname_span_at(text, n - 1) {
            lemma_push_within(r0, sp, text.len() as int);
        }
    }
}

proof fn lemma_candidates_within(text: Seq<char>)
    ensures
        forall|k: int|
            0 <= k < candidate_spans(text).len() ==> within(
                #[trigger] candidate_spans(text)[k],
                text.len() as int,
            ),
{
    let n = text.len() as int;
    let parts = seq![
        match_spans(text, EMAIL_PATTERN@),
        match_spans(text, MOBILE_PATTERN@),
        match_spans(text, LANDLINE_PATTERN@),
        group_spans(text, LABELED_PHONE_PATTERN@, false),
        group_spans(text, QQ_PATTERN@, false),
        group_spans(text, WECHAT_PATTERN@, false),
        group_spans(text, NAME_LABELED_PATTERN@, true),
        header_spans(text),
        surname_spans(text),
    ];
    assert forall|i: int| 0 <= i < 3 implies forall|k: int|
        0 <= k < (#[trigger] parts[i]).len() ==> within(parts[i][k], n) by {
        let pat = if i == 0 {
            EMAIL_PATTERN@
        } else if i == 1 {
            MOBILE_PATTERN@
        } else {
            LANDLINE_PATTERN@
        };
        if let Some(ms) = regex_find_spans(pat, text) {
            lemma_match_spans_within(text, ms);
        }
    }
    assert forall|i: int| 3 <= i < 7 implies forall|k: int|
        0 <= k < (#[trigger] parts[i]).len() ==> within(parts[i][k], n) by {
        let pat = if i == 3 {
            LABELED_PHONE_PATTERN@
        } else if i == 4 {
            QQ_PATTERN@
        } else if i == 5 {
            WECHAT_PATTERN@
        } else {
            NAME_LABELED_PATTERN@
        };
        if let Some(caps) = regex_capture_spans(pat, text) {
            lemma_group_spans_within(text, caps, i == 6);
        }
    }
    lemma_header_spans_within(text, header_candidates(text));
    if text.len() >= 2 {
        lemma_surname_spans_within(text, text.len() as int);
    }
    let all = candidate_spans(text);
    assert(all =~= parts[0] + parts[1] + parts[2] + parts[3] + parts[4] + parts[5] + parts[6]
        + parts[7] + parts[8]);
    assert forall|k: int| 0 <= k < all.len() implies within(#[trigger] all[k], n) by {
        assert forall|i: int| 0 <= i < 9 implies forall|m: int|
            0 <= m < (#[trigger] parts[i]).len() ==> within(parts[i][m], n) by {}
        if k < parts[0].len() {
            assert(all[k] == parts[0][k]);
        }
    }
}

// ------------------------------------------------------------ the law

/// Restoring the placeholders of a masked text gives the text back: for a text
/// in which `RM_PRIV_` does not occur (text shaped like a placeholder could be
/// taken for one), when every chosen segment is non-empty and stands for its own region of the text
/// (a labeled name records its trimmed text, so a name captured with surrounding
/// white space would lose it), and at most 2^32 segments are chosen (placeholder
/// ids would repeat otherwise).
pub proof fn law_unmask_restores_masked_text(text: Seq<char>, id: u32)
    requires
        no_marker(text),
        forall|k: int|
            0 <= k < pick_spans(candidate_spans(text)).len() ==> {
                let sp = #[trigger] pick_spans(candidate_spans(text))[k];
                sp.start < sp.end && sp.text == text.subrange(sp.start, sp.end)
            },
        pick_spans(candidate_spans(text)).len() <= 0x1_0000_0000,
    ensures
        unmask_spec(mask_result(text, id).0, mask_result(text, id).1) == text,
{
    if text.len() == 0 {
        assert(unmask_spec(Seq::<char>::empty(), Seq::empty()) =~= text);
    } else {
        let p = pick_spans(candidate_spans(text));
        law_masked_segments_disjoint_in_order(text);
        assert forall|k: int| 0 <= k < p.len() implies 0 <= (#[trigger] p[k]).start < p[k].end
            <= text.len() && p[k].text == text.subrange(p[k].start, p[k].end) by {
            assert(within(p[k], text.len() as int));
        }
        lemma_chain_of_picked(text, p);
        lemma_advance_distinct(id, p.len());
        lemma_unmask_render(text, p, id);
    }
}

proof fn lemma_placeholder_injective(x: u32, y: u32)
    requires
        placeholder(x) == placeholder(y),
    ensures
        x == y,
{
    lemma_placeholder_shape(x);
    lemma_placeholder_shape(y);
    let px = placeholder(x);
    let dx = dec_width(x as nat, 4);
    let dy = dec_width(y as nat, 4);
    assert(px.subrange(10, px.len() - 2) =~= dx);
    assert(placeholder(y).subrange(10, placeholder(y).len() - 2) =~= dy);
    lemma_dec_width_injective(x as nat, y as nat, 4);
}

/// Two texts masked one after the other with one shared counter get
/// different placeholders: no placeholder of the first map is one of the
/// second, so both maps together restore both texts. (At most 2^32
/// placeholders in all; the counter would come round again otherwise.)
pub proof fn law_shared_counter_keeps_placeholders_distinct(a: Seq<char>, b: Seq<char>, id: u32)
    requires
        mask_result(a, id).1.len() + mask_result(b, mask_next_id(a, id)).1.len() <= 0x1_0000_0000,
    ensures
        forall|i: int, j: int|
            0 <= i < mask_result(a, id).1.len() && 0 <= j < mask_result(b, mask_next_id(a, id)).1.len()
                ==> (#[trigger] mask_result(a, id).1[i]).0 != (#[trigger] mask_result(
                b,
                mask_next_id(a, id),
            ).1[j]).0,
{
    let id1 = mask_next_id(a, id);
    let pa = mask_result(a, id).1;
    let pb = mask_result(b, id1).1;
    if a.len() > 0 && b.len() > 0 {
        let sa = pick_spans(candidate_spans(a));
        let sb = pick_spans(candidate_spans(b));
        lemma_pairs_index(sa, id);
        lemma_pairs_index(sb, id1);
        lemma_advance_mod(id, sa.len());
        assert forall|i: int, j: int| 0 <= i < pa.len() && 0 <= j < pb.len() implies (#[trigger] pa[i]).0
            != (#[trigger] pb[j]).0 by {
            lemma_advance_mod(id, i as nat);
            lemma_advance_mod(id1, j as nat);
            let x = advance(id, i as nat);
            let y = advance(id1, j as nat);
            assert(pa[i].0 == placeholder(x));
            assert(pb[j].0 == placeholder(y));
            if placeholder(x) == placeholder(y) {
                lemma_placeholder_injective(x, y);
                let m: int = 0x1_0000_0000;
                let n = sa.len() as int;
                assert(id1 as int == (id as int + n) % m);
                assert(x as int == (id as int + i) % m);
                assert(y as int == (id1 as int + j) % m);
                assert((id as int + i) % m == ((id as int + n) % m + j) % m);
                assert(((id as int + n) % m + j) % m == (id as int + n + j) % m) by {
                    vstd::arithmetic::div_mod::lemma_add_mod_noop(id as int + n, j, m);
                    vstd::arithmetic::div_mod::lemma_mod_twice(j, m);
                    vstd::arithmetic::div_mod::lemma_small_mod(j as nat, m as nat);
                }
                assert(0 < n + j - i < m);
                vstd::arithmetic::div_mod::lemma_mod_equivalence(id as int + n + j, id as int + i, m);
                vstd::arithmetic::div_mod::lemma_small_mod((n + j - i) as nat, m as nat);
                assert(false);
            }
        }
    }
}

/// The segments chosen for masking never overlap, come in the order of the
/// text, and lie inside it.
pub proof fn law_masked_segments_disjoint_in_order(text: Seq<char>)
    ensures
        pairwise_disjoint(pick_spans(candidate_spans(text))),
        sorted_by_start(pick_spans(candidate_spans(text))),
        forall|k: int|
            0 <= k < pick_spans(candidate_spans(text)).len() ==> within(
                #[trigger] pick_spans(candidate_spans(text))[k],
                text.len() as int,
            ),
{
    let c = candidate_spans(text);
    let n = text.len() as int;
    lemma_candidates_within(text);
    let inb = |sp: SpanV| within(sp, n);
    crate::privacy_mask::lemma_sort_elems_pub(c, true, inb);
    crate::privacy_mask::lemma_greedy_elems_pub(sort_spans(c, true), inb);
    crate::privacy_mask::lemma_sort_elems_pub(greedy(sort_spans(c, true)), false, inb);
    lemma_greedy_disjoint(sort_spans(c, true));
    lemma_sort_disjoint(greedy(sort_spans(c, true)), false);
    lemma_sort_sorted(greedy(sort_spans(c, true)));
    let p = pick_spans(c);
    assert forall|k: int| 0 <= k < p.len() implies within(#[trigger] p[k], n) by {
        assert(inb(p[k]));
    }
}


// ------------------------------------------------------------ every detected segment is masked

/// `c` is masked by the chosen segments: chosen itself, or overlapped by one
/// that was chosen (so that its text does not reach the masked text whole).
pub open spec fn masked_by(picked: Seq<SpanV>, c: SpanV) -> bool {
    picked.contains(c) || exists|j: int| 0 <= j < picked.len() && overlaps(c, #[trigger] picked[j])
}

proof fn lemma_sort_same_elems(s: Seq<SpanV>, by_len: bool)
    ensures
        forall|x: SpanV| sort_spans(s, by_len).contains(x) <==> s.contains(x),
    decreases s.len(),
{
    if s.len() > 0 {
        let d = s.drop_last();
        let x = s.last();
        lemma_sort_same_elems(d, by_len);
        let sd = sort_spans(d, by_len);
        let j = lemma_insert_shape(sd, x, by_len);
        let t = sort_spans(s, by_len);
        assert(t == sd.take(j).push(x) + sd.skip(j));
        assert(t.len() == sd.len() + 1);
        assert forall|y: SpanV| t.contains(y) <==> s.contains(y) by {
            if t.contains(y) {
                let k = choose|k: int| 0 <= k < t.len() && t[k] == y;
                if k == j {
                    assert(s[s.len() - 1] == y);
                } else {
                    let m = if k < j {
                        k
                    } else {
                        k - 1
                    };
                    assert(t[k] == sd[m]);
                    assert(sd.contains(y));
                    assert(d.contains(y));
                    let i = choose|i: int| 0 <= i < d.len() && d[i] == y;
                    assert(s[i] == y);
                }
            }
            if s.contains(y) {
                let k = choose|k: int| 0 <= k < s.len() && s[k] == y;
                if k == s.len() - 1 {
                    assert(t[j] == y);
                } else {
                    assert(d[k] == y);
                    assert(d.contains(y));
                    let m = choose|m: int| 0 <= m < sd.len() && sd[m] == y;
                    if m < j {
                        assert(t[m] == y);
                    } else {
                        assert(t[m + 1] == y);
                    }
                }
            }
        }
    }
}

proof fn lemma_greedy_masks(s: Seq<SpanV>)
    ensures
        forall|c: SpanV| s.contains(c) ==> masked_by(greedy(s), c),
    decreases s.len(),
{
    if s.len() > 0 {
        let d = s.drop_last();
        let x = s.last();
        lemma_greedy_masks(d);
        let g0 = greedy(d);
        let g = greedy(s);
        assert forall|c: SpanV| s.contains(c) implies masked_by(g, c) by {
            let k = choose|k: int| 0 <= k < s.len() && s[k] == c;
            if k < s.len() - 1 {
                assert(d[k] == c);
                assert(d.contains(c));
                assert(masked_by(g0, c));
                if g0.contains(c) {
                    let i = choose|i: int| 0 <= i < g0.len() && g0[i] == c;
                    assert(g[i] == c);
                } else {
                    let i = choose|i: int| 0 <= i < g0.len() && overlaps(c, #[trigger] g0[i]);
                    assert(g[i] == g0[i]);
                }
            } else if exists|i: int| 0 <= i < g0.len() && overlaps(x, #[trigger] g0[i]) {
                let i = choose|i: int| 0 <= i < g0.len() && overlaps(x, #[trigger] g0[i]);
                assert(g == g0);
                assert(g[i] == g0[i]);
            } else {
                assert(g == g0.push(x));
                assert(g[g0.len() as int] == c);
            }
        }
    }
}

/// Every candidate segment is masked by the segments chosen from them.
proof fn lemma_picked_mask_candidates(s: Seq<SpanV>)
    ensures
        forall|c: SpanV| s.contains(c) ==> masked_by(pick_spans(s), c),
{
    let s1 = sort_spans(s, true);
    let g = greedy(s1);
    let p = pick_spans(s);
    lemma_sort_same_elems(s, true);
    lemma_greedy_masks(s1);
    lemma_sort_same_elems(g, false);
    assert forall|c: SpanV| s.contains(c) implies masked_by(p, c) by {
        assert(s1.contains(c));
        assert(masked_by(g, c));
        if g.contains(c) {
            assert(p.contains(c));
        } else {
            let i = choose|i: int| 0 <= i < g.len() && overlaps(c, #[trigger] g[i]);
            assert(g.contains(g[i]));
            assert(p.contains(g[i]));
            let m = choose|m: int| 0 <= m < p.len() && p[m] == g[i];
            assert(overlaps(c, p[m]));
        }
    }
}

proof fn lemma_in_concat(a: Seq<SpanV>, b: Seq<SpanV>)
    ensures
        forall|c: SpanV| a.contains(c) || b.contains(c) ==> (a + b).contains(c),
{
    assert forall|c: SpanV| a.contains(c) || b.contains(c) implies (a + b).contains(c) by {
        if a.contains(c) {
            let k = choose|k: int| 0 <= k < a.len() && a[k] == c;
            assert((a + b)[k] == c);
        } else {
            let k = choose|k: int| 0 <= k < b.len() && b[k] == c;
            assert((a + b)[a.len() + k] == c);
        }
    }
}

/// Every segment a detector finds in a text (an e-mail address, a mobile or
/// landline number, a labelled phone number, QQ number or WeChat id, a
/// labelled name, a name in the header or after a common surname) is masked
/// in the text sent on: it is chosen and replaced by a placeholder, or it
/// overlaps a chosen segment.
pub proof fn law_detected_segments_are_masked(text: Seq<char>)
    ensures
        forall|c: SpanV|
            #![trigger candidate_spans(text).contains(c)]
            match_spans(text, EMAIL_PATTERN@).contains(c) || match_spans(text, MOBILE_PATTERN@).contains(c)
                || match_spans(text, LANDLINE_PATTERN@).contains(c) || group_spans(
                text,
                LABELED_PHONE_PATTERN@,
                false,
            ).contains(c) || group_spans(text, QQ_PATTERN@, false).contains(c) || group_spans(
                text,
                WECHAT_PATTERN@,
                false,
            ).contains(c) || group_spans(text, NAME_LABELED_PATTERN@, true).contains(c)
                || header_spans(text).contains(c) || surname_spans(text).contains(c) ==> masked_by(
                pick_spans(candidate_spans(text)),
                c,
            ),
        forall|c: SpanV|
            #![trigger group_spans(text, QQ_PATTERN@, false).contains(c)]
            group_spans(text, QQ_PATTERN@, false).contains(c) ==> masked_by(pick_spans(candidate_spans(text)), c),
{
    let e = match_spans(text, EMAIL_PATTERN@);
    let m = match_spans(text, MOBILE_PATTERN@);
    let l = match_spans(text, LANDLINE_PATTERN@);
    let lp = group_spans(text, LABELED_PHONE_PATTERN@, false);
    let qq = group_spans(text, QQ_PATTERN@, false);
    let wx = group_spans(text, WECHAT_PATTERN@, false);
    let nm = group_spans(text, NAME_LABELED_PATTERN@, true);
    let hd = header_spans(text);
    let sn = surname_spans(text);
    assert(candidate_spans(text) == e + m + l + lp + qq + wx + nm + hd + sn);
    lemma_in_concat(e, m);
    lemma_in_concat(e + m, l);
    lemma_in_concat(e + m + l, lp);
    lemma_in_concat(e + m + l + lp, qq);
    lemma_in_concat(e + m + l + lp + qq, wx);
    lemma_in_concat(e + m + l + lp + qq + wx, nm);
    lemma_in_concat(e + m + l + lp + qq + wx + nm, hd);
    lemma_in_concat(e + m + l + lp + qq + wx + nm + hd, sn);
    lemma_picked_mask_candidates(candidate_spans(text));
}

} // verus!
