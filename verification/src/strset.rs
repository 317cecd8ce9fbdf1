//! Sets of strings held as strictly increasing sequences in the order of
//! `Ord for str`, which compares code points lexicographically: the order in
//! which a `BTreeSet<String>` yields its items.

use crate::text::{chars_eq, vecs_view};
use vstd::prelude::*;

verus! {

/// `a < b` in the order of `Ord for str`: lexicographic by code point, a proper
/// prefix coming first.
pub open spec fn lex_lt(a: Seq<char>, b: Seq<char>) -> bool
    decreases a.len(),
{
    if a.len() == 0 {
        b.len() > 0
    } else if b.len() == 0 {
        false
    } else if a[0] < b[0] {
        true
    } else if a[0] == b[0] {
        lex_lt(a.drop_first(), b.drop_first())
    } else {
        false
    }
}

pub proof fn lemma_lex_irreflexive(a: Seq<char>)
    ensures
        !lex_lt(a, a),
    decreases a.len(),
{
    if a.len() > 0 {
        lemma_lex_irreflexive(a.drop_first());
    }
}

pub proof fn lemma_lex_transitive(a: Seq<char>, b: Seq<char>, c: Seq<char>)
    requires
        lex_lt(a, b),
        lex_lt(b, c),
    ensures
        lex_lt(a, c),
    decreases a.len(),
{
    if a.len() > 0 && b.len() > 0 && c.len() > 0 && a[0] == b[0] && b[0] == c[0] {
        lemma_lex_transitive(a.drop_first(), b.drop_first(), c.drop_first());
    }
}

pub proof fn lemma_lex_total(a: Seq<char>, b: Seq<char>)
    requires
        a != b,
    ensures
        lex_lt(a, b) || lex_lt(b, a),
    decreases a.len(),
{
    if a.len() == 0 {
        assert(b.len() > 0) by {
            if b.len() == 0 {
                assert(a =~= b);
            }
        }
    } else if b.len() > 0 && a[0] == b[0] {
        if a.drop_first() == b.drop_first() {
            assert(a =~= seq![a[0]] + a.drop_first());
            assert(b =~= seq![b[0]] + b.drop_first());
        }
        lemma_lex_total(a.drop_first(), b.drop_first());
    }
}

pub proof fn lemma_lex_asymmetric(a: Seq<char>, b: Seq<char>)
    requires
        lex_lt(a, b),
    ensures
        !lex_lt(b, a),
{
    if lex_lt(b, a) {
        lemma_lex_transitive(a, b, a);
        lemma_lex_irreflexive(a);
    }
}

/// Each item is less than every later one.
pub open spec fn sorted_strict(s: Seq<Seq<char>>) -> bool {
    forall|i: int, j: int| 0 <= i < j < s.len() ==> lex_lt(#[trigger] s[i], #[trigger] s[j])
}

/// `x` added to the sorted sequence `v`: kept once, in its place in the order.
pub open spec fn sorted_insert(v: Seq<Seq<char>>, x: Seq<char>) -> Seq<Seq<char>>
    decreases v.len(),
{
    if v.len() == 0 {
        seq![x]
    } else if v[0] == x {
        v
    } else if lex_lt(x, v[0]) {
        seq![x] + v
    } else {
        seq![v[0]] + sorted_insert(v.drop_first(), x)
    }
}

/// The items of `s`, each once, in increasing order: what collecting `s` into a
/// `BTreeSet` and iterating it yields.
pub open spec fn sorted_set_of(s: Seq<Seq<char>>) -> Seq<Seq<char>>
    decreases s.len(),
{
    if s.len() == 0 {
        Seq::empty()
    } else {
        sorted_insert(sorted_set_of(s.drop_last()), s.last())
    }
}

/// At most the first `n` items of `s`.
pub open spec fn take_at_most<A>(s: Seq<A>, n: nat) -> Seq<A> {
    if s.len() <= n {
        s
    } else {
        s.take(n as int)
    }
}

proof fn lemma_sorted_insert(v: Seq<Seq<char>>, x: Seq<char>)
    requires
        sorted_strict(v),
    ensures
        sorted_strict(sorted_insert(v, x)),
        forall|y: Seq<char>| #[trigger] sorted_insert(v, x).contains(y) <==> (v.contains(y) || y == x),
    decreases v.len(),
{
    if v.len() == 0 {
        assert forall|y: Seq<char>| #[trigger] sorted_insert(v, x).contains(y) <==> y == x by {
            if y == x {
                assert(sorted_insert(v, x)[0] == x);
            }
        }
    } else if v[0] == x {
        assert(v.contains(v[0]));
    } else if lex_lt(x, v[0]) {
        let r = seq![x] + v;
        assert forall|i: int, j: int| 0 <= i < j < r.len() implies lex_lt(#[trigger] r[i], #[trigger] r[j]) by {
            if i == 0 && j > 1 {
                lemma_lex_transitive(x, v[0], v[j - 1]);
            }
        }
        assert forall|y: Seq<char>| #[trigger] r.contains(y) <==> (v.contains(y) || y == x) by {
            if v.contains(y) {
                let k = choose|k: int| 0 <= k < v.len() && v[k] == y;
                assert(r[k + 1] == y);
            }
            if y == x {
                assert(r[0] == x);
            }
        }
    } else {
        let rest = v.drop_first();
        assert(sorted_strict(rest));
        lemma_sorted_insert(rest, x);
        let ri = sorted_insert(rest, x);
        lemma_lex_total(x, v[0]);
        let r = seq![v[0]] + ri;
        assert forall|i: int, j: int| 0 <= i < j < r.len() implies lex_lt(#[trigger] r[i], #[trigger] r[j]) by {
            if i == 0 {
                assert(ri.contains(r[j]));
                if r[j] != x {
                    let k = choose|k: int| 0 <= k < rest.len() && rest[k] == r[j];
                    assert(v[k + 1] == r[j]);
                }
            }
        }
        assert forall|y: Seq<char>| #[trigger] r.contains(y) <==> (v.contains(y) || y == x) by {
            if v.contains(y) {
                let k = choose|k: int| 0 <= k < v.len() && v[k] == y;
                if k == 0 {
                    assert(r[0] == y);
                } else {
                    assert(rest[k - 1] == y);
                    assert(ri.contains(y));
                    let m = choose|m: int| 0 <= m < ri.len() && ri[m] == y;
                    assert(r[m + 1] == y);
                }
            }
            if y == x {
                assert(ri.contains(x));
                let m = choose|m: int| 0 <= m < ri.len() && ri[m] == x;
                assert(r[m + 1] == x);
            }
            if r.contains(y) {
                let m = choose|m: int| 0 <= m < r.len() && r[m] == y;
                if m > 0 {
                    assert(ri[m - 1] == y);
                    assert(ri.contains(y));
                    if rest.contains(y) {
                        let k = choose|k: int| 0 <= k < rest.len() && rest[k] == y;
                        assert(v[k + 1] == y);
                    }
                }
            }
        }
    }
}

/// What a `BTreeSet<String>` built from `s` yields: its items are strictly
/// increasing, and they are exactly the items of `s`.
pub proof fn law_sorted_set_of(s: Seq<Seq<char>>)
    ensures
        sorted_strict(sorted_set_of(s)),
        forall|y: Seq<char>| #[trigger] sorted_set_of(s).contains(y) <==> s.contains(y),
    decreases s.len(),
{
    if s.len() > 0 {
        law_sorted_set_of(s.drop_last());
        lemma_sorted_insert(sorted_set_of(s.drop_last()), s.last());
        assert forall|y: Seq<char>| #[trigger] sorted_set_of(s).contains(y) <==> s.contains(y) by {
            if s.drop_last().contains(y) {
                let k = choose|k: int| 0 <= k < s.drop_last().len() && s.drop_last()[k] == y;
                assert(s[k] == y);
            }
            if s.contains(y) && y != s.last() {
                let k = choose|k: int| 0 <= k < s.len() && s[k] == y;
                assert(s.drop_last()[k] == y);
            }
        }
    }
}

/// Once the scan has passed every item below `x`, the place where it stopped
/// is where `sorted_insert` puts `x`.
proof fn lemma_insert_at(v: Seq<Seq<char>>, x: Seq<char>, i: int)
    requires
        0 <= i <= v.len(),
        forall|k: int| 0 <= k < i ==> lex_lt(#[trigger] v[k], x),
        i < v.len() ==> !lex_lt(v[i], x),
    ensures
        i < v.len() && v[i] == x ==> sorted_insert(v, x) == v,
        !(i < v.len() && v[i] == x) ==> sorted_insert(v, x) == v.insert(i, x),
    decreases i,
{
    if i == 0 {
        if v.len() > 0 && v[0] != x {
            lemma_lex_total(v[0], x);
            assert(seq![x] + v =~= v.insert(0, x));
        }
        if v.len() == 0 {
            assert(seq![x] =~= v.insert(0, x));
        }
    } else {
        lemma_lex_irreflexive(x);
        lemma_lex_asymmetric(v[0], x);
        let rest = v.drop_first();
        assert forall|k: int| 0 <= k < i - 1 implies lex_lt(#[trigger] rest[k], x) by {
            assert(rest[k] == v[k + 1]);
        }
        lemma_insert_at(rest, x, i - 1);
        if i < v.len() && v[i] == x {
            assert(seq![v[0]] + rest =~= v);
        } else {
            assert(seq![v[0]] + rest.insert(i - 1, x) =~= v.insert(i, x));
        }
    }
}

/// `a < b` in the order of `Ord for str`.
pub fn lex_less(a: &Vec<char>, b: &Vec<char>) -> (r: bool)
    ensures
        r == lex_lt(a@, b@),
{
    let mut i: usize = 0;
    assert(a@.skip(0) =~= a@);
    assert(b@.skip(0) =~= b@);
    while i < a.len() && i < b.len()
        invariant
            i <= a.len(),
            i <= b.len(),
            lex_lt(a@, b@) == lex_lt(a@.skip(i as int), b@.skip(i as int)),
        decreases a.len() - i,
    {
        assert(a@.skip(i as int)[0] == a@[i as int]);
        assert(b@.skip(i as int)[0] == b@[i as int]);
        if a[i] < b[i] {
            return true;
        }
        if a[i] != b[i] {
            return false;
        }
        assert(a@.skip(i as int).drop_first() =~= a@.skip(i + 1));
        assert(b@.skip(i as int).drop_first() =~= b@.skip(i + 1));
        i += 1;
    }
    i == a.len() && i < b.len()
}

/// Adds `x` to the sorted set `v`, as `sorted_insert` states it.
pub fn set_insert(v: &mut Vec<Vec<char>>, x: Vec<char>)
    ensures
        vecs_view(final(v)@) == sorted_insert(vecs_view(old(v)@), x@),
{
    let ghost vv = vecs_view(v@);
    let mut i: usize = 0;
    while i < v.len() && lex_less(&v[i], &x)
        invariant
            i <= v.len(),
            vv == vecs_view(v@),
            forall|k: int| 0 <= k < i ==> lex_lt(#[trigger] vv[k], x@),
        decreases v.len() - i,
    {
        i += 1;
    }
    proof {
        lemma_insert_at(vv, x@, i as int);
    }
    if i < v.len() && chars_eq(&v[i], &x) {
        return;
    }
    v.insert(i, x);
    assert(vecs_view(v@) =~= vv.insert(i as int, x@));
}

/// The sorted set of the items of `items`, as `sorted_set_of` states it.
pub fn sorted_set_from(items: &Vec<Vec<char>>) -> (r: Vec<Vec<char>>)
    ensures
        vecs_view(r@) == sorted_set_of(vecs_view(items@)),
{
    let mut r: Vec<Vec<char>> = Vec::new();
    let mut i: usize = 0;
    while i < items.len()
        invariant
            i <= items.len(),
            vecs_view(r@) == sorted_set_of(vecs_view(items@).take(i as int)),
        decreases items.len() - i,
    {
        let x = items[i].clone();
        assert(x@ == items@[i as int]@);
        set_insert(&mut r, x);
        assert(vecs_view(items@).take(i + 1).drop_last() =~= vecs_view(items@).take(i as int));
        i += 1;
    }
    assert(vecs_view(items@).take(items.len() as int) =~= vecs_view(items@));
    r
}

} // verus!
