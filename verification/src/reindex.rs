//! Keyed entries of a resume (`"1"`, `"2"`, ...): ordering them by the number
//! of their key, and numbering them afresh from one. Entries are held as
//! `(key, entry)` pairs in the order of their keys as strings, which is how a
//! `BTreeMap<String, _>` holds them.

use crate::numbers::{decimal, parse_usize, parse_usize_chars, usize_decimal};
use crate::strset::{
    lemma_lex_asymmetric, lemma_lex_irreflexive, lemma_lex_total, lemma_lex_transitive, lex_less, lex_lt,
};
use crate::text::{chars_eq, chars_to_string, str_chars};
use vstd::prelude::*;

verus! {

/// The number a key stands for; 9999 when it is not a number.
pub open spec fn key_index(k: Seq<char>) -> usize {
    match parse_usize(k) {
        Some(v) => v,
        None => 9999,
    }
}

/// The entries with their keys read as numbers, entries taken by their views.
pub open spec fn indexed<T: View>(m: Seq<(String, T)>) -> Seq<(usize, T::V)> {
    m.map_values(|p: (String, T)| (key_index(p.0@), p.1@))
}

/// The pairs with their entries taken by their views.
pub open spec fn numbered_view<T: View>(v: Seq<(usize, T)>) -> Seq<(usize, T::V)> {
    v.map_values(|p: (usize, T)| (p.0, p.1@))
}

/// The pairs with their keys and entries taken by their views.
pub open spec fn keyed_view<T: View>(v: Seq<(String, T)>) -> Seq<(Seq<char>, T::V)> {
    v.map_values(|p: (String, T)| (p.0@, p.1@))
}

/// `x` placed after every pair whose number is not above its own.
pub open spec fn insert_by_index<V>(v: Seq<(usize, V)>, x: (usize, V)) -> Seq<(usize, V)>
    decreases v.len(),
{
    if v.len() == 0 {
        seq![x]
    } else if x.0 < v[0].0 {
        seq![x] + v
    } else {
        seq![v[0]] + insert_by_index(v.drop_first(), x)
    }
}

/// The pairs ordered by number, keeping the order of pairs with equal
/// numbers: what a stable `sort_by_key` gives.
pub open spec fn sort_by_index<V>(s: Seq<(usize, V)>) -> Seq<(usize, V)>
    decreases s.len(),
{
    if s.len() == 0 {
        s
    } else {
        insert_by_index(sort_by_index(s.drop_last()), s.last())
    }
}

/// `(k, x)` put in its place among pairs ordered by key, replacing a pair with
/// the same key: what `BTreeMap::insert` does.
pub open spec fn insert_by_key<V>(v: Seq<(Seq<char>, V)>, k: Seq<char>, x: V) -> Seq<
    (Seq<char>, V),
>
    decreases v.len(),
{
    if v.len() == 0 {
        seq![(k, x)]
    } else if v[0].0 == k {
        seq![(k, x)] + v.drop_first()
    } else if lex_lt(k, v[0].0) {
        seq![(k, x)] + v
    } else {
        seq![v[0]] + insert_by_key(v.drop_first(), k, x)
    }
}

/// The items keyed `"1"`, `"2"`, ... in their order, held in key order.
pub open spec fn renumbered<V>(items: Seq<V>) -> Seq<(Seq<char>, V)>
    decreases items.len(),
{
    if items.len() == 0 {
        Seq::empty()
    } else {
        insert_by_key(renumbered(items.drop_last()), decimal(items.len() as nat), items.last())
    }
}

proof fn lemma_index_insert_at<V>(v: Seq<(usize, V)>, x: (usize, V), i: int)
    requires
        0 <= i <= v.len(),
        forall|k: int| 0 <= k < i ==> (#[trigger] v[k]).0 <= x.0,
        i < v.len() ==> x.0 < v[i].0,
    ensures
        insert_by_index(v, x) == v.insert(i, x),
    decreases i,
{
    if i == 0 {
        if v.len() > 0 {
            assert(seq![x] + v =~= v.insert(0, x));
        } else {
            assert(seq![x] =~= v.insert(0, x));
        }
    } else {
        let rest = v.drop_first();
        assert forall|k: int| 0 <= k < i - 1 implies (#[trigger] rest[k]).0 <= x.0 by {
            assert(rest[k] == v[k + 1]);
        }
        lemma_index_insert_at(rest, x, i - 1);
        assert(seq![v[0]] + rest.insert(i - 1, x) =~= v.insert(i, x));
    }
}

fn insert_by_index_exec<T: View>(v: &mut Vec<(usize, T)>, x: (usize, T))
    ensures
        numbered_view(final(v)@) == insert_by_index(numbered_view(old(v)@), (x.0, x.1@)),
{
    let ghost vv = numbered_view(v@);
    let mut i: usize = 0;
    while i < v.len() && v[i].0 <= x.0
        invariant
            i <= v.len(),
            vv == numbered_view(v@),
            forall|k: int| 0 <= k < i ==> (#[trigger] vv[k]).0 <= x.0,
        decreases v.len() - i,
    {
        i += 1;
    }
    proof {
        lemma_index_insert_at(vv, (x.0, x.1@), i as int);
    }
    let ghost xv = (x.0, x.1@);
    v.insert(i, x);
    assert(numbered_view(v@) =~= vv.insert(i as int, xv));
}

proof fn lemma_key_insert_at<V>(v: Seq<(Seq<char>, V)>, k: Seq<char>, x: V, i: int)
    requires
        0 <= i <= v.len(),
        forall|j: int| 0 <= j < i ==> lex_lt((#[trigger] v[j]).0, k),
        i < v.len() ==> !lex_lt(v[i].0, k),
    ensures
        i < v.len() && v[i].0 == k ==> insert_by_key(v, k, x) == v.update(i, (k, x)),
        !(i < v.len() && v[i].0 == k) ==> insert_by_key(v, k, x) == v.insert(i, (k, x)),
    decreases i,
{
    if i == 0 {
        if v.len() > 0 && v[0].0 != k {
            lemma_lex_total(v[0].0, k);
            assert(seq![(k, x)] + v =~= v.insert(0, (k, x)));
        } else if v.len() > 0 {
            assert(seq![(k, x)] + v.drop_first() =~= v.update(0, (k, x)));
        } else {
            assert(seq![(k, x)] =~= v.insert(0, (k, x)));
        }
    } else {
        lemma_lex_irreflexive(k);
        lemma_lex_asymmetric(v[0].0, k);
        let rest = v.drop_first();
        assert forall|j: int| 0 <= j < i - 1 implies lex_lt((#[trigger] rest[j]).0, k) by {
            assert(rest[j] == v[j + 1]);
        }
        lemma_key_insert_at(rest, k, x, i - 1);
        if i < v.len() && v[i].0 == k {
            assert(seq![v[0]] + rest.update(i - 1, (k, x)) =~= v.update(i, (k, x)));
        } else {
            assert(seq![v[0]] + rest.insert(i - 1, (k, x)) =~= v.insert(i, (k, x)));
        }
    }
}

pub(crate) fn insert_by_key_exec<T: View>(v: &mut Vec<(String, T)>, k: String, x: T)
    ensures
        keyed_view(final(v)@) == insert_by_key(keyed_view(old(v)@), k@, x@),
{
    let ghost vv = keyed_view(v@);
    let kc = str_chars(k.as_str());
    let mut i: usize = 0;
    while i < v.len() && lex_less(&str_chars(v[i].0.as_str()), &kc)
        invariant
            i <= v.len(),
            kc@ == k@,
            vv == keyed_view(v@),
            forall|j: int| 0 <= j < i ==> lex_lt((#[trigger] vv[j]).0, k@),
        decreases v.len() - i,
    {
        i += 1;
    }
    proof {
        lemma_key_insert_at(vv, k@, x@, i as int);
    }
    let ghost kx = (k@, x@);
    if i < v.len() && chars_eq(&str_chars(v[i].0.as_str()), &kc) {
        let _old = v.remove(i);
        v.insert(i, (k, x));
        assert(keyed_view(v@) =~= vv.update(i as int, kx));
    } else {
        v.insert(i, (k, x));
        assert(keyed_view(v@) =~= vv.insert(i as int, kx));
    }
}

/// The entries ordered by the number of their keys (stable).
pub fn sort_entries<T: View>(m: Vec<(String, T)>) -> (r: Vec<(usize, T)>)
    ensures
        numbered_view(r@) == sort_by_index(indexed(m@)),
{
    let ghost orig = m@;
    assert(orig.len() == m.len());
    let mut m = m;
    let mut out: Vec<(usize, T)> = Vec::new();
    let mut i: usize = 0;
    assert(indexed(orig).take(0) =~= Seq::<(usize, T::V)>::empty());
    while m.len() > 0
        invariant
            i + m.len() == orig.len(),
            orig.len() <= usize::MAX,
            m@ == orig.skip(i as int),
            numbered_view(out@) == sort_by_index(indexed(orig).take(i as int)),
        decreases m.len(),
    {
        let (k, v) = m.remove(0);
        assert(orig[i as int] == (k, v));
        let idx = match parse_usize_chars(&str_chars(k.as_str())) {
            Some(n) => n,
            None => 9999,
        };
        insert_by_index_exec(&mut out, (idx, v));
        assert(indexed(orig).take(i + 1).drop_last() =~= indexed(orig).take(i as int));
        assert(m@ =~= orig.skip(i + 1));
        i += 1;
    }
    assert(indexed(orig).take(i as int) =~= indexed(orig));
    out
}

/// The items keyed `"1"`, `"2"`, ... in their order, as `renumbered` states it.
pub fn renumber<T: View>(items: Vec<T>) -> (r: Vec<(String, T)>)
    ensures
        keyed_view(r@) == renumbered(items@.map_values(|x: T| x@)),
        keys_ascending(keyed_view(r@)),
{
    proof {
        law_renumbered_keys_ascending(items@.map_values(|x: T| x@));
    }
    let ghost orig = items@.map_values(|x: T| x@);
    assert(orig.len() == items.len());
    let mut items = items;
    let mut out: Vec<(String, T)> = Vec::new();
    let mut i: usize = 0;
    assert(orig.take(0) =~= Seq::<T::V>::empty());
    while items.len() > 0
        invariant
            i + items.len() == orig.len(),
            orig.len() <= usize::MAX,
            items@.map_values(|x: T| x@) == orig.skip(i as int),
            keyed_view(out@) == renumbered(orig.take(i as int)),
        decreases items.len(),
    {
        let ghost first = items@[0];
        let ghost bi = items@;
        assert(items@.map_values(|x: T| x@)[0] == first@);
        assert(orig.skip(i as int)[0] == orig[i as int]);
        let x = items.remove(0);
        assert(x@ == orig[i as int]);
        assert(items@ =~= bi.skip(1));
        assert(items@.map_values(|x: T| x@) =~= bi.map_values(|x: T| x@).skip(1));
        let key = chars_to_string(&usize_decimal(i + 1));
        insert_by_key_exec(&mut out, key, x);
        assert(orig.take(i + 1).drop_last() =~= orig.take(i as int));
        assert(items@.map_values(|x: T| x@) =~= orig.skip(i + 1));
        i += 1;
    }
    assert(orig.take(i as int) =~= orig);
    out
}

/// Keyed entries numbered afresh: ordered by the number of their keys
/// (entries whose key is not a number last), then keyed `"1"`, `"2"`, ...;
/// a single `default` entry keyed `"1"` when there are none.
pub open spec fn indexed_normalized<V>(m: Seq<(usize, V)>, default: V) -> Seq<(Seq<char>, V)> {
    if m.len() == 0 {
        seq![("1"@, default)]
    } else {
        renumbered(sort_by_index(m).map_values(|p: (usize, V)| p.1))
    }
}

/// Keyed entries numbered afresh, as `indexed_normalized` states it.
pub fn normalize_indexed_map<T: View>(m: Vec<(String, T)>, default_item: T) -> (r: Vec<(String, T)>)
    ensures
        keyed_view(r@) == indexed_normalized(indexed(m@), default_item@),
        keys_ascending(keyed_view(r@)),
{
    proof {
        law_indexed_normalized_ascending(indexed(m@), default_item@);
    }
    let ghost mv = indexed(m@);
    let sorted = sort_entries(m);
    if sorted.len() == 0 {
        let mut out: Vec<(String, T)> = Vec::new();
        let one = str_chars("1");
        out.push((chars_to_string(&one), default_item));
        assert(keyed_view(out@) =~= seq![("1"@, default_item@)]);
        return out;
    }
    let ghost sv = numbered_view(sorted@);
    assert(sv.len() == sorted.len());
    let mut sorted = sorted;
    let mut items: Vec<T> = Vec::new();
    let mut i: usize = 0;
    while sorted.len() > 0
        invariant
            i + sorted.len() == sv.len(),
            sv.len() <= usize::MAX,
            numbered_view(sorted@) == sv.skip(i as int),
            items@.map_values(|x: T| x@) == sv.take(i as int).map_values(|p: (usize, T::V)| p.1),
        decreases sorted.len(),
    {
        let ghost first = sorted@[0];
        let ghost bs = sorted@;
        assert(numbered_view(sorted@)[0] == (first.0, first.1@));
        assert(sv.skip(i as int)[0] == sv[i as int]);
        let (_n, x) = sorted.remove(0);
        assert(sorted@ =~= bs.skip(1));
        assert(numbered_view(sorted@) =~= numbered_view(bs).skip(1));
        assert(sv[i as int].1 == x@);
        let ghost before = items@;
        items.push(x);
        assert(items@ == before.push(x));
        assert(items@.map_values(|x: T| x@) =~= before.map_values(|x: T| x@).push(x@));
        assert(sv.take(i + 1).map_values(|p: (usize, T::V)| p.1) =~= sv.take(i as int).map_values(
            |p: (usize, T::V)| p.1,
        ).push(sv[i as int].1));
        assert(items@.map_values(|x: T| x@) =~= sv.take(i + 1).map_values(|p: (usize, T::V)| p.1));
        assert(numbered_view(sorted@) =~= sv.skip(i + 1));
        i += 1;
    }
    assert(sv.take(i as int) =~= sv);
    renumber(items)
}

/// Keyed pairs with their keys read as numbers.
pub open spec fn indexed_keys<V>(m: Seq<(Seq<char>, V)>) -> Seq<(usize, V)> {
    m.map_values(|p: (Seq<char>, V)| (key_index(p.0), p.1))
}

pub proof fn lemma_indexed_keys<T: View>(m: Seq<(String, T)>)
    ensures
        indexed(m) == indexed_keys(keyed_view(m)),
{
    assert(indexed(m) =~= indexed_keys(keyed_view(m)));
}

// ---------------------------------------------------------------- numbering laws

/// The entry under key `k`: the first pair with that key.
pub open spec fn lookup<V>(m: Seq<(Seq<char>, V)>, k: Seq<char>) -> Option<V>
    decreases m.len(),
{
    if m.len() == 0 {
        None
    } else if m[0].0 == k {
        Some(m[0].1)
    } else {
        lookup(m.drop_first(), k)
    }
}

/// Some pair has key `k`.
pub open spec fn has_key<V>(m: Seq<(Seq<char>, V)>, k: Seq<char>) -> bool {
    exists|i: int| 0 <= i < m.len() && (#[trigger] m[i]).0 == k
}

/// Looking a key up after an insert: the inserted entry under its key, the
/// earlier entries under the others.
pub proof fn lemma_lookup_insert<V>(m: Seq<(Seq<char>, V)>, k: Seq<char>, x: V, k2: Seq<char>)
    ensures
        lookup(insert_by_key(m, k, x), k2) == (if k2 == k {
            Some(x)
        } else {
            lookup(m, k2)
        }),
    decreases m.len(),
{
    let r = insert_by_key(m, k, x);
    if m.len() == 0 {
        assert(r.drop_first() =~= m);
    } else if m[0].0 == k {
        assert(r.drop_first() =~= m.drop_first());
    } else if lex_lt(k, m[0].0) {
        assert(r.drop_first() =~= m);
    } else {
        assert(r.drop_first() =~= insert_by_key(m.drop_first(), k, x));
        lemma_lookup_insert(m.drop_first(), k, x, k2);
    }
}

proof fn lemma_insert_keys<V>(m: Seq<(Seq<char>, V)>, k: Seq<char>, x: V)
    ensures
        !has_key(m, k) ==> insert_by_key(m, k, x).len() == m.len() + 1,
        forall|k2: Seq<char>|
            #[trigger] has_key(insert_by_key(m, k, x), k2) ==> k2 == k || has_key(m, k2),
    decreases m.len(),
{
    let r = insert_by_key(m, k, x);
    if m.len() == 0 {
        assert forall|k2: Seq<char>| #[trigger] has_key(r, k2) implies k2 == k || has_key(m, k2) by {
            let j = choose|j: int| 0 <= j < r.len() && (#[trigger] r[j]).0 == k2;
            assert(r[j] == (k, x));
        }
    } else if m[0].0 == k {
        assert(has_key(m, k)) by {
            assert(m[0].0 == k);
        }
        assert forall|k2: Seq<char>| #[trigger] has_key(r, k2) implies k2 == k || has_key(m, k2) by {
            let j = choose|j: int| 0 <= j < r.len() && (#[trigger] r[j]).0 == k2;
            if j > 0 {
                assert(r[j] == m[j]);
            }
        }
    } else if lex_lt(k, m[0].0) {
        if !has_key(m, k) {
            assert(r.len() == m.len() + 1);
        }
        assert forall|k2: Seq<char>| #[trigger] has_key(r, k2) implies k2 == k || has_key(m, k2) by {
            let j = choose|j: int| 0 <= j < r.len() && (#[trigger] r[j]).0 == k2;
            if j > 0 {
                assert(r[j] == m[j - 1]);
            }
        }
    } else {
        let t = m.drop_first();
        lemma_insert_keys(t, k, x);
        let rt = insert_by_key(t, k, x);
        assert(r == seq![m[0]] + rt);
        if !has_key(m, k) {
            assert(!has_key(t, k)) by {
                if has_key(t, k) {
                    let j = choose|j: int| 0 <= j < t.len() && (#[trigger] t[j]).0 == k;
                    assert(m[j + 1] == t[j]);
                }
            }
        }
        assert forall|k2: Seq<char>| #[trigger] has_key(r, k2) implies k2 == k || has_key(m, k2) by {
            let j = choose|j: int| 0 <= j < r.len() && (#[trigger] r[j]).0 == k2;
            if j == 0 {
                assert(m[0].0 == k2);
            } else {
                assert(r[j] == rt[j - 1]);
                assert(has_key(rt, k2));
                if k2 != k {
                    let i = choose|i: int| 0 <= i < t.len() && (#[trigger] t[i]).0 == k2;
                    assert(m[i + 1] == t[i]);
                }
            }
        }
    }
}

/// The key of the entry at position `i`: its number counted from one.
pub open spec fn position_key(i: int) -> Seq<char> {
    decimal((i + 1) as nat)
}

/// Keyed entries held in ascending order of their keys as strings, no key
/// twice: the order in which a `BTreeMap<String, _>` yields them.
pub open spec fn keys_ascending<V>(m: Seq<(Seq<char>, V)>) -> bool {
    forall|i: int, j: int| 0 <= i < j < m.len() ==> lex_lt(#[trigger] m[i].0, #[trigger] m[j].0)
}

proof fn lemma_insert_by_key_ascending<V>(v: Seq<(Seq<char>, V)>, k: Seq<char>, x: V)
    requires
        keys_ascending(v),
    ensures
        keys_ascending(insert_by_key(v, k, x)),
        forall|j: int|
            0 <= j < insert_by_key(v, k, x).len() ==> (#[trigger] insert_by_key(v, k, x)[j]).0 == k
                || has_key(v, insert_by_key(v, k, x)[j].0),
    decreases v.len(),
{
    let u = insert_by_key(v, k, x);
    if v.len() == 0 {
    } else if v[0].0 == k {
        assert forall|i: int, j: int| 0 <= i < j < u.len() implies lex_lt(#[trigger] u[i].0, #[trigger] u[j].0) by {
            assert(u[j].0 == v[j].0);
            if i > 0 {
                assert(u[i].0 == v[i].0);
            }
        }
        assert forall|j: int| 0 <= j < u.len() implies (#[trigger] u[j]).0 == k || has_key(v, u[j].0) by {
            assert(u[j].0 == v[j].0);
        }
    } else if lex_lt(k, v[0].0) {
        assert forall|i: int, j: int| 0 <= i < j < u.len() implies lex_lt(#[trigger] u[i].0, #[trigger] u[j].0) by {
            assert(u[j] == v[j - 1]);
            if i == 0 {
                if j > 1 {
                    lemma_lex_transitive(k, v[0].0, v[j - 1].0);
                }
            } else {
                assert(u[i] == v[i - 1]);
            }
        }
        assert forall|j: int| 0 <= j < u.len() implies (#[trigger] u[j]).0 == k || has_key(v, u[j].0) by {
            if j > 0 {
                assert(u[j] == v[j - 1]);
            }
        }
    } else {
        let rest = v.drop_first();
        assert(keys_ascending(rest)) by {
            assert forall|i: int, j: int| 0 <= i < j < rest.len() implies lex_lt(
                #[trigger] rest[i].0,
                #[trigger] rest[j].0,
            ) by {
                assert(rest[i] == v[i + 1] && rest[j] == v[j + 1]);
            }
        }
        lemma_insert_by_key_ascending(rest, k, x);
        let ur = insert_by_key(rest, k, x);
        lemma_lex_total(k, v[0].0);
        assert(u == seq![v[0]] + ur);
        assert forall|j: int| 0 <= j < ur.len() implies lex_lt(v[0].0, (#[trigger] ur[j]).0) by {
            if ur[j].0 != k {
                let t = choose|t: int| 0 <= t < rest.len() && (#[trigger] rest[t]).0 == ur[j].0;
                assert(rest[t] == v[t + 1]);
            }
        }
        assert forall|i: int, j: int| 0 <= i < j < u.len() implies lex_lt(#[trigger] u[i].0, #[trigger] u[j].0) by {
            assert(u[j] == ur[j - 1]);
            if i > 0 {
                assert(u[i] == ur[i - 1]);
            }
        }
        assert forall|j: int| 0 <= j < u.len() implies (#[trigger] u[j]).0 == k || has_key(v, u[j].0) by {
            if j == 0 {
                assert(v[0].0 == u[0].0);
            } else {
                assert(u[j] == ur[j - 1]);
                if ur[j - 1].0 != k {
                    let t = choose|t: int| 0 <= t < rest.len() && (#[trigger] rest[t]).0 == ur[j - 1].0;
                    assert(v[t + 1] == rest[t]);
                }
            }
        }
    }
}

/// Entries numbered afresh are held in ascending key order.
pub proof fn law_renumbered_keys_ascending<V>(items: Seq<V>)
    ensures
        keys_ascending(renumbered(items)),
    decreases items.len(),
{
    if items.len() > 0 {
        law_renumbered_keys_ascending(items.drop_last());
        lemma_insert_by_key_ascending(renumbered(items.drop_last()), decimal(items.len() as nat), items.last());
    }
}

/// Normalized keyed entries are held in ascending key order.
pub proof fn law_indexed_normalized_ascending<V>(m: Seq<(usize, V)>, default: V)
    ensures
        keys_ascending(indexed_normalized(m, default)),
{
    if m.len() > 0 {
        law_renumbered_keys_ascending(sort_by_index(m).map_values(|p: (usize, V)| p.1));
    }
}

/// Numbering entries afresh keeps every entry, under the number of its
/// position: the `i`-th entry is found under key `i + 1`, and no other key
/// is used.
pub proof fn law_renumbered_keys<V>(items: Seq<V>)
    ensures
        renumbered(items).len() == items.len(),
        forall|i: int|
            0 <= i < items.len() ==> lookup(renumbered(items), position_key(i)) == Some(
                #[trigger] items[i],
            ),
        forall|k: Seq<char>|
            #[trigger] has_key(renumbered(items), k) ==> exists|i: int|
                0 <= i < items.len() && k == #[trigger] position_key(i),
    decreases items.len(),
{
    if items.len() > 0 {
        let n = items.len();
        let init = items.drop_last();
        let r0 = renumbered(init);
        law_renumbered_keys(init);
        let kn = decimal(n as nat);
        assert(!has_key(r0, kn)) by {
            if has_key(r0, kn) {
                let i = choose|i: int| 0 <= i < init.len() && kn == #[trigger] position_key(i);
                crate::numbers::lemma_decimal_injective(n as nat, (i + 1) as nat);
            }
        }
        lemma_insert_keys(r0, kn, items.last());
        assert forall|i: int| 0 <= i < items.len() implies lookup(
            renumbered(items),
            position_key(i),
        ) == Some(#[trigger] items[i]) by {
            lemma_lookup_insert(r0, kn, items.last(), position_key(i));
            if i < n - 1 {
                if position_key(i) == kn {
                    crate::numbers::lemma_decimal_injective(n as nat, (i + 1) as nat);
                }
                assert(init[i] == items[i]);
            }
        }
        assert forall|k: Seq<char>| #[trigger] has_key(renumbered(items), k) implies exists|i: int|
            0 <= i < items.len() && k == #[trigger] position_key(i) by {
            if k == kn {
                assert(0 <= n - 1 < items.len() && k == position_key(n - 1));
            } else {
                assert(has_key(r0, k));
                let i = choose|i: int| 0 <= i < init.len() && k == #[trigger] position_key(i);
                assert(0 <= i < items.len() && k == position_key(i));
            }
        }
    }
}

/// A key that is found is the key of some pair holding the found entry.
pub proof fn lemma_lookup_index<V>(m: Seq<(Seq<char>, V)>, k: Seq<char>)
    ensures
        lookup(m, k) is Some ==> exists|i: int|
            0 <= i < m.len() && (#[trigger] m[i]).0 == k && Some(m[i].1) == lookup(m, k),
    decreases m.len(),
{
    if m.len() > 0 && m[0].0 != k {
        let t = m.drop_first();
        lemma_lookup_index(t, k);
        if lookup(t, k) is Some {
            let i = choose|i: int| 0 <= i < t.len() && (#[trigger] t[i]).0 == k && Some(t[i].1) == lookup(t, k);
            assert(m[i + 1] == t[i]);
        }
    } else if m.len() > 0 {
        assert(m[0].0 == k);
    }
}

proof fn lemma_insert_by_index_len<V>(v: Seq<(usize, V)>, x: (usize, V))
    ensures
        insert_by_index(v, x).len() == v.len() + 1,
    decreases v.len(),
{
    if v.len() > 0 && x.0 >= v[0].0 {
        lemma_insert_by_index_len(v.drop_first(), x);
    }
}

proof fn lemma_sort_by_index_len<V>(s: Seq<(usize, V)>)
    ensures
        sort_by_index(s).len() == s.len(),
    decreases s.len(),
{
    if s.len() > 0 {
        lemma_sort_by_index_len(s.drop_last());
        lemma_insert_by_index_len(sort_by_index(s.drop_last()), s.last());
    }
}

/// Entries keyed `"1"` to `"n"`: every key is the number of a position and
/// every position has its entry.
pub open spec fn keyed_by_position<V>(m: Seq<(Seq<char>, V)>) -> bool {
    &&& forall|k: Seq<char>|
        #[trigger] has_key(m, k) ==> exists|i: int| 0 <= i < m.len() && k == #[trigger] position_key(i)
    &&& forall|i: int| 0 <= i < m.len() ==> (#[trigger] lookup(m, position_key(i))) is Some
}

/// Entries numbered afresh are keyed by position.
pub proof fn lemma_renumbered_keyed<V>(items: Seq<V>)
    ensures
        renumbered(items).len() == items.len(),
        keyed_by_position(renumbered(items)),
{
    law_renumbered_keys(items);
    let r = renumbered(items);
    assert forall|i: int| 0 <= i < r.len() implies (#[trigger] lookup(r, position_key(i))) is Some by {
        assert(lookup(r, position_key(i)) == Some(items[i]));
    }
}

/// Normalized keyed entries are never empty and are keyed `"1"` to `"n"`.
pub proof fn law_indexed_normalized_keys<V>(m: Seq<(usize, V)>, default: V)
    ensures
        indexed_normalized(m, default).len() >= 1,
        keyed_by_position(indexed_normalized(m, default)),
{
    if m.len() == 0 {
        let r = indexed_normalized(m, default);
        reveal_strlit("1");
        assert(position_key(0) =~= "1"@);
        assert(lookup(r, position_key(0)) is Some);
        assert forall|k: Seq<char>| #[trigger] has_key(r, k) implies exists|i: int|
            0 <= i < r.len() && k == #[trigger] position_key(i) by {
            let j = choose|j: int| 0 <= j < r.len() && (#[trigger] r[j]).0 == k;
            assert(k == position_key(0));
        }
    } else {
        lemma_sort_by_index_len(m);
        lemma_renumbered_keyed(sort_by_index(m).map_values(|p: (usize, V)| p.1));
    }
}

} // verus!
