//! Repairing the JSON a model returns for a resume before it is read as one:
//! misplaced and misnamed fields moved, lists turned into numbered entries,
//! required fields filled in. The JSON is held as a tree of the library's
//! own type; parsing and writing JSON text is the caller's part.

use crate::numbers::{parse_usize, parse_usize_chars};
use crate::reindex::{insert_by_key, insert_by_key_exec, keyed_view, lemma_lookup_insert, lookup, renumber, renumbered};
use crate::text::{append_chars, chars_eq, chars_to_string, str_chars, trim, trim_chars};
use vstd::prelude::*;

verus! {

/// A JSON value. Object members are held in ascending key order, as a
/// `serde_json` map holds them. Null, booleans and numbers are held by their
/// JSON text; arrays and objects carry the compact JSON text they were read
/// from (empty for values built here), which is what a member that must be
/// text becomes.
pub enum Json {
    Str(String),
    Array(Vec<Json>, String),
    Object(Vec<(String, Json)>, String),
    Other(String),
}

/// A JSON value as text and sequences.
pub enum JsonV {
    Str(Seq<char>),
    Array(Seq<JsonV>, Seq<char>),
    Object(Seq<(Seq<char>, JsonV)>, Seq<char>),
    Other(Seq<char>),
}

pub open spec fn json_view(j: Json) -> JsonV
    decreases j,
{
    match j {
        Json::Str(s) => JsonV::Str(s@),
        Json::Array(items, t) => JsonV::Array(items_view(items@), t@),
        Json::Object(members, t) => JsonV::Object(members_view(members@), t@),
        Json::Other(t) => JsonV::Other(t@),
    }
}

pub open spec fn items_view(s: Seq<Json>) -> Seq<JsonV>
    decreases s,
{
    if s.len() == 0 {
        Seq::empty()
    } else {
        items_view(s.subrange(0, s.len() - 1)).push(json_view(s[s.len() - 1]))
    }
}

pub open spec fn members_view(s: Seq<(String, Json)>) -> Seq<(Seq<char>, JsonV)>
    decreases s,
{
    if s.len() == 0 {
        Seq::empty()
    } else {
        members_view(s.subrange(0, s.len() - 1)).push(
            (s[s.len() - 1].0@, json_view(s[s.len() - 1].1)),
        )
    }
}

impl View for Json {
    type V = JsonV;

    open spec fn view(&self) -> JsonV {
        json_view(*self)
    }
}

proof fn lemma_items_view(s: Seq<Json>)
    ensures
        items_view(s).len() == s.len(),
        forall|i: int| 0 <= i < s.len() ==> #[trigger] items_view(s)[i] == s[i]@,
    decreases s.len(),
{
    if s.len() > 0 {
        lemma_items_view(s.subrange(0, s.len() - 1));
    }
}

proof fn lemma_members_view(s: Seq<(String, Json)>)
    ensures
        members_view(s) == keyed_view(s),
    decreases s.len(),
{
    if s.len() > 0 {
        let p = s.subrange(0, s.len() - 1);
        lemma_members_view(p);
        assert(keyed_view(s) =~= keyed_view(p).push((s[s.len() - 1].0@, s[s.len() - 1].1@)));
    } else {
        assert(keyed_view(s) =~= Seq::<(Seq<char>, JsonV)>::empty());
    }
}

/// The view of an object's members.
pub proof fn lemma_object_view(members: Vec<(String, Json)>, t: String)
    ensures
        Json::Object(members, t)@ == JsonV::Object(keyed_view(members@), t@),
{
    lemma_members_view(members@);
}

/// The view of an array's items.
pub proof fn lemma_array_view(items: Vec<Json>, t: String)
    ensures
        Json::Array(items, t)@ == JsonV::Array(items@.map_values(|x: Json| x@), t@),
{
    lemma_items_view(items@);
    assert(items_view(items@) =~= items@.map_values(|x: Json| x@));
}

fn clone_string(s: &String) -> (r: String)
    ensures
        r@ == s@,
{
    s.clone()
}

/// A copy of a JSON value.
pub fn json_clone(j: &Json) -> (r: Json)
    ensures
        r@ == j@,
    decreases j,
{
    match j {
        Json::Str(s) => Json::Str(clone_string(s)),
        Json::Other(t) => Json::Other(clone_string(t)),
        Json::Array(items, t) => {
            let mut out: Vec<Json> = Vec::new();
            let mut i: usize = 0;
            while i < items.len()
                invariant
                    i <= items.len(),
                    *j == Json::Array(*items, *t),
                    out@.len() == i,
                    forall|k: int| 0 <= k < i ==> (#[trigger] out@[k])@ == items@[k]@,
                decreases items.len() - i,
            {
                proof {
                    assert(decreases_to!(*j => (*j)->Array_0));
                    assert(decreases_to!(*items => items@));
                    assert(decreases_to!(items@ => items@[i as int]));
                }
                let c = json_clone(&items[i]);
                out.push(c);
                i += 1;
            }
            proof {
                lemma_array_view(out, *t);
                lemma_array_view(*items, *t);
                assert(out@.map_values(|x: Json| x@) =~= items@.map_values(|x: Json| x@));
            }
            Json::Array(out, clone_string(t))
        },
        Json::Object(members, t) => {
            let mut out: Vec<(String, Json)> = Vec::new();
            let mut i: usize = 0;
            while i < members.len()
                invariant
                    i <= members.len(),
                    *j == Json::Object(*members, *t),
                    out@.len() == i,
                    forall|k: int|
                        0 <= k < i ==> (#[trigger] out@[k]).0@ == members@[k].0@ && out@[k].1@
                            == members@[k].1@,
                decreases members.len() - i,
            {
                proof {
                    assert(decreases_to!(*j => (*j)->Object_0));
                    assert(decreases_to!(*members => members@));
                    assert(decreases_to!(members@ => members@[i as int]));
                    assert(decreases_to!(members@[i as int] => members@[i as int].1));
                }
                let c = json_clone(&members[i].1);
                out.push((clone_string(&members[i].0), c));
                i += 1;
            }
            proof {
                lemma_object_view(out, *t);
                lemma_object_view(*members, *t);
                assert(keyed_view(out@) =~= keyed_view(members@));
            }
            Json::Object(out, clone_string(t))
        },
    }
}

// ---------------------------------------------------------------- members

/// The value of the first member named `k`.
pub open spec fn member(m: Seq<(Seq<char>, JsonV)>, k: Seq<char>) -> Option<JsonV> {
    lookup(m, k)
}

/// The members without the first one named `k`.
pub open spec fn without(m: Seq<(Seq<char>, JsonV)>, k: Seq<char>) -> Seq<(Seq<char>, JsonV)>
    decreases m.len(),
{
    if m.len() == 0 {
        m
    } else if m[0].0 == k {
        m.drop_first()
    } else {
        seq![m[0]] + without(m.drop_first(), k)
    }
}

proof fn lemma_member_at(m: Seq<(Seq<char>, JsonV)>, k: Seq<char>, i: int)
    requires
        0 <= i <= m.len(),
        forall|j: int| 0 <= j < i ==> (#[trigger] m[j]).0 != k,
    ensures
        i < m.len() && m[i].0 == k ==> member(m, k) == Some(m[i].1) && without(m, k) == m.remove(i),
        i == m.len() ==> member(m, k) is None && without(m, k) == m,
    decreases i,
{
    if i > 0 {
        let rest = m.drop_first();
        assert forall|j: int| 0 <= j < i - 1 implies (#[trigger] rest[j]).0 != k by {
            assert(rest[j] == m[j + 1]);
        }
        lemma_member_at(rest, k, i - 1);
        if i < m.len() && m[i].0 == k {
            assert(seq![m[0]] + rest.remove(i - 1) =~= m.remove(i));
        }
        if i == m.len() {
            assert(seq![m[0]] + rest =~= m);
        }
    } else if m.len() > 0 && m[0].0 == k {
        assert(m.drop_first() =~= m.remove(0));
    }
}

fn str_eq(a: &String, b: &str) -> (r: bool)
    ensures
        r == (a@ == b@),
{
    chars_eq(&str_chars(a.as_str()), &str_chars(b))
}

/// Where the first member named `k` is.
fn find_member(m: &Vec<(String, Json)>, k: &str) -> (r: Option<usize>)
    ensures
        match r {
            Some(i) => i < m.len() && m@[i as int].0@ == k@ && member(keyed_view(m@), k@) == Some(
                m@[i as int].1@,
            ) && without(keyed_view(m@), k@) == keyed_view(m@.remove(i as int)),
            None => member(keyed_view(m@), k@) is None && without(keyed_view(m@), k@) == keyed_view(m@),
        },
{
    let ghost v = keyed_view(m@);
    let mut i: usize = 0;
    while i < m.len()
        invariant
            i <= m.len(),
            v == keyed_view(m@),
            forall|j: int| 0 <= j < i ==> (#[trigger] v[j]).0 != k@,
        decreases m.len() - i,
    {
        if str_eq(&m[i].0, k) {
            proof {
                lemma_member_at(v, k@, i as int);
                assert(v.remove(i as int) =~= keyed_view(m@.remove(i as int)));
            }
            return Some(i);
        }
        i += 1;
    }
    proof {
        lemma_member_at(v, k@, i as int);
    }
    None
}

/// Removes the first member named `k` and returns its value.
fn take_member(m: &mut Vec<(String, Json)>, k: &str) -> (r: Option<Json>)
    ensures
        keyed_view(final(m)@) == without(keyed_view(old(m)@), k@),
        match r {
            Some(x) => member(keyed_view(old(m)@), k@) == Some(x@),
            None => member(keyed_view(old(m)@), k@) is None && final(m)@ == old(m)@,
        },
{
    match find_member(m, k) {
        Some(i) => {
            let (_, x) = m.remove(i);
            Some(x)
        },
        None => None,
    }
}

/// Sets member `k` to `x`, in its place by key.
fn put_member(m: &mut Vec<(String, Json)>, k: &str, x: Json)
    ensures
        keyed_view(final(m)@) == insert_by_key(keyed_view(old(m)@), k@, x@),
{
    insert_by_key_exec(m, k.to_owned(), x);
}

// ---------------------------------------------------------------- single repairs

pub open spec fn opt_json_view(o: Option<Json>) -> Option<JsonV> {
    match o {
        Some(j) => Some(j@),
        None => None,
    }
}

/// A member named `from` renamed `to`, unless a member `to` exists.
pub open spec fn aliased(m: Seq<(Seq<char>, JsonV)>, from: Seq<char>, to: Seq<char>) -> Seq<
    (Seq<char>, JsonV),
> {
    if member(m, to) is Some {
        m
    } else {
        match member(m, from) {
            Some(v) => insert_by_key(without(m, from), to, v),
            None => m,
        }
    }
}

fn alias_field(m: &mut Vec<(String, Json)>, from: &str, to: &str)
    ensures
        keyed_view(final(m)@) == aliased(keyed_view(old(m)@), from@, to@),
{
    if find_member(m, to).is_some() {
        return;
    }
    match take_member(m, from) {
        Some(v) => put_member(m, to, v),
        None => {},
    }
}

pub open spec fn empty_object() -> JsonV {
    JsonV::Object(Seq::empty(), Seq::empty())
}

fn new_object() -> (r: Json)
    ensures
        r@ == empty_object(),
{
    let m: Vec<(String, Json)> = Vec::new();
    let t = String::new();
    proof {
        lemma_object_view(m, t);
        assert(keyed_view(m@) =~= Seq::<(Seq<char>, JsonV)>::empty());
    }
    Json::Object(m, t)
}

fn new_array(items: Vec<Json>) -> (r: Json)
    ensures
        r@ == JsonV::Array(items@.map_values(|x: Json| x@), Seq::empty()),
{
    let t = String::new();
    proof {
        lemma_array_view(items, t);
    }
    Json::Array(items, t)
}

fn new_str(s: String) -> (r: Json)
    ensures
        r@ == JsonV::Str(s@),
{
    Json::Str(s)
}

/// Member `key` made an empty object unless it is an object.
pub open spec fn with_object(m: Seq<(Seq<char>, JsonV)>, key: Seq<char>) -> Seq<(Seq<char>, JsonV)> {
    match member(m, key) {
        Some(JsonV::Object(_, _)) => m,
        _ => insert_by_key(m, key, empty_object()),
    }
}

fn ensure_object_field(m: &mut Vec<(String, Json)>, key: &str)
    ensures
        keyed_view(final(m)@) == with_object(keyed_view(old(m)@), key@),
{
    let is_object = match find_member(m, key) {
        Some(i) => matches!(m[i].1, Json::Object(..)),
        None => false,
    };
    if !is_object {
        put_member(m, key, new_object());
    }
}

/// The JSON text a value that is not a string stands for.
pub open spec fn text_of(v: JsonV) -> Seq<char> {
    match v {
        JsonV::Str(s) => s,
        JsonV::Array(_, t) => t,
        JsonV::Object(_, t) => t,
        JsonV::Other(t) => t,
    }
}

/// Member `key` made a string: a missing one empty, another value its JSON text.
pub open spec fn with_string(m: Seq<(Seq<char>, JsonV)>, key: Seq<char>) -> Seq<(Seq<char>, JsonV)> {
    match member(m, key) {
        Some(JsonV::Str(_)) => m,
        Some(v) => insert_by_key(m, key, JsonV::Str(text_of(v))),
        None => insert_by_key(m, key, JsonV::Str(Seq::empty())),
    }
}

fn ensure_string_key(m: &mut Vec<(String, Json)>, key: &str)
    ensures
        keyed_view(final(m)@) == with_string(keyed_view(old(m)@), key@),
{
    match find_member(m, key) {
        Some(i) => {
            let t = match &m[i].1 {
                Json::Str(_) => None,
                Json::Array(_, t) => Some(clone_string(t)),
                Json::Object(_, t) => Some(clone_string(t)),
                Json::Other(t) => Some(clone_string(t)),
            };
            match t {
                Some(t) => put_member(m, key, new_str(t)),
                None => {},
            }
        },
        None => put_member(m, key, new_str(String::new())),
    }
}

/// The listed members each made a string.
pub open spec fn stringified(m: Seq<(Seq<char>, JsonV)>, keys: Seq<Seq<char>>) -> Seq<
    (Seq<char>, JsonV),
>
    decreases keys.len(),
{
    if keys.len() == 0 {
        m
    } else {
        with_string(stringified(m, keys.drop_last()), keys.last())
    }
}

pub open spec fn keys_view(keys: Seq<&str>) -> Seq<Seq<char>> {
    keys.map_values(|k: &str| k@)
}

fn ensure_string_keys(m: &mut Vec<(String, Json)>, keys: &Vec<&str>)
    ensures
        keyed_view(final(m)@) == stringified(keyed_view(old(m)@), keys_view(keys@)),
{
    let ghost m0 = keyed_view(m@);
    let ghost kv = keys_view(keys@);
    let mut i: usize = 0;
    assert(kv.take(0) =~= Seq::<Seq<char>>::empty());
    while i < keys.len()
        invariant
            i <= keys.len(),
            kv == keys_view(keys@),
            keyed_view(m@) == stringified(m0, kv.take(i as int)),
        decreases keys.len() - i,
    {
        assert(kv.take(i + 1).drop_last() =~= kv.take(i as int));
        assert(kv.take(i + 1).last() == keys@[i as int]@);
        ensure_string_key(m, keys[i]);
        i += 1;
    }
    assert(kv.take(i as int) =~= kv);
}

/// Every member name reads as an unsigned number.
pub open spec fn index_keys(m: Seq<(Seq<char>, JsonV)>) -> bool {
    forall|i: int| 0 <= i < m.len() ==> parse_usize(#[trigger] m[i].0) is Some
}

/// Entries as an object keyed `"1"`, `"2"`, ...: an array numbered in order,
/// an object keyed by numbers kept, another object made entry `"1"`, any
/// other value an empty object.
pub open spec fn indexed_value(v: JsonV) -> JsonV {
    match v {
        JsonV::Array(items, _) => JsonV::Object(renumbered(items), Seq::empty()),
        JsonV::Object(m, t) => if index_keys(m) {
            JsonV::Object(m, t)
        } else {
            JsonV::Object(seq![("1"@, JsonV::Object(m, t))], Seq::empty())
        },
        _ => empty_object(),
    }
}

fn all_index_keys(m: &Vec<(String, Json)>) -> (r: bool)
    ensures
        r == index_keys(keyed_view(m@)),
{
    let ghost v = keyed_view(m@);
    let mut i: usize = 0;
    while i < m.len()
        invariant
            i <= m.len(),
            v == keyed_view(m@),
            forall|k: int| 0 <= k < i ==> parse_usize(#[trigger] v[k].0) is Some,
        decreases m.len() - i,
    {
        if parse_usize_chars(&str_chars(m[i].0.as_str())).is_none() {
            assert(v[i as int].0 == m@[i as int].0@);
            return false;
        }
        i += 1;
    }
    true
}

fn to_indexed_object(v: Json) -> (r: Json)
    ensures
        r@ == indexed_value(v@),
{
    let ghost gv = v@;
    match v {
        Json::Array(items, t) => {
            proof {
                lemma_array_view(items, t);
            }
            let m = renumber(items);
            let e = String::new();
            proof {
                lemma_object_view(m, e);
            }
            Json::Object(m, e)
        },
        Json::Object(m, t) => {
            proof {
                lemma_object_view(m, t);
            }
            if all_index_keys(&m) {
                Json::Object(m, t)
            } else {
                let inner = Json::Object(m, t);
                let mut out: Vec<(String, Json)> = Vec::new();
                put_member(&mut out, "1", inner);
                let e = String::new();
                proof {
                    lemma_object_view(out, e);
                    reveal_strlit("1");
                }
                Json::Object(out, e)
            }
        },
        _ => new_object(),
    }
}

/// The members of an entry: an object's own, a string as its description.
pub open spec fn item_members(v: JsonV) -> Seq<(Seq<char>, JsonV)> {
    match v {
        JsonV::Object(m, _) => m,
        JsonV::Str(s) => seq![("description"@, JsonV::Str(s))],
        _ => Seq::empty(),
    }
}

/// The listed members added as empty strings where missing.
pub open spec fn filled_keys(o: Seq<(Seq<char>, JsonV)>, keys: Seq<Seq<char>>) -> Seq<
    (Seq<char>, JsonV),
>
    decreases keys.len(),
{
    if keys.len() == 0 {
        o
    } else {
        let r = filled_keys(o, keys.drop_last());
        if member(r, keys.last()) is None {
            insert_by_key(r, keys.last(), JsonV::Str(Seq::empty()))
        } else {
            r
        }
    }
}

pub open spec fn sanitized_item(v: JsonV, keys: Seq<Seq<char>>) -> JsonV {
    JsonV::Object(filled_keys(item_members(v), keys), Seq::empty())
}

/// Every entry of an object made an object with the listed members.
pub open spec fn sanitized_items(v: JsonV, keys: Seq<Seq<char>>) -> JsonV {
    match v {
        JsonV::Object(m, t) => JsonV::Object(
            m.map_values(|p: (Seq<char>, JsonV)| (p.0, sanitized_item(p.1, keys))),
            t,
        ),
        _ => v,
    }
}

fn sanitize_item(x: Json, keys: &Vec<&str>) -> (r: Json)
    ensures
        r@ == sanitized_item(x@, keys_view(keys@)),
{
    let ghost xv = x@;
    let mut o: Vec<(String, Json)> = match x {
        Json::Object(m, t) => {
            proof {
                lemma_object_view(m, t);
            }
            m
        },
        Json::Str(s) => {
            let mut v: Vec<(String, Json)> = Vec::new();
            put_member(&mut v, "description", new_str(s));
            v
        },
        _ => Vec::new(),
    };
    assert(keyed_view(o@) == item_members(xv)) by {
        reveal_strlit("description");
        if !(xv is Object) && !(xv is Str) {
            assert(keyed_view(o@) =~= Seq::<(Seq<char>, JsonV)>::empty());
        }
    }
    let ghost kv = keys_view(keys@);
    let mut i: usize = 0;
    assert(kv.take(0) =~= Seq::<Seq<char>>::empty());
    while i < keys.len()
        invariant
            i <= keys.len(),
            kv == keys_view(keys@),
            keyed_view(o@) == filled_keys(item_members(xv), kv.take(i as int)),
        decreases keys.len() - i,
    {
        assert(kv.take(i + 1).drop_last() =~= kv.take(i as int));
        assert(kv.take(i + 1).last() == keys@[i as int]@);
        if find_member(&o, keys[i]).is_none() {
            put_member(&mut o, keys[i], new_str(String::new()));
        }
        i += 1;
    }
    assert(kv.take(i as int) =~= kv);
    let e = String::new();
    proof {
        lemma_object_view(o, e);
    }
    Json::Object(o, e)
}

fn sanitize_indexed_items(v: Json, keys: &Vec<&str>) -> (r: Json)
    ensures
        r@ == sanitized_items(v@, keys_view(keys@)),
{
    match v {
        Json::Object(m, t) => {
            proof {
                lemma_object_view(m, t);
            }
            let ghost orig = m@;
            let ghost kv = keys_view(keys@);
            let n0: usize = m.len();
            assert(orig.len() == n0);
            let mut rest = m;
            let mut out: Vec<(String, Json)> = Vec::new();
            let mut i: usize = 0;
            while rest.len() > 0
                invariant
                    i + rest.len() == orig.len(),
                    orig.len() <= usize::MAX,
                    rest@ == orig.skip(i as int),
                    kv == keys_view(keys@),
                    keyed_view(out@) == keyed_view(orig.take(i as int)).map_values(
                        |p: (Seq<char>, JsonV)| (p.0, sanitized_item(p.1, kv)),
                    ),
                decreases rest.len(),
            {
                let ghost before = rest@;
                let (k, x) = rest.remove(0);
                assert(orig[i as int] == (k, x));
                let y = sanitize_item(x, keys);
                let ghost ob = out@;
                out.push((k, y));
                proof {
                    assert(rest@ =~= orig.skip(i + 1));
                    let f = |p: (Seq<char>, JsonV)| (p.0, sanitized_item(p.1, kv));
                    assert(orig.take(i + 1) =~= orig.take(i as int).push((k, x)));
                    assert(keyed_view(orig.take(i + 1)) =~= keyed_view(orig.take(i as int)).push((k@, x@)));
                    assert(keyed_view(out@) =~= keyed_view(ob).push((k@, y@)));
                    crate::text::lemma_map_push(keyed_view(orig.take(i as int)), (k@, x@), f);
                }
                i += 1;
            }
            assert(orig.take(i as int) =~= orig);
            proof {
                lemma_object_view(out, t);
            }
            Json::Object(out, t)
        },
        other => other,
    }
}

// ---------------------------------------------------------------- basic fields

/// A copy of the first member named `k`.
fn member_json(m: &Vec<(String, Json)>, k: &str) -> (r: Option<Json>)
    ensures
        opt_json_view(r) == member(keyed_view(m@), k@),
{
    match find_member(m, k) {
        Some(i) => Some(json_clone(&m[i].1)),
        None => None,
    }
}

/// An object's members; nothing for another value.
pub open spec fn members_of(v: JsonV) -> Seq<(Seq<char>, JsonV)> {
    match v {
        JsonV::Object(m, _) => m,
        _ => Seq::empty(),
    }
}

pub open spec fn object_members(o: Option<JsonV>) -> Seq<(Seq<char>, JsonV)> {
    match o {
        Some(v) => members_of(v),
        None => Seq::empty(),
    }
}

pub open spec fn basic_scalar_keys() -> Seq<Seq<char>> {
    seq!["name"@, "age"@, "contact"@, "gender"@]
}

pub open spec fn basic_list_keys() -> Seq<Seq<char>> {
    seq!["education"@, "skills"@, "certificates"@]
}

fn scalar_keys() -> (r: Vec<&'static str>)
    ensures
        keys_view(r@) == basic_scalar_keys(),
{
    let mut v: Vec<&'static str> = Vec::new();
    v.push("name");
    v.push("age");
    v.push("contact");
    v.push("gender");
    assert(keys_view(v@) =~= basic_scalar_keys());
    v
}

fn list_keys() -> (r: Vec<&'static str>)
    ensures
        keys_view(r@) == basic_list_keys(),
{
    let mut v: Vec<&'static str> = Vec::new();
    v.push("education");
    v.push("skills");
    v.push("certificates");
    assert(keys_view(v@) =~= basic_list_keys());
    v
}

/// A text field is taken from the top level when it is missing, not a
/// string, or blank.
pub open spec fn scalar_needs_fill(o: Option<JsonV>) -> bool {
    match o {
        Some(JsonV::Str(s)) => trim(s).len() == 0,
        _ => true,
    }
}

/// A list field is taken from the top level when it is missing, null, or an
/// empty array.
pub open spec fn list_needs_fill(o: Option<JsonV>) -> bool {
    match o {
        Some(JsonV::Array(items, _)) => items.len() == 0,
        Some(JsonV::Other(t)) => t == "null"@,
        None => true,
        _ => false,
    }
}

pub open spec fn needs_fill(o: Option<JsonV>, list: bool) -> bool {
    if list {
        list_needs_fill(o)
    } else {
        scalar_needs_fill(o)
    }
}

/// The listed fields of `b` that need it taken from the top-level members.
pub open spec fn keys_filled(
    root: Seq<(Seq<char>, JsonV)>,
    b: Seq<(Seq<char>, JsonV)>,
    keys: Seq<Seq<char>>,
    list: bool,
) -> Seq<(Seq<char>, JsonV)>
    decreases keys.len(),
{
    if keys.len() == 0 {
        b
    } else {
        let r = keys_filled(root, b, keys.drop_last(), list);
        let k = keys.last();
        if needs_fill(member(r, k), list) {
            match member(root, k) {
                Some(v) => insert_by_key(r, k, v),
                None => r,
            }
        } else {
            r
        }
    }
}

fn needs_fill_exec(b: &Vec<(String, Json)>, key: &str, list: bool) -> (r: bool)
    ensures
        r == needs_fill(member(keyed_view(b@), key@), list),
{
    match find_member(b, key) {
        Some(j) => {
            let x = &b[j].1;
            assert(member(keyed_view(b@), key@) == Some(x@));
            match x {
                Json::Str(s) => {
                    assert(x@ == JsonV::Str(s@));
                    !list && trim_chars(&str_chars(s.as_str())).len() == 0
                },
                Json::Array(items, t) => {
                    proof {
                        lemma_array_view(*items, *t);
                    }
                    assert(x@ == JsonV::Array(items@.map_values(|y: Json| y@), t@));
                    assert(items@.map_values(|y: Json| y@).len() == items@.len());
                    !list || items.len() == 0
                },
                Json::Other(t) => {
                    assert(x@ == JsonV::Other(t@));
                    !list || str_eq(t, "null")
                },
                Json::Object(m, t) => {
                    proof {
                        lemma_object_view(*m, *t);
                    }
                    !list
                },
            }
        },
        None => true,
    }
}

fn fill_keys(root: &Vec<(String, Json)>, b: &mut Vec<(String, Json)>, keys: &Vec<&str>, list: bool)
    ensures
        keyed_view(final(b)@) == keys_filled(keyed_view(root@), keyed_view(old(b)@), keys_view(keys@), list),
{
    let ghost b0 = keyed_view(b@);
    let ghost kv = keys_view(keys@);
    let mut i: usize = 0;
    assert(kv.take(0) =~= Seq::<Seq<char>>::empty());
    while i < keys.len()
        invariant
            i <= keys.len(),
            kv == keys_view(keys@),
            keyed_view(b@) == keys_filled(keyed_view(root@), b0, kv.take(i as int), list),
        decreases keys.len() - i,
    {
        assert(kv.take(i + 1).drop_last() =~= kv.take(i as int));
        assert(kv.take(i + 1).last() == keys@[i as int]@);
        if needs_fill_exec(b, keys[i], list) {
            match member_json(root, keys[i]) {
                Some(v) => put_member(b, keys[i], v),
                None => {},
            }
        }
        i += 1;
    }
    assert(kv.take(i as int) =~= kv);
}

/// Basic fields a model put at the top level copied into `basicInfo` where
/// it lacks them.
pub open spec fn merged_top_level(root: Seq<(Seq<char>, JsonV)>) -> Seq<(Seq<char>, JsonV)> {
    let b0 = object_members(member(root, "basicInfo"@));
    let b1 = keys_filled(root, b0, basic_scalar_keys(), false);
    let b2 = keys_filled(root, b1, basic_list_keys(), true);
    insert_by_key(root, "basicInfo"@, JsonV::Object(b2, Seq::empty()))
}

fn object_members_exec(o: Option<Json>) -> (r: Vec<(String, Json)>)
    ensures
        keyed_view(r@) == object_members(opt_json_view(o)),
{
    match o {
        Some(Json::Object(m, t)) => {
            proof {
                lemma_object_view(m, t);
            }
            m
        },
        _ => {
            let v: Vec<(String, Json)> = Vec::new();
            assert(keyed_view(v@) =~= Seq::<(Seq<char>, JsonV)>::empty());
            v
        },
    }
}

fn new_object_of(m: Vec<(String, Json)>) -> (r: Json)
    ensures
        r@ == JsonV::Object(keyed_view(m@), Seq::empty()),
{
    let e = String::new();
    proof {
        lemma_object_view(m, e);
    }
    Json::Object(m, e)
}

fn merge_top_level_basic_fields(root: &mut Vec<(String, Json)>)
    ensures
        keyed_view(final(root)@) == merged_top_level(keyed_view(old(root)@)),
{
    let mut basic = object_members_exec(member_json(root, "basicInfo"));
    fill_keys(root, &mut basic, &scalar_keys(), false);
    fill_keys(root, &mut basic, &list_keys(), true);
    put_member(root, "basicInfo", new_object_of(basic));
}

/// Contact details under another name renamed `contact`.
pub open spec fn contacts_aliased(b: Seq<(Seq<char>, JsonV)>) -> Seq<(Seq<char>, JsonV)> {
    aliased(
        aliased(aliased(aliased(b, "phone"@, "contact"@), "mobile"@, "contact"@), "tel"@, "contact"@),
        "联系方式"@,
        "contact"@,
    )
}

/// The top-level members after a list that sits in `b` under `key`, or else
/// under `alt`, is moved up as `key`, where the top level lacks `key`.
pub open spec fn lifted_root(
    root: Seq<(Seq<char>, JsonV)>,
    b: Seq<(Seq<char>, JsonV)>,
    key: Seq<char>,
    alt: Seq<char>,
) -> Seq<(Seq<char>, JsonV)> {
    if member(root, key) is Some {
        root
    } else {
        match member(b, key) {
            Some(v) => insert_by_key(root, key, v),
            None => match member(b, alt) {
                Some(v) => insert_by_key(root, key, v),
                None => root,
            },
        }
    }
}

/// `b` after that move.
pub open spec fn lifted_basic(
    root: Seq<(Seq<char>, JsonV)>,
    b: Seq<(Seq<char>, JsonV)>,
    key: Seq<char>,
    alt: Seq<char>,
) -> Seq<(Seq<char>, JsonV)> {
    if member(root, key) is Some {
        b
    } else if member(b, key) is Some {
        without(b, key)
    } else {
        without(b, alt)
    }
}

fn lift_member(root: &mut Vec<(String, Json)>, b: &mut Vec<(String, Json)>, key: &str, alt: &str)
    ensures
        keyed_view(final(root)@) == lifted_root(keyed_view(old(root)@), keyed_view(old(b)@), key@, alt@),
        keyed_view(final(b)@) == lifted_basic(keyed_view(old(root)@), keyed_view(old(b)@), key@, alt@),
{
    if find_member(root, key).is_some() {
        return;
    }
    let first = take_member(b, key);
    let found = match first {
        Some(v) => Some(v),
        None => take_member(b, alt),
    };
    match found {
        Some(v) => put_member(root, key, v),
        None => {},
    }
}

/// `basicInfo` with its contact aliases applied and any experience lists
/// it holds moved to the top level.
pub open spec fn moved_from_basic(root: Seq<(Seq<char>, JsonV)>) -> Seq<(Seq<char>, JsonV)> {
    match member(root, "basicInfo"@) {
        Some(JsonV::Object(b, _)) => {
            let b1 = contacts_aliased(b);
            let r1 = lifted_root(root, b1, "workExperience"@, "work_experience"@);
            let b2 = lifted_basic(root, b1, "workExperience"@, "work_experience"@);
            let r2 = lifted_root(r1, b2, "projectExperience"@, "project_experience"@);
            let b3 = lifted_basic(r1, b2, "projectExperience"@, "project_experience"@);
            insert_by_key(r2, "basicInfo"@, JsonV::Object(b3, Seq::empty()))
        },
        _ => root,
    }
}

fn move_from_basic(root: &mut Vec<(String, Json)>)
    ensures
        keyed_view(final(root)@) == moved_from_basic(keyed_view(old(root)@)),
{
    match member_json(root, "basicInfo") {
        Some(Json::Object(b, t)) => {
            proof {
                lemma_object_view(b, t);
            }
            let mut b = b;
            alias_field(&mut b, "phone", "contact");
            alias_field(&mut b, "mobile", "contact");
            alias_field(&mut b, "tel", "contact");
            alias_field(&mut b, "联系方式", "contact");
            lift_member(root, &mut b, "workExperience", "work_experience");
            lift_member(root, &mut b, "projectExperience", "project_experience");
            put_member(root, "basicInfo", new_object_of(b));
        },
        _ => {},
    }
}

// ---------------------------------------------------------------- basicInfo shape

/// A string member's text; empty when it is missing or not a string.
pub open spec fn str_or_empty(o: Option<JsonV>) -> Seq<char> {
    match o {
        Some(JsonV::Str(s)) => s,
        _ => Seq::empty(),
    }
}

/// A certificate entry as text: a non-blank string kept as it is; an object
/// by its trimmed `name` and `period`, as `name（period）` when both are
/// there; nothing for anything else.
pub open spec fn cert_entry(v: JsonV) -> Option<JsonV> {
    match v {
        JsonV::Str(s) => if trim(s).len() == 0 {
            None
        } else {
            Some(JsonV::Str(s))
        },
        JsonV::Object(o, _) => {
            let n = trim(str_or_empty(member(o, "name"@)));
            let p = trim(str_or_empty(member(o, "period"@)));
            if n.len() == 0 && p.len() == 0 {
                None
            } else if p.len() == 0 {
                Some(JsonV::Str(n))
            } else if n.len() == 0 {
                Some(JsonV::Str(p))
            } else {
                Some(JsonV::Str(n + "（"@ + p + "）"@))
            }
        },
        _ => None,
    }
}

pub open spec fn cert_list(items: Seq<JsonV>) -> Seq<JsonV>
    decreases items.len(),
{
    if items.len() == 0 {
        Seq::empty()
    } else {
        let r = cert_list(items.drop_last());
        match cert_entry(items.last()) {
            Some(x) => r.push(x),
            None => r,
        }
    }
}

/// The certificates as a list of texts; none unless they were an array.
pub open spec fn cert_items(o: Option<JsonV>) -> Seq<JsonV> {
    match o {
        Some(JsonV::Array(items, _)) => cert_list(items),
        _ => Seq::empty(),
    }
}

pub open spec fn views(v: Seq<Json>) -> Seq<JsonV> {
    v.map_values(|x: Json| x@)
}

fn str_member_chars(o: &Vec<(String, Json)>, k: &str) -> (r: Vec<char>)
    ensures
        r@ == str_or_empty(member(keyed_view(o@), k@)),
{
    match find_member(o, k) {
        Some(j) => match &o[j].1 {
            Json::Str(s) => str_chars(s.as_str()),
            _ => Vec::new(),
        },
        None => Vec::new(),
    }
}

fn cert_entry_exec(v: &Json) -> (r: Option<Json>)
    ensures
        opt_json_view(r) == cert_entry(v@),
{
    match v {
        Json::Str(s) => {
            if trim_chars(&str_chars(s.as_str())).len() == 0 {
                None
            } else {
                Some(Json::Str(clone_string(s)))
            }
        },
        Json::Object(o, t) => {
            proof {
                lemma_object_view(*o, *t);
            }
            let n = trim_chars(&str_member_chars(o, "name"));
            let p = trim_chars(&str_member_chars(o, "period"));
            if n.len() == 0 && p.len() == 0 {
                None
            } else if p.len() == 0 {
                Some(Json::Str(chars_to_string(&n)))
            } else if n.len() == 0 {
                Some(Json::Str(chars_to_string(&p)))
            } else {
                let mut c = n;
                append_chars(&mut c, &str_chars("（"));
                append_chars(&mut c, &p);
                append_chars(&mut c, &str_chars("）"));
                Some(Json::Str(chars_to_string(&c)))
            }
        },
        _ => None,
    }
}

fn cert_items_exec(o: Option<Json>) -> (r: Vec<Json>)
    ensures
        views(r@) == cert_items(opt_json_view(o)),
{
    let mut out: Vec<Json> = Vec::new();
    match o {
        Some(Json::Array(items, t)) => {
            proof {
                lemma_array_view(items, t);
            }
            let ghost iv = views(items@);
            let mut i: usize = 0;
            assert(iv.take(0) =~= Seq::<JsonV>::empty());
            assert(views(out@) =~= Seq::<JsonV>::empty());
            while i < items.len()
                invariant
                    i <= items.len(),
                    iv == views(items@),
                    views(out@) == cert_list(iv.take(i as int)),
                decreases items.len() - i,
            {
                assert(iv.take(i + 1).drop_last() =~= iv.take(i as int));
                assert(iv.take(i + 1).last() == items@[i as int]@);
                let ghost before = out@;
                match cert_entry_exec(&items[i]) {
                    Some(x) => {
                        out.push(x);
                        assert(views(out@) =~= views(before).push(x@));
                    },
                    None => {},
                }
                i += 1;
            }
            assert(iv.take(i as int) =~= iv);
        },
        _ => {
            assert(views(out@) =~= Seq::<JsonV>::empty());
        },
    }
    out
}

pub open spec fn edu_keys() -> Seq<Seq<char>> {
    seq!["school"@, "major"@, "degree"@, "period"@]
}

fn edu_keys_exec() -> (r: Vec<&'static str>)
    ensures
        keys_view(r@) == edu_keys(),
{
    let mut v: Vec<&'static str> = Vec::new();
    v.push("school");
    v.push("major");
    v.push("degree");
    v.push("period");
    assert(keys_view(v@) =~= edu_keys());
    v
}

/// The education entries before they are shaped: an array's items, a lone
/// object as one entry, nothing otherwise.
pub open spec fn edu_base(o: Option<JsonV>) -> Seq<JsonV> {
    match o {
        Some(JsonV::Array(a, _)) => a,
        Some(JsonV::Object(m, t)) => seq![JsonV::Object(m, t)],
        _ => Seq::empty(),
    }
}

/// An education entry made an object whose school, major, degree and period
/// are strings.
pub open spec fn edu_entry(v: JsonV) -> JsonV {
    JsonV::Object(stringified(members_of(v), edu_keys()), Seq::empty())
}

/// The education list: at least one entry, each shaped.
pub open spec fn education_items(o: Option<JsonV>) -> Seq<JsonV> {
    let b = edu_base(o);
    let b2 = if b.len() == 0 {
        seq![empty_object()]
    } else {
        b
    };
    b2.map_values(|x: JsonV| edu_entry(x))
}

fn edu_entry_exec(x: Json) -> (r: Json)
    ensures
        r@ == edu_entry(x@),
{
    let ghost xv = x@;
    let mut m: Vec<(String, Json)> = match x {
        Json::Object(m, t) => {
            proof {
                lemma_object_view(m, t);
            }
            m
        },
        _ => Vec::new(),
    };
    assert(keyed_view(m@) == members_of(xv)) by {
        if !(xv is Object) {
            assert(keyed_view(m@) =~= Seq::<(Seq<char>, JsonV)>::empty());
        }
    }
    ensure_string_keys(&mut m, &edu_keys_exec());
    new_object_of(m)
}

fn education_items_exec(o: Option<Json>) -> (r: Vec<Json>)
    ensures
        views(r@) == education_items(opt_json_view(o)),
{
    let ghost ov = opt_json_view(o);
    let mut base: Vec<Json> = match o {
        Some(Json::Array(a, t)) => {
            proof {
                lemma_array_view(a, t);
            }
            a
        },
        Some(Json::Object(m, t)) => {
            let mut v: Vec<Json> = Vec::new();
            v.push(Json::Object(m, t));
            v
        },
        _ => Vec::new(),
    };
    assert(views(base@) =~= edu_base(ov));
    if base.len() == 0 {
        base.push(new_object());
        assert(views(base@) =~= seq![empty_object()]);
    }
    let ghost bv = views(base@);
    let mut out: Vec<Json> = Vec::new();
    let mut i: usize = 0;
    while i < base.len()
        invariant
            i <= base.len(),
            bv == views(base@),
            out@.len() == i,
            forall|k: int| 0 <= k < i ==> (#[trigger] out@[k])@ == edu_entry(bv[k]),
        decreases base.len() - i,
    {
        let y = edu_entry_exec(json_clone(&base[i]));
        out.push(y);
        i += 1;
    }
    assert(views(out@) =~= bv.map_values(|x: JsonV| edu_entry(x)));
    out
}

/// `basicInfo` given its fixed shape: text fields as strings, `skills` an
/// array, certificates as texts, education as shaped entries.
pub open spec fn sanitized_basic(root: Seq<(Seq<char>, JsonV)>) -> Seq<(Seq<char>, JsonV)> {
    let b0 = object_members(member(root, "basicInfo"@));
    let b1 = stringified(b0, basic_scalar_keys());
    let b2 = match member(b1, "skills"@) {
        Some(JsonV::Array(_, _)) => b1,
        _ => insert_by_key(b1, "skills"@, JsonV::Array(Seq::empty(), Seq::empty())),
    };
    let b3 = insert_by_key(
        without(b2, "certificates"@),
        "certificates"@,
        JsonV::Array(cert_items(member(b2, "certificates"@)), Seq::empty()),
    );
    let b4 = insert_by_key(
        b3,
        "education"@,
        JsonV::Array(education_items(member(b3, "education"@)), Seq::empty()),
    );
    insert_by_key(root, "basicInfo"@, JsonV::Object(b4, Seq::empty()))
}

fn new_array_of(items: Vec<Json>) -> (r: Json)
    ensures
        r@ == JsonV::Array(views(items@), Seq::empty()),
{
    new_array(items)
}

fn sanitize_basic_info(root: &mut Vec<(String, Json)>)
    ensures
        keyed_view(final(root)@) == sanitized_basic(keyed_view(old(root)@)),
{
    let mut basic = object_members_exec(member_json(root, "basicInfo"));
    ensure_string_keys(&mut basic, &scalar_keys());
    let is_array = match find_member(&basic, "skills") {
        Some(j) => matches!(basic[j].1, Json::Array(..)),
        None => false,
    };
    if !is_array {
        let empty: Vec<Json> = Vec::new();
        assert(views(empty@) =~= Seq::<JsonV>::empty());
        put_member(&mut basic, "skills", new_array_of(empty));
    }
    let certs = take_member(&mut basic, "certificates");
    let cert_vec = cert_items_exec(certs);
    put_member(&mut basic, "certificates", new_array_of(cert_vec));
    let edu = member_json(&basic, "education");
    let edu_vec = education_items_exec(edu);
    put_member(&mut basic, "education", new_array_of(edu_vec));
    put_member(root, "basicInfo", new_object_of(basic));
}

// ---------------------------------------------------------------- the whole repair

/// The members of a `resumeData` object that wraps the resume, else the
/// members themselves.
pub open spec fn unwrapped(m: Seq<(Seq<char>, JsonV)>) -> Seq<(Seq<char>, JsonV)> {
    match member(m, "resumeData"@) {
        Some(JsonV::Object(w, _)) => w,
        _ => m,
    }
}

/// The section names in snake case renamed to camel case.
pub open spec fn top_aliased(m: Seq<(Seq<char>, JsonV)>) -> Seq<(Seq<char>, JsonV)> {
    aliased(
        aliased(aliased(m, "basic_info"@, "basicInfo"@), "work_experience"@, "workExperience"@),
        "project_experience"@,
        "projectExperience"@,
    )
}

pub open spec fn work_keys() -> Seq<Seq<char>> {
    seq!["company"@, "position"@, "period"@, "description"@]
}

pub open spec fn project_keys() -> Seq<Seq<char>> {
    seq!["projectName"@, "projectDescription"@, "projectAchievements"@]
}

/// Section `key` turned into numbered entries, each with the listed fields.
pub open spec fn with_items(root: Seq<(Seq<char>, JsonV)>, key: Seq<char>, keys: Seq<Seq<char>>) -> Seq<
    (Seq<char>, JsonV),
> {
    match member(root, key) {
        Some(v) => insert_by_key(root, key, sanitized_items(indexed_value(v), keys)),
        None => root,
    }
}

/// The three sections made objects.
pub open spec fn sections_present(m: Seq<(Seq<char>, JsonV)>) -> Seq<(Seq<char>, JsonV)> {
    with_object(with_object(with_object(m, "basicInfo"@), "workExperience"@), "projectExperience"@)
}

/// The members of a repaired resume object.
pub open spec fn repaired_members(m: Seq<(Seq<char>, JsonV)>) -> Seq<(Seq<char>, JsonV)> {
    let r1 = top_aliased(unwrapped(m));
    let r2 = merged_top_level(moved_from_basic(r1));
    let r3 = sections_present(r2);
    let r4 = with_items(r3, "workExperience"@, work_keys());
    let r5 = with_items(r4, "projectExperience"@, project_keys());
    sanitized_basic(r5)
}

/// A repaired resume value: an object repaired; anything else as it is.
pub open spec fn repaired(v: JsonV) -> JsonV {
    match v {
        JsonV::Object(m, _) => JsonV::Object(repaired_members(m), Seq::empty()),
        _ => v,
    }
}

fn work_keys_exec() -> (r: Vec<&'static str>)
    ensures
        keys_view(r@) == work_keys(),
{
    let mut v: Vec<&'static str> = Vec::new();
    v.push("company");
    v.push("position");
    v.push("period");
    v.push("description");
    assert(keys_view(v@) =~= work_keys());
    v
}

fn project_keys_exec() -> (r: Vec<&'static str>)
    ensures
        keys_view(r@) == project_keys(),
{
    let mut v: Vec<&'static str> = Vec::new();
    v.push("projectName");
    v.push("projectDescription");
    v.push("projectAchievements");
    assert(keys_view(v@) =~= project_keys());
    v
}

fn shape_items(root: &mut Vec<(String, Json)>, key: &str, keys: &Vec<&str>)
    ensures
        keyed_view(final(root)@) == with_items(keyed_view(old(root)@), key@, keys_view(keys@)),
{
    match member_json(root, key) {
        Some(v) => {
            let w = sanitize_indexed_items(to_indexed_object(v), keys);
            put_member(root, key, w);
        },
        None => {},
    }
}

/// Repairs the JSON a model returned for a resume: unwraps a `resumeData`
/// wrapper, renames snake-case sections and contact aliases, moves
/// experience lists out of `basicInfo` and basic fields into it, turns the
/// experience sections into numbered entries with their required fields, and
/// gives `basicInfo` its fixed shape. A value that is not an object is
/// returned as it is.
pub fn repair_resume_value(v: Json) -> (r: Json)
    ensures
        r@ == repaired(v@),
{
    match v {
        Json::Object(m, t) => {
            proof {
                lemma_object_view(m, t);
            }
            let mut root = m;
            match member_json(&root, "resumeData") {
                Some(Json::Object(w, wt)) => {
                    proof {
                        lemma_object_view(w, wt);
                    }
                    root = w;
                },
                _ => {},
            }
            alias_field(&mut root, "basic_info", "basicInfo");
            alias_field(&mut root, "work_experience", "workExperience");
            alias_field(&mut root, "project_experience", "projectExperience");
            move_from_basic(&mut root);
            merge_top_level_basic_fields(&mut root);
            ensure_object_field(&mut root, "basicInfo");
            ensure_object_field(&mut root, "workExperience");
            ensure_object_field(&mut root, "projectExperience");
            shape_items(&mut root, "workExperience", &work_keys_exec());
            shape_items(&mut root, "projectExperience", &project_keys_exec());
            sanitize_basic_info(&mut root);
            new_object_of(root)
        },
        other => other,
    }
}

// ---------------------------------------------------------------- the repaired shape

proof fn lemma_member_insert(m: Seq<(Seq<char>, JsonV)>, k: Seq<char>, x: JsonV, k2: Seq<char>)
    ensures
        member(insert_by_key(m, k, x), k2) == (if k2 == k {
            Some(x)
        } else {
            member(m, k2)
        }),
{
    lemma_lookup_insert(m, k, x, k2);
}

proof fn lemma_member_without(m: Seq<(Seq<char>, JsonV)>, k: Seq<char>, k2: Seq<char>)
    requires
        k2 != k,
    ensures
        member(without(m, k), k2) == member(m, k2),
    decreases m.len(),
{
    if m.len() > 0 && m[0].0 != k {
        let r = without(m, k);
        assert(r.drop_first() =~= without(m.drop_first(), k));
        lemma_member_without(m.drop_first(), k, k2);
    }
}

/// Member `k` is a string.
pub open spec fn has_string(m: Seq<(Seq<char>, JsonV)>, k: Seq<char>) -> bool {
    member(m, k) matches Some(JsonV::Str(_))
}

proof fn lemma_with_string(m: Seq<(Seq<char>, JsonV)>, k: Seq<char>, k2: Seq<char>)
    ensures
        k2 == k ==> has_string(with_string(m, k), k2),
        k2 != k ==> member(with_string(m, k), k2) == member(m, k2),
{
    match member(m, k) {
        Some(JsonV::Str(_)) => {},
        Some(v) => lemma_member_insert(m, k, JsonV::Str(text_of(v)), k2),
        None => lemma_member_insert(m, k, JsonV::Str(Seq::empty()), k2),
    }
}

proof fn lemma_stringified(m: Seq<(Seq<char>, JsonV)>, keys: Seq<Seq<char>>, k2: Seq<char>)
    ensures
        keys.contains(k2) ==> has_string(stringified(m, keys), k2),
        !keys.contains(k2) ==> member(stringified(m, keys), k2) == member(m, k2),
    decreases keys.len(),
{
    if keys.len() > 0 {
        let init = keys.drop_last();
        lemma_stringified(m, init, k2);
        lemma_with_string(stringified(m, init), keys.last(), k2);
        if keys.contains(k2) && k2 != keys.last() {
            let j = choose|j: int| 0 <= j < keys.len() && keys[j] == k2;
            assert(init[j] == k2);
        }
        if init.contains(k2) {
            let j = choose|j: int| 0 <= j < init.len() && init[j] == k2;
            assert(keys[j] == k2);
        }
    }
}

proof fn lemma_filled_keys(o: Seq<(Seq<char>, JsonV)>, keys: Seq<Seq<char>>, k2: Seq<char>)
    ensures
        keys.contains(k2) ==> member(filled_keys(o, keys), k2) is Some,
        !keys.contains(k2) ==> member(filled_keys(o, keys), k2) == member(o, k2),
    decreases keys.len(),
{
    if keys.len() > 0 {
        let init = keys.drop_last();
        let r = filled_keys(o, init);
        lemma_filled_keys(o, init, k2);
        if member(r, keys.last()) is None {
            lemma_member_insert(r, keys.last(), JsonV::Str(Seq::empty()), k2);
        }
        if keys.contains(k2) && k2 != keys.last() {
            let j = choose|j: int| 0 <= j < keys.len() && keys[j] == k2;
            assert(init[j] == k2);
        }
        if init.contains(k2) {
            let j = choose|j: int| 0 <= j < init.len() && init[j] == k2;
            assert(keys[j] == k2);
        }
    }
}

/// An entry is an object holding each listed field.
pub open spec fn entry_has(e: JsonV, keys: Seq<Seq<char>>) -> bool {
    match e {
        JsonV::Object(f, _) => forall|j: int| 0 <= j < keys.len() ==> member(f, #[trigger] keys[j]) is Some,
        _ => false,
    }
}

/// Every entry of a section is an object holding each listed field.
pub open spec fn entries_have(o: Option<JsonV>, keys: Seq<Seq<char>>) -> bool {
    match o {
        Some(JsonV::Object(es, _)) => forall|i: int| 0 <= i < es.len() ==> entry_has((#[trigger] es[i]).1, keys),
        _ => false,
    }
}

/// An education entry is an object whose school, major, degree and period
/// are strings.
pub open spec fn edu_shaped(e: JsonV) -> bool {
    match e {
        JsonV::Object(f, _) => has_string(f, "school"@) && has_string(f, "major"@) && has_string(f, "degree"@)
            && has_string(f, "period"@),
        _ => false,
    }
}

/// `basicInfo` in its fixed shape: name, age, contact and gender strings,
/// `skills` an array, `certificates` an array of strings, and `education` a
/// non-empty array of objects whose school, major, degree and period are
/// strings.
pub open spec fn basic_shaped(o: Option<JsonV>) -> bool {
    match o {
        Some(JsonV::Object(b, _)) => {
            &&& has_string(b, "name"@)
            &&& has_string(b, "age"@)
            &&& has_string(b, "contact"@)
            &&& has_string(b, "gender"@)
            &&& member(b, "skills"@) matches Some(JsonV::Array(_, _))
            &&& member(b, "certificates"@) matches Some(JsonV::Array(c, _)) && forall|i: int|
                0 <= i < c.len() ==> (#[trigger] c[i]) is Str
            &&& member(b, "education"@) matches Some(JsonV::Array(e, _)) && e.len() >= 1 && forall|i: int|
                0 <= i < e.len() ==> edu_shaped(#[trigger] e[i])
        },
        _ => false,
    }
}

proof fn lemma_with_object(m: Seq<(Seq<char>, JsonV)>, k: Seq<char>, k2: Seq<char>)
    ensures
        k2 == k ==> member(with_object(m, k), k2) is Some,
        k2 != k ==> member(with_object(m, k), k2) == member(m, k2),
{
    match member(m, k) {
        Some(JsonV::Object(_, _)) => {},
        _ => lemma_member_insert(m, k, empty_object(), k2),
    }
}

proof fn lemma_sanitized_entries(v: JsonV, keys: Seq<Seq<char>>)
    ensures
        entries_have(Some(sanitized_items(indexed_value(v), keys)), keys),
{
    let iv = indexed_value(v);
    let m = members_of(iv);
    assert(iv == JsonV::Object(m, text_of(iv)));
    let es = m.map_values(|p: (Seq<char>, JsonV)| (p.0, sanitized_item(p.1, keys)));
    assert forall|i: int| 0 <= i < es.len() implies entry_has((#[trigger] es[i]).1, keys) by {
        assert(es[i].1 == sanitized_item(m[i].1, keys));
        assert forall|j: int| 0 <= j < keys.len() implies member(
            filled_keys(item_members(m[i].1), keys),
            #[trigger] keys[j],
        ) is Some by {
            lemma_filled_keys(item_members(m[i].1), keys, keys[j]);
        }
    }
}

proof fn lemma_cert_list(items: Seq<JsonV>)
    ensures
        forall|i: int| 0 <= i < cert_list(items).len() ==> (#[trigger] cert_list(items)[i]) is Str,
    decreases items.len(),
{
    if items.len() > 0 {
        lemma_cert_list(items.drop_last());
    }
}

proof fn lemma_education_items(o: Option<JsonV>)
    ensures
        education_items(o).len() >= 1,
        forall|i: int| 0 <= i < education_items(o).len() ==> edu_shaped(#[trigger] education_items(o)[i]),
{
    let ks = edu_keys();
    assert(ks[0] == "school"@ && ks[1] == "major"@ && ks[2] == "degree"@ && ks[3] == "period"@);
    let e = education_items(o);
    assert forall|i: int| 0 <= i < e.len() implies edu_shaped(#[trigger] e[i]) by {
        let b = edu_base(o);
        let b2 = if b.len() == 0 {
            seq![empty_object()]
        } else {
            b
        };
        let f = members_of(b2[i]);
        assert(e[i] == edu_entry(b2[i]));
        lemma_stringified(f, ks, "school"@);
        lemma_stringified(f, ks, "major"@);
        lemma_stringified(f, ks, "degree"@);
        lemma_stringified(f, ks, "period"@);
    }
}

proof fn lemma_distinct_names()
    ensures
        "name"@ != "age"@,
        "name"@ != "contact"@,
        "name"@ != "gender"@,
        "age"@ != "contact"@,
        "age"@ != "gender"@,
        "contact"@ != "gender"@,
        "skills"@ != "name"@,
        "skills"@ != "age"@,
        "skills"@ != "contact"@,
        "skills"@ != "gender"@,
        "certificates"@ != "name"@,
        "certificates"@ != "age"@,
        "certificates"@ != "contact"@,
        "certificates"@ != "gender"@,
        "certificates"@ != "skills"@,
        "education"@ != "name"@,
        "education"@ != "age"@,
        "education"@ != "contact"@,
        "education"@ != "gender"@,
        "education"@ != "skills"@,
        "education"@ != "certificates"@,
        "basicInfo"@ != "workExperience"@,
        "basicInfo"@ != "projectExperience"@,
        "workExperience"@ != "projectExperience"@,
{
    reveal_strlit("name");
    reveal_strlit("age");
    reveal_strlit("contact");
    reveal_strlit("gender");
    reveal_strlit("skills");
    reveal_strlit("certificates");
    reveal_strlit("education");
    reveal_strlit("basicInfo");
    reveal_strlit("workExperience");
    reveal_strlit("projectExperience");
    assert("name"@.len() == 4);
    assert("age"@.len() == 3);
    assert("contact"@.len() == 7);
    assert("gender"@.len() == 6);
    assert("skills"@.len() == 6);
    assert("certificates"@.len() == 12);
    assert("education"@.len() == 9);
    assert("basicInfo"@.len() == 9);
    assert("workExperience"@.len() == 14);
    assert("projectExperience"@.len() == 17);
    assert("gender"@[0] != "skills"@[0]);
}

proof fn lemma_sanitized_basic(r: Seq<(Seq<char>, JsonV)>, k: Seq<char>)
    ensures
        basic_shaped(member(sanitized_basic(r), "basicInfo"@)),
        k != "basicInfo"@ ==> member(sanitized_basic(r), k) == member(r, k),
{
    lemma_distinct_names();
    let sk = basic_scalar_keys();
    assert(sk[0] == "name"@ && sk[1] == "age"@ && sk[2] == "contact"@ && sk[3] == "gender"@);
    let b0 = object_members(member(r, "basicInfo"@));
    let b1 = stringified(b0, sk);
    lemma_stringified(b0, sk, "name"@);
    lemma_stringified(b0, sk, "age"@);
    lemma_stringified(b0, sk, "contact"@);
    lemma_stringified(b0, sk, "gender"@);
    let b2 = match member(b1, "skills"@) {
        Some(JsonV::Array(_, _)) => b1,
        _ => insert_by_key(b1, "skills"@, JsonV::Array(Seq::empty(), Seq::empty())),
    };
    match member(b1, "skills"@) {
        Some(JsonV::Array(_, _)) => {},
        _ => {
            let a = JsonV::Array(Seq::empty(), Seq::empty());
            lemma_member_insert(b1, "skills"@, a, "name"@);
            lemma_member_insert(b1, "skills"@, a, "age"@);
            lemma_member_insert(b1, "skills"@, a, "contact"@);
            lemma_member_insert(b1, "skills"@, a, "gender"@);
            lemma_member_insert(b1, "skills"@, a, "skills"@);
        },
    }
    let c = "certificates"@;
    let cv = JsonV::Array(cert_items(member(b2, c)), Seq::empty());
    let b3 = insert_by_key(without(b2, c), c, cv);
    lemma_member_without(b2, c, "name"@);
    lemma_member_without(b2, c, "age"@);
    lemma_member_without(b2, c, "contact"@);
    lemma_member_without(b2, c, "gender"@);
    lemma_member_without(b2, c, "skills"@);
    lemma_member_insert(without(b2, c), c, cv, "name"@);
    lemma_member_insert(without(b2, c), c, cv, "age"@);
    lemma_member_insert(without(b2, c), c, cv, "contact"@);
    lemma_member_insert(without(b2, c), c, cv, "gender"@);
    lemma_member_insert(without(b2, c), c, cv, "skills"@);
    lemma_member_insert(without(b2, c), c, cv, c);
    match member(b2, c) {
        Some(JsonV::Array(items, _)) => lemma_cert_list(items),
        _ => {},
    }
    let ed = "education"@;
    let ev = JsonV::Array(education_items(member(b3, ed)), Seq::empty());
    let b4 = insert_by_key(b3, ed, ev);
    lemma_member_insert(b3, ed, ev, "name"@);
    lemma_member_insert(b3, ed, ev, "age"@);
    lemma_member_insert(b3, ed, ev, "contact"@);
    lemma_member_insert(b3, ed, ev, "gender"@);
    lemma_member_insert(b3, ed, ev, "skills"@);
    lemma_member_insert(b3, ed, ev, c);
    lemma_member_insert(b3, ed, ev, ed);
    lemma_education_items(member(b3, ed));
    lemma_member_insert(r, "basicInfo"@, JsonV::Object(b4, Seq::empty()), "basicInfo"@);
    lemma_member_insert(r, "basicInfo"@, JsonV::Object(b4, Seq::empty()), k);
}

/// Whatever JSON object a model returns, the repaired resume has the shape a
/// resume is read from: `basicInfo` with its text fields as strings, skills
/// and certificates as arrays (certificates of strings) and at least one
/// education entry with its fields as strings; and work and project sections
/// whose every entry is an object holding each of the section's fields.
pub proof fn law_repaired_resume_shape(m: Seq<(Seq<char>, JsonV)>)
    ensures
        basic_shaped(member(repaired_members(m), "basicInfo"@)),
        entries_have(member(repaired_members(m), "workExperience"@), work_keys()),
        entries_have(member(repaired_members(m), "projectExperience"@), project_keys()),
{
    lemma_distinct_names();
    let w = "workExperience"@;
    let p = "projectExperience"@;
    let bi = "basicInfo"@;
    let r2 = merged_top_level(moved_from_basic(top_aliased(unwrapped(m))));
    let q1 = with_object(r2, bi);
    let q2 = with_object(q1, w);
    let r3 = with_object(q2, p);
    lemma_with_object(q1, w, w);
    lemma_with_object(q2, p, w);
    lemma_with_object(q2, p, p);
    let v4 = sanitized_items(indexed_value(member(r3, w).unwrap()), work_keys());
    let r4 = insert_by_key(r3, w, v4);
    lemma_member_insert(r3, w, v4, w);
    lemma_member_insert(r3, w, v4, p);
    lemma_sanitized_entries(member(r3, w).unwrap(), work_keys());
    let v5 = sanitized_items(indexed_value(member(r4, p).unwrap()), project_keys());
    let r5 = insert_by_key(r4, p, v5);
    lemma_member_insert(r4, p, v5, w);
    lemma_member_insert(r4, p, v5, p);
    lemma_sanitized_entries(member(r4, p).unwrap(), project_keys());
    assert(r5 == with_items(with_items(r3, w, work_keys()), p, project_keys()));
    lemma_sanitized_basic(r5, w);
    lemma_sanitized_basic(r5, p);
}

} // verus!
