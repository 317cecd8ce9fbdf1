//! The resume library: who a resume belongs to, when two resumes are the same
//! person, and how two versions of one resume are merged.

use crate::jd::{degree_rank, degree_rank_of};
use crate::numbers::{all_digits, digits_value};
use crate::reindex::{keyed_view, keys_ascending, renumber, renumbered};
use crate::schema::{
    clone_education_item, clone_project_item, clone_work_item, strings_view, BasicInfo,
    BasicInfoV, EducationItem, EducationItemV, ParsedResultRecord, ProjectItem, ProjectItemV,
    ResumeData, ResumeDataV, WorkItem, WorkItemV,
};
use crate::strset::{
    lemma_lex_asymmetric, lemma_lex_irreflexive, lemma_lex_total, lemma_lex_transitive, lex_less,
    lex_lt, sorted_strict,
};
use crate::text::{
    append_chars, ascii_digit, ascii_lower, chars_eq, chars_to_string, is_ascii_digit, lower,
    slice_chars, str_chars, trim, trim_chars, join_chars, join_with, contains_chars, contains_seq,
    ends_with, ends_with_chars, starts_with, starts_with_chars, utf8_len, utf8_len_of, vecs_view, char_utf8_width,
    lemma_map_push, lemma_utf8_len_push,
};
use vstd::prelude::*;

verus! {

// ---------------------------------------------------------------- identity

/// The ASCII digits of a contact, keeping the last eleven.
pub open spec fn contact_digits(s: Seq<char>) -> Seq<char>
    decreases s.len(),
{
    if s.len() == 0 {
        s
    } else if is_ascii_digit(s.last()) {
        contact_digits(s.drop_last()).push(s.last())
    } else {
        contact_digits(s.drop_last())
    }
}

pub open spec fn normalized_contact(s: Seq<char>) -> Seq<char> {
    let d = contact_digits(s);
    if d.len() >= 11 {
        d.skip(d.len() - 11)
    } else {
        d
    }
}

pub fn normalize_contact(contact: &str) -> (r: Vec<char>)
    ensures
        r@ == normalized_contact(contact@),
{
    let s = str_chars(contact);
    let mut d: Vec<char> = Vec::new();
    let mut i: usize = 0;
    assert(s@.take(0) =~= Seq::<char>::empty());
    while i < s.len()
        invariant
            i <= s.len(),
            s@ == contact@,
            d@ == contact_digits(s@.take(i as int)),
        decreases s.len() - i,
    {
        assert(s@.take(i + 1).drop_last() =~= s@.take(i as int));
        if ascii_digit(s[i]) {
            d.push(s[i]);
        }
        i += 1;
    }
    assert(s@.take(s.len() as int) =~= s@);
    if d.len() >= 11 {
        let n = d.len();
        let r = slice_chars(&d, n - 11, n);
        assert(r@ =~= d@.skip(d@.len() - 11));
        r
    } else {
        d
    }
}

/// `name|age|contact` (name and age trimmed and lowercased, the contact as
/// digits) when all three are present.
pub open spec fn identity_key_of(name: Seq<char>, age: Seq<char>, contact: Seq<char>) -> Option<
    Seq<char>,
> {
    let n = lower(trim(name));
    let a = lower(trim(age));
    let c = normalized_contact(contact);
    if n.len() == 0 || a.len() == 0 || c.len() == 0 {
        None
    } else {
        Some(n + "|"@ + a + "|"@ + c)
    }
}

pub fn identity_key(name: &str, age: &str, contact: &str) -> (r: Option<String>)
    ensures
        match r {
            Some(k) => identity_key_of(name@, age@, contact@) == Some(k@),
            None => identity_key_of(name@, age@, contact@) is None,
        },
{
    let n = ascii_lower(&trim_chars(&str_chars(name)));
    let a = ascii_lower(&trim_chars(&str_chars(age)));
    let c = normalize_contact(contact);
    if n.len() == 0 || a.len() == 0 || c.len() == 0 {
        return None;
    }
    let bar = str_chars("|");
    let mut k = n.clone();
    append_chars(&mut k, &bar);
    append_chars(&mut k, &a);
    append_chars(&mut k, &bar);
    append_chars(&mut k, &c);
    Some(chars_to_string(&k))
}

/// `name|source file` (both trimmed and lowercased) unless both are empty.
pub open spec fn fallback_key_of(name: Seq<char>, source_file: Seq<char>) -> Option<Seq<char>> {
    let n = lower(trim(name));
    let f = lower(trim(source_file));
    if n.len() == 0 && f.len() == 0 {
        None
    } else {
        Some(n + "|"@ + f)
    }
}

pub fn fallback_identity_key(name: &str, source_file: &str) -> (r: Option<String>)
    ensures
        match r {
            Some(k) => fallback_key_of(name@, source_file@) == Some(k@),
            None => fallback_key_of(name@, source_file@) is None,
        },
{
    let n = ascii_lower(&trim_chars(&str_chars(name)));
    let f = ascii_lower(&trim_chars(&str_chars(source_file)));
    if n.len() == 0 && f.len() == 0 {
        return None;
    }
    let mut k = n.clone();
    append_chars(&mut k, &str_chars("|"));
    append_chars(&mut k, &f);
    Some(chars_to_string(&k))
}

/// Two education entries that count as one school: same school, and same
/// major or both majors empty (compared trimmed, ignoring ASCII case).
pub open spec fn same_school(ea: EducationItemV, eb: EducationItemV) -> bool {
    let sa = lower(trim(ea.school));
    let sb = lower(trim(eb.school));
    let ma = lower(trim(ea.major));
    let mb = lower(trim(eb.major));
    sa.len() > 0 && sb.len() > 0 && sa == sb && ((ma.len() == 0 && mb.len() == 0) || ma == mb)
}

/// Two resumes of one person: the same non-empty name and an education entry
/// of the same school.
pub open spec fn same_person_by_education(a: ResumeDataV, b: ResumeDataV) -> bool {
    let na = lower(trim(a.basic_info.name));
    let nb = lower(trim(b.basic_info.name));
    &&& na.len() > 0
    &&& nb.len() > 0
    &&& na == nb
    &&& exists|i: int, j: int|
        0 <= i < a.basic_info.education.len() && 0 <= j < b.basic_info.education.len()
            && same_school(#[trigger] a.basic_info.education[i], #[trigger] b.basic_info.education[j])
}

fn key_text(s: &String) -> (r: Vec<char>)
    ensures
        r@ == lower(trim(s@)),
{
    ascii_lower(&trim_chars(&str_chars(s.as_str())))
}

fn same_school_exec(ea: &EducationItem, eb: &EducationItem) -> (r: bool)
    ensures
        r == same_school(ea@, eb@),
{
    let sa = key_text(&ea.school);
    let sb = key_text(&eb.school);
    if sa.len() == 0 || sb.len() == 0 || !chars_eq(&sa, &sb) {
        return false;
    }
    let ma = key_text(&ea.major);
    let mb = key_text(&eb.major);
    (ma.len() == 0 && mb.len() == 0) || chars_eq(&ma, &mb)
}

pub fn name_education_overlap(a: &ResumeData, b: &ResumeData) -> (r: bool)
    ensures
        r == same_person_by_education(a@, b@),
{
    let na = key_text(&a.basic_info.name);
    let nb = key_text(&b.basic_info.name);
    if na.len() == 0 || nb.len() == 0 || !chars_eq(&na, &nb) {
        return false;
    }
    let ea = &a.basic_info.education;
    let eb = &b.basic_info.education;
    let ghost av = a@.basic_info.education;
    let ghost bv = b@.basic_info.education;
    let ghost names_ok = na@.len() > 0 && nb@.len() > 0 && na@ == nb@ && na@ == lower(trim(a@.basic_info.name)) && nb@ == lower(trim(b@.basic_info.name));
    let mut i: usize = 0;
    while i < ea.len()
        invariant
            names_ok,
            names_ok == (na@.len() > 0 && nb@.len() > 0 && na@ == nb@ && na@ == lower(trim(a@.basic_info.name)) && nb@ == lower(trim(b@.basic_info.name))),
            av == a@.basic_info.education,
            bv == b@.basic_info.education,
            i <= ea.len(),
            av == ea@.map_values(|e: EducationItem| e@),
            bv == eb@.map_values(|e: EducationItem| e@),
            forall|x: int, y: int|
                0 <= x < i && 0 <= y < bv.len() ==> !same_school(#[trigger] av[x], #[trigger] bv[y]),
        decreases ea.len() - i,
    {
        let mut j: usize = 0;
        while j < eb.len()
            invariant
                names_ok,
                names_ok == (na@.len() > 0 && nb@.len() > 0 && na@ == nb@ && na@ == lower(trim(a@.basic_info.name)) && nb@ == lower(trim(b@.basic_info.name))),
                av == a@.basic_info.education,
                bv == b@.basic_info.education,
                i < ea.len(),
                j <= eb.len(),
                av == ea@.map_values(|e: EducationItem| e@),
                bv == eb@.map_values(|e: EducationItem| e@),
                forall|x: int, y: int|
                    0 <= x < i && 0 <= y < bv.len() ==> !same_school(#[trigger] av[x], #[trigger] bv[y]),
                forall|y: int| 0 <= y < j ==> !same_school(av[i as int], #[trigger] bv[y]),
            decreases eb.len() - j,
        {
            if same_school_exec(&ea[i], &eb[j]) {
                assert(same_school(av[i as int], bv[j as int]));
                return true;
            }
            j += 1;
        }
        i += 1;
    }
    false
}

// ---------------------------------------------------------------- merging two versions

/// The newer text, or the older one when the newer is blank.
pub open spec fn filled(newer: Seq<char>, older: Seq<char>) -> Seq<char> {
    if trim(newer).len() == 0 {
        older
    } else {
        newer
    }
}

fn filled_exec(newer: &String, older: &String) -> (r: String)
    ensures
        r@ == filled(newer@, older@),
{
    if trim_chars(&str_chars(newer.as_str())).len() == 0 {
        older.clone()
    } else {
        newer.clone()
    }
}

/// A field written so that fields put one after another can be told apart:
/// each `\0` written as `\0\u{2}`, and `\0\u{1}` at the end. Different
/// field tuples give different texts (`lemma_field_code_prefix`), and texts
/// of fields without `\0` compare as the tuples do, field by field.
pub open spec fn field_code(s: Seq<char>) -> Seq<char>
    decreases s.len(),
{
    if s.len() == 0 {
        seq!['\0', '\u{1}']
    } else {
        (if s[0] == '\0' {
            seq!['\0', '\u{2}']
        } else {
            seq![s[0]]
        }) + field_code(s.drop_first())
    }
}

proof fn lemma_field_code_len(s: Seq<char>)
    ensures
        field_code(s).len() >= 2,
        s.len() > 0 && s[0] == '\0' ==> field_code(s)[0] == '\0' && field_code(s)[1] == '\u{2}',
        s.len() > 0 && s[0] != '\0' ==> field_code(s)[0] == s[0],
        s.len() == 0 ==> field_code(s)[0] == '\0' && field_code(s)[1] == '\u{1}',
    decreases s.len(),
{
    if s.len() > 0 {
        lemma_field_code_len(s.drop_first());
    }
}

/// A coded field followed by anything determines the field and what follows.
pub proof fn lemma_field_code_prefix(a: Seq<char>, b: Seq<char>, x: Seq<char>, y: Seq<char>)
    requires
        field_code(a) + x == field_code(b) + y,
    ensures
        a == b,
        x == y,
    decreases a.len(),
{
    lemma_field_code_len(a);
    lemma_field_code_len(b);
    let l = field_code(a) + x;
    let r = field_code(b) + y;
    assert(l[0] == field_code(a)[0] && l[1] == field_code(a)[1]);
    assert(r[0] == field_code(b)[0] && r[1] == field_code(b)[1]);
    if a.len() == 0 && b.len() == 0 {
        assert(x =~= l.skip(2));
        assert(y =~= r.skip(2));
    } else if a.len() > 0 && b.len() > 0 {
        let n: int = if a[0] == '\0' {
            2
        } else {
            1
        };
        assert(a[0] == b[0]);
        assert(field_code(a) == (if a[0] == '\0' {
            seq!['\0', '\u{2}']
        } else {
            seq![a[0]]
        }) + field_code(a.drop_first()));
        assert(field_code(a.drop_first()) + x =~= l.skip(n));
        assert(field_code(b.drop_first()) + y =~= r.skip(n));
        lemma_field_code_prefix(a.drop_first(), b.drop_first(), x, y);
        assert(a =~= seq![a[0]] + a.drop_first());
        assert(b =~= seq![b[0]] + b.drop_first());
    }
}

/// The key an education entry is deduplicated by: its school, major, degree
/// and period, trimmed and lowercased, coded one after another; two entries
/// share a key exactly when the four fields agree (`lemma_edu_key_fields`).
pub open spec fn edu_key(e: EducationItemV) -> Seq<char> {
    field_code(lower(trim(e.school))) + field_code(lower(trim(e.major))) + field_code(
        lower(trim(e.degree)),
    ) + field_code(lower(trim(e.period)))
}

/// The fields an education entry is compared by.
pub open spec fn edu_fields(e: EducationItemV) -> Seq<Seq<char>> {
    seq![lower(trim(e.school)), lower(trim(e.major)), lower(trim(e.degree)), lower(trim(e.period))]
}

/// Two education entries share a key exactly when their compared fields agree.
pub proof fn lemma_edu_key_fields(a: EducationItemV, b: EducationItemV)
    ensures
        edu_key(a) == edu_key(b) <==> edu_fields(a) == edu_fields(b),
{
    let fa = edu_fields(a);
    let fb = edu_fields(b);
    if edu_key(a) == edu_key(b) {
        let e = Seq::<char>::empty();
        assert(edu_key(a) =~= field_code(fa[0]) + (field_code(fa[1]) + field_code(fa[2]) + field_code(fa[3])));
        assert(edu_key(b) =~= field_code(fb[0]) + (field_code(fb[1]) + field_code(fb[2]) + field_code(fb[3])));
        lemma_field_code_prefix(
            fa[0],
            fb[0],
            field_code(fa[1]) + field_code(fa[2]) + field_code(fa[3]),
            field_code(fb[1]) + field_code(fb[2]) + field_code(fb[3]),
        );
        assert(field_code(fa[1]) + (field_code(fa[2]) + field_code(fa[3])) =~= field_code(fa[1]) + field_code(fa[2]) + field_code(fa[3]));
        assert(field_code(fb[1]) + (field_code(fb[2]) + field_code(fb[3])) =~= field_code(fb[1]) + field_code(fb[2]) + field_code(fb[3]));
        lemma_field_code_prefix(fa[1], fb[1], field_code(fa[2]) + field_code(fa[3]), field_code(fb[2]) + field_code(fb[3]));
        lemma_field_code_prefix(fa[2], fb[2], field_code(fa[3]), field_code(fb[3]));
        assert(field_code(fa[3]) + e =~= field_code(fa[3]));
        assert(field_code(fb[3]) + e =~= field_code(fb[3]));
        lemma_field_code_prefix(fa[3], fb[3], e, e);
        assert(fa =~= fb);
    }
}

/// The entries whose compared fields no earlier entry has.
pub open spec fn dedup_education(es: Seq<EducationItemV>) -> Seq<EducationItemV>
    decreases es.len(),
{
    if es.len() == 0 {
        Seq::empty()
    } else {
        let r = dedup_education(es.drop_last());
        if es.drop_last().map_values(|e: EducationItemV| edu_fields(e)).contains(edu_fields(es.last())) {
            r
        } else {
            r.push(es.last())
        }
    }
}

/// The texts, trimmed, whose lowercase form is not empty and was not met before.
pub open spec fn union_ignoring_case(v: Seq<Seq<char>>) -> Seq<Seq<char>>
    decreases v.len(),
{
    if v.len() == 0 {
        Seq::empty()
    } else {
        let r = union_ignoring_case(v.drop_last());
        let l = lower(trim(v.last()));
        if l.len() == 0 || v.drop_last().map_values(|s: Seq<char>| lower(trim(s))).contains(l) {
            r
        } else {
            r.push(trim(v.last()))
        }
    }
}

/// The label work entries are listed by: company and position, trimmed and
/// lowercased, joined by `|`.
pub open spec fn work_label(w: WorkItemV) -> Seq<char> {
    lower(trim(w.company)) + seq!['|'] + lower(trim(w.position))
}

/// The key a work entry is deduplicated and ordered by: its label, then its
/// company and position, each coded; keys compare as the labels do, entries
/// whose labels agree compare field by field, and two entries share a key
/// exactly when both fields agree (`lemma_work_key_fields`).
pub open spec fn work_key(w: WorkItemV) -> Seq<char> {
    field_code(work_label(w)) + field_code(lower(trim(w.company))) + field_code(lower(trim(w.position)))
}

/// The fields a work entry is compared by.
pub open spec fn work_key_fields(w: WorkItemV) -> Seq<Seq<char>> {
    seq![lower(trim(w.company)), lower(trim(w.position))]
}

/// Two work entries share a key exactly when their compared fields agree.
pub proof fn lemma_work_key_fields(a: WorkItemV, b: WorkItemV)
    ensures
        work_key(a) == work_key(b) <==> work_key_fields(a) == work_key_fields(b),
{
    let fa = work_key_fields(a);
    let fb = work_key_fields(b);
    if work_key(a) == work_key(b) {
        let e = Seq::<char>::empty();
        assert(work_key(a) =~= field_code(work_label(a)) + (field_code(fa[0]) + field_code(fa[1])));
        assert(work_key(b) =~= field_code(work_label(b)) + (field_code(fb[0]) + field_code(fb[1])));
        lemma_field_code_prefix(
            work_label(a),
            work_label(b),
            field_code(fa[0]) + field_code(fa[1]),
            field_code(fb[0]) + field_code(fb[1]),
        );
        lemma_field_code_prefix(fa[0], fb[0], field_code(fa[1]), field_code(fb[1]));
        assert(field_code(fa[1]) + e =~= field_code(fa[1]));
        assert(field_code(fb[1]) + e =~= field_code(fb[1]));
        lemma_field_code_prefix(fa[1], fb[1], e, e);
        assert(fa =~= fb);
    }
}

/// The length of a work entry's description, in UTF-8 bytes.
pub open spec fn work_weight(w: WorkItemV) -> nat {
    utf8_len(trim(w.description))
}

/// The key a project entry is deduplicated by: its name, trimmed and lowercased.
pub open spec fn project_key(p: ProjectItemV) -> Seq<char> {
    lower(trim(p.project_name))
}

/// The length of a project entry's description and achievements, in UTF-8 bytes.
pub open spec fn project_weight(p: ProjectItemV) -> nat {
    utf8_len(trim(p.project_description)) + utf8_len(trim(p.project_achievements))
}

/// `x` entered under key `k` in pairs ordered by key: added in its place when
/// the key is new, else it replaces the entry held when `longer` says so.
pub open spec fn upsert<V>(v: Seq<(Seq<char>, V)>, k: Seq<char>, x: V, replaces: bool) -> Seq<
    (Seq<char>, V),
>
    decreases v.len(),
{
    if v.len() == 0 {
        seq![(k, x)]
    } else if v[0].0 == k {
        if replaces {
            seq![(k, x)] + v.drop_first()
        } else {
            v
        }
    } else if lex_lt(k, v[0].0) {
        seq![(k, x)] + v
    } else {
        seq![v[0]] + upsert(v.drop_first(), k, x, replaces)
    }
}

/// The entry held under `k`, if any.
pub open spec fn held<V>(v: Seq<(Seq<char>, V)>, k: Seq<char>) -> Option<V>
    decreases v.len(),
{
    if v.len() == 0 {
        None
    } else if v[0].0 == k {
        Some(v[0].1)
    } else {
        held(v.drop_first(), k)
    }
}

/// Work entries collected by key, in key order; of two entries with one key
/// the later replaces the earlier only when its description is longer.
pub open spec fn work_by_key(ws: Seq<WorkItemV>) -> Seq<(Seq<char>, WorkItemV)>
    decreases ws.len(),
{
    if ws.len() == 0 {
        Seq::empty()
    } else {
        let r = work_by_key(ws.drop_last());
        let w = ws.last();
        let replaces = match held(r, work_key(w)) {
            Some(e) => work_weight(w) > work_weight(e),
            None => true,
        };
        upsert(r, work_key(w), w, replaces)
    }
}

/// Project entries collected by key, in key order; of two entries with one
/// key the later replaces the earlier only when its texts are longer.
pub open spec fn projects_by_key(ps: Seq<ProjectItemV>) -> Seq<(Seq<char>, ProjectItemV)>
    decreases ps.len(),
{
    if ps.len() == 0 {
        Seq::empty()
    } else {
        let r = projects_by_key(ps.drop_last());
        let p = ps.last();
        let replaces = match held(r, project_key(p)) {
            Some(e) => project_weight(p) > project_weight(e),
            None => true,
        };
        upsert(r, project_key(p), p, replaces)
    }
}

pub open spec fn values_of_pairs<V>(v: Seq<(Seq<char>, V)>) -> Seq<V> {
    v.map_values(|p: (Seq<char>, V)| p.1)
}

/// Two versions of one resume merged: the newer one, with blank name, age,
/// contact and gender filled from the older; education entries, skills and
/// certificates of both, the older first, without repeats; work and project
/// entries of both collected by key and keyed afresh.
pub open spec fn merged_resume(older: ResumeDataV, newer: ResumeDataV) -> ResumeDataV {
    let ob = older.basic_info;
    let nb = newer.basic_info;
    ResumeDataV {
        basic_info: BasicInfoV {
            name: filled(nb.name, ob.name),
            age: filled(nb.age, ob.age),
            contact: filled(nb.contact, ob.contact),
            gender: filled(nb.gender, ob.gender),
            education: dedup_education(ob.education + nb.education),
            skills: union_ignoring_case(ob.skills + nb.skills),
            certificates: union_ignoring_case(ob.certificates + nb.certificates),
        },
        work_experience: renumbered(
            values_of_pairs(
                work_by_key(
                    values_of_pairs(older.work_experience) + values_of_pairs(newer.work_experience),
                ),
            ),
        ),
        project_experience: renumbered(
            values_of_pairs(
                projects_by_key(
                    values_of_pairs(older.project_experience) + values_of_pairs(
                        newer.project_experience,
                    ),
                ),
            ),
        ),
    }
}

// ---------------------------------------------------------------- merging: proofs and steps

pub open spec fn pair_keys<V>(v: Seq<(Seq<char>, V)>) -> Seq<Seq<char>> {
    v.map_values(|p: (Seq<char>, V)| p.0)
}

proof fn lemma_upsert_at<V>(v: Seq<(Seq<char>, V)>, k: Seq<char>, x: V, rep: bool, i: int)
    requires
        0 <= i <= v.len(),
        forall|j: int| 0 <= j < i ==> lex_lt((#[trigger] v[j]).0, k),
        i < v.len() ==> !lex_lt(v[i].0, k),
    ensures
        i < v.len() && v[i].0 == k ==> upsert(v, k, x, rep) == (if rep {
            v.update(i, (k, x))
        } else {
            v
        }),
        !(i < v.len() && v[i].0 == k) ==> upsert(v, k, x, rep) == v.insert(i, (k, x)),
    decreases i,
{
    if i == 0 {
        if v.len() > 0 && v[0].0 != k {
            lemma_lex_total(v[0].0, k);
            assert(seq![(k, x)] + v =~= v.insert(0, (k, x)));
        } else if v.len() > 0 {
            assert(seq![(k, x)] + v.drop_first() =~= v.update(0, (k, x)));
        } else {
            assert(seq![(k, x)] =~= v.insert(0, (k, x)));
        }
    } else {
        lemma_lex_irreflexive(k);
        lemma_lex_asymmetric(v[0].0, k);
        let rest = v.drop_first();
        assert forall|j: int| 0 <= j < i - 1 implies lex_lt((#[trigger] rest[j]).0, k) by {
            assert(rest[j] == v[j + 1]);
        }
        lemma_upsert_at(rest, k, x, rep, i - 1);
        if i < v.len() && v[i].0 == k {
            if rep {
                assert(seq![v[0]] + rest.update(i - 1, (k, x)) =~= v.update(i, (k, x)));
            } else {
                assert(seq![v[0]] + rest =~= v);
            }
        } else {
            assert(seq![v[0]] + rest.insert(i - 1, (k, x)) =~= v.insert(i, (k, x)));
        }
    }
}

proof fn lemma_held_none<V>(v: Seq<(Seq<char>, V)>, k: Seq<char>)
    requires
        forall|j: int| 0 <= j < v.len() ==> lex_lt(k, (#[trigger] v[j]).0),
    ensures
        held(v, k) is None,
    decreases v.len(),
{
    if v.len() > 0 {
        lemma_lex_irreflexive(k);
        let rest = v.drop_first();
        assert forall|j: int| 0 <= j < rest.len() implies lex_lt(k, (#[trigger] rest[j]).0) by {
            assert(rest[j] == v[j + 1]);
        }
        lemma_held_none(rest, k);
    }
}

proof fn lemma_held_at<V>(v: Seq<(Seq<char>, V)>, k: Seq<char>, i: int)
    requires
        0 <= i <= v.len(),
        sorted_strict(pair_keys(v)),
        forall|j: int| 0 <= j < i ==> lex_lt((#[trigger] v[j]).0, k),
        i < v.len() ==> !lex_lt(v[i].0, k),
    ensures
        held(v, k) == (if i < v.len() && v[i].0 == k {
            Some(v[i].1)
        } else {
            None
        }),
    decreases i,
{
    if i > 0 {
        lemma_lex_irreflexive(k);
        let rest = v.drop_first();
        assert forall|j: int| 0 <= j < i - 1 implies lex_lt((#[trigger] rest[j]).0, k) by {
            assert(rest[j] == v[j + 1]);
        }
        assert(sorted_strict(pair_keys(rest))) by {
            assert forall|a: int, b: int| 0 <= a < b < pair_keys(rest).len() implies lex_lt(
                #[trigger] pair_keys(rest)[a],
                #[trigger] pair_keys(rest)[b],
            ) by {
                assert(pair_keys(rest)[a] == pair_keys(v)[a + 1]);
                assert(pair_keys(rest)[b] == pair_keys(v)[b + 1]);
            }
        }
        lemma_held_at(rest, k, i - 1);
    } else if v.len() > 0 && v[0].0 != k {
        lemma_lex_total(v[0].0, k);
        assert forall|j: int| 0 <= j < v.len() implies lex_lt(k, (#[trigger] v[j]).0) by {
            if j > 0 {
                assert(pair_keys(v)[0] == v[0].0);
                assert(pair_keys(v)[j] == v[j].0);
                lemma_lex_transitive(k, v[0].0, v[j].0);
            }
        }
        lemma_held_none(v, k);
    }
}

proof fn lemma_insert_sorted<V>(v: Seq<(Seq<char>, V)>, k: Seq<char>, x: V, i: int)
    requires
        0 <= i <= v.len(),
        sorted_strict(pair_keys(v)),
        forall|j: int| 0 <= j < i ==> lex_lt((#[trigger] v[j]).0, k),
        i < v.len() ==> lex_lt(k, v[i].0),
    ensures
        sorted_strict(pair_keys(v.insert(i, (k, x)))),
{
    let w = v.insert(i, (k, x));
    assert forall|a: int, b: int| 0 <= a < b < pair_keys(w).len() implies lex_lt(
        #[trigger] pair_keys(w)[a],
        #[trigger] pair_keys(w)[b],
    ) by {
        assert(pair_keys(w)[a] == w[a].0);
        assert(pair_keys(w)[b] == w[b].0);
        if b < i {
            assert(pair_keys(v)[a] == v[a].0);
            assert(pair_keys(v)[b] == v[b].0);
        } else if b == i {
        } else if a < i {
            assert(pair_keys(v)[b - 1] == v[b - 1].0);
            if b - 1 > i {
                assert(pair_keys(v)[i] == v[i].0);
                lemma_lex_transitive(k, v[i].0, v[b - 1].0);
            }
            lemma_lex_transitive(v[a].0, k, v[b - 1].0);
        } else if a == i {
            assert(pair_keys(v)[b - 1] == v[b - 1].0);
            if b - 1 > i {
                assert(pair_keys(v)[i] == v[i].0);
                lemma_lex_transitive(k, v[i].0, v[b - 1].0);
            }
        } else {
            assert(pair_keys(v)[a - 1] == v[a - 1].0);
            assert(pair_keys(v)[b - 1] == v[b - 1].0);
        }
    }
}

/// The length of `s` in UTF-8 bytes, exactly.
fn utf8_len_wide(s: &Vec<char>) -> (r: u128)
    ensures
        r == utf8_len(s@),
        r <= 4 * s.len(),
{
    let mut n: u128 = 0;
    let mut i: usize = 0;
    assert(s@.take(0) =~= Seq::<char>::empty());
    while i < s.len()
        invariant
            i <= s.len(),
            n == utf8_len(s@.take(i as int)),
            n <= 4 * i,
        decreases s.len() - i,
    {
        let w = char_utf8_width(s[i]);
        proof {
            assert(s@.take(i + 1) =~= s@.take(i as int).push(s@[i as int]));
            lemma_utf8_len_push(s@.take(i as int), s@[i as int]);
        }
        n = n + (w as u128);
        i += 1;
    }
    assert(s@.take(s.len() as int) =~= s@);
    n
}

/// Enters `x` under key `k` into `m`, kept in key order; an entry already held
/// under `k` is replaced only when `x` weighs more.
fn upsert_exec<T: View>(
    m: &mut Vec<(Vec<char>, T, u128)>,
    k: Vec<char>,
    x: T,
    w: u128,
    Ghost(wf): Ghost<spec_fn(T::V) -> nat>,
)
    requires
        sorted_strict(pair_keys(entry_view(old(m)@))),
        forall|j: int| 0 <= j < old(m)@.len() ==> (#[trigger] old(m)@[j]).2 == wf(old(m)@[j].1@),
        w == wf(x@),
    ensures
        sorted_strict(pair_keys(entry_view(final(m)@))),
        forall|j: int| 0 <= j < final(m)@.len() ==> (#[trigger] final(m)@[j]).2 == wf(final(m)@[j].1@),
        entry_view(final(m)@) == upsert(
            entry_view(old(m)@),
            k@,
            x@,
            match held(entry_view(old(m)@), k@) {
                Some(e) => wf(x@) > wf(e),
                None => true,
            },
        ),
{
    let ghost mv = entry_view(m@);
    let mut i: usize = 0;
    while i < m.len() && lex_less(&m[i].0, &k)
        invariant
            i <= m.len(),
            mv == entry_view(m@),
            forall|j: int| 0 <= j < i ==> lex_lt((#[trigger] mv[j]).0, k@),
        decreases m.len() - i,
    {
        i += 1;
    }
    proof {
        lemma_held_at(mv, k@, i as int);
    }
    let ghost kx = (k@, x@);
    if i < m.len() && chars_eq(&m[i].0, &k) {
        let ghost rep = wf(x@) > wf(mv[i as int].1);
        proof {
            lemma_upsert_at(mv, k@, x@, rep, i as int);
        }
        if w > m[i].2 {
            let ghost before = m@;
            let _old = m.remove(i);
            m.insert(i, (k, x, w));
            assert(entry_view(m@) =~= mv.update(i as int, kx));
            assert(pair_keys(entry_view(m@)) =~= pair_keys(mv));
            assert forall|j: int| 0 <= j < m@.len() implies (#[trigger] m@[j]).2 == wf(m@[j].1@) by {
                if j != i {
                    assert(m@[j] == before[j]);
                }
            }
        }
    } else {
        proof {
            lemma_upsert_at(mv, k@, x@, true, i as int);
            if i < mv.len() {
                lemma_lex_total(mv[i as int].0, k@);
            }
            lemma_insert_sorted(mv, k@, x@, i as int);
        }
        let ghost before = m@;
        m.insert(i, (k, x, w));
        assert(entry_view(m@) =~= mv.insert(i as int, kx));
        assert forall|j: int| 0 <= j < m@.len() implies (#[trigger] m@[j]).2 == wf(m@[j].1@) by {
            if j < i {
                assert(m@[j] == before[j]);
            } else if j > i {
                assert(m@[j] == before[j - 1]);
            }
        }
    }
}

pub open spec fn entry_view<T: View>(v: Seq<(Vec<char>, T, u128)>) -> Seq<(Seq<char>, T::V)> {
    v.map_values(|e: (Vec<char>, T, u128)| (e.0@, e.1@))
}

/// Appends the code of field `f`.
fn push_field_code(out: &mut Vec<char>, f: &Vec<char>)
    ensures
        final(out)@ == old(out)@ + field_code(f@),
{
    let ghost o0 = out@;
    let mut i: usize = 0;
    assert(f@.skip(0) =~= f@);
    assert(out@ + field_code(f@.skip(0)) =~= o0 + field_code(f@));
    while i < f.len()
        invariant
            i <= f.len(),
            out@ + field_code(f@.skip(i as int)) == o0 + field_code(f@),
        decreases f.len() - i,
    {
        let ghost before = out@;
        let ghost rest = f@.skip(i as int);
        assert(rest[0] == f@[i as int]);
        assert(rest.drop_first() =~= f@.skip(i + 1));
        if f[i] == '\0' {
            out.push('\0');
            out.push('\u{2}');
            assert(out@ + field_code(f@.skip(i + 1)) =~= before + field_code(rest));
        } else {
            out.push(f[i]);
            assert(out@ + field_code(f@.skip(i + 1)) =~= before + field_code(rest));
        }
        i += 1;
    }
    let ghost before = out@;
    assert(f@.skip(i as int) =~= Seq::<char>::empty());
    out.push('\0');
    out.push('\u{1}');
    assert(out@ =~= before + field_code(Seq::<char>::empty()));
}

fn edu_key_exec(e: &EducationItem) -> (r: Vec<char>)
    ensures
        r@ == edu_key(e@),
{
    let mut k: Vec<char> = Vec::new();
    push_field_code(&mut k, &key_text(&e.school));
    push_field_code(&mut k, &key_text(&e.major));
    push_field_code(&mut k, &key_text(&e.degree));
    push_field_code(&mut k, &key_text(&e.period));
    assert(k@ =~= edu_key(e@));
    k
}

/// `v` holds an item equal to `x`.
fn holds(v: &Vec<Vec<char>>, x: &Vec<char>) -> (r: bool)
    ensures
        r == vecs_view(v@).contains(x@),
{
    let mut i: usize = 0;
    while i < v.len()
        invariant
            i <= v.len(),
            forall|k: int| 0 <= k < i ==> vecs_view(v@)[k] != x@,
        decreases v.len() - i,
    {
        if chars_eq(&v[i], x) {
            assert(vecs_view(v@)[i as int] == x@);
            return true;
        }
        i += 1;
    }
    false
}

pub open spec fn edu_views(v: Seq<EducationItem>) -> Seq<EducationItemV> {
    v.map_values(|e: EducationItem| e@)
}

fn step_education(
    out: &mut Vec<EducationItem>,
    seen: &mut Vec<Vec<char>>,
    e: &EducationItem,
    Ghost(es): Ghost<Seq<EducationItemV>>,
)
    requires
        edu_views(old(out)@) == dedup_education(es),
        vecs_view(old(seen)@) == es.map_values(|x: EducationItemV| edu_key(x)),
    ensures
        edu_views(final(out)@) == dedup_education(es.push(e@)),
        vecs_view(final(seen)@) == es.push(e@).map_values(|x: EducationItemV| edu_key(x)),
{
    let key = edu_key_exec(e);
    assert(es.push(e@).drop_last() =~= es);
    let found = holds(seen, &key);
    proof {
        let ks = es.map_values(|x: EducationItemV| edu_key(x));
        let fs = es.map_values(|x: EducationItemV| edu_fields(x));
        if ks.contains(edu_key(e@)) {
            let j = choose|j: int| 0 <= j < ks.len() && ks[j] == edu_key(e@);
            lemma_edu_key_fields(es[j], e@);
            assert(fs[j] == edu_fields(e@));
        }
        if fs.contains(edu_fields(e@)) {
            let j = choose|j: int| 0 <= j < fs.len() && fs[j] == edu_fields(e@);
            lemma_edu_key_fields(es[j], e@);
            assert(ks[j] == edu_key(e@));
        }
    }
    if !found {
        let ghost before = edu_views(out@);
        out.push(clone_education_item(e));
        assert(edu_views(out@) =~= before.push(e@));
    }
    let ghost sb = vecs_view(seen@);
    seen.push(key);
    assert(vecs_view(seen@) =~= sb.push(edu_key(e@)));
    assert(es.push(e@).map_values(|x: EducationItemV| edu_key(x)) =~= es.map_values(
        |x: EducationItemV| edu_key(x),
    ).push(edu_key(e@)));
}

fn merged_education(older: &Vec<EducationItem>, newer: &Vec<EducationItem>) -> (r: Vec<
    EducationItem,
>)
    ensures
        edu_views(r@) == dedup_education(edu_views(older@) + edu_views(newer@)),
{
    let ghost es = edu_views(older@) + edu_views(newer@);
    let mut out: Vec<EducationItem> = Vec::new();
    let mut seen: Vec<Vec<char>> = Vec::new();
    let mut i: usize = 0;
    assert(es.take(0) =~= Seq::<EducationItemV>::empty());
    assert(vecs_view(seen@) =~= es.take(0).map_values(|x: EducationItemV| edu_key(x)));
    while i < older.len()
        invariant
            i <= older.len(),
            es == edu_views(older@) + edu_views(newer@),
            edu_views(out@) == dedup_education(es.take(i as int)),
            vecs_view(seen@) == es.take(i as int).map_values(|x: EducationItemV| edu_key(x)),
        decreases older.len() - i,
    {
        step_education(&mut out, &mut seen, &older[i], Ghost(es.take(i as int)));
        assert(es.take(i as int).push(older@[i as int]@) =~= es.take(i + 1));
        i += 1;
    }
    let mut j: usize = 0;
    while j < newer.len()
        invariant
            j <= newer.len(),
            es == edu_views(older@) + edu_views(newer@),
            edu_views(out@) == dedup_education(es.take(older.len() + j)),
            vecs_view(seen@) == es.take(older.len() + j).map_values(|x: EducationItemV| edu_key(x)),
        decreases newer.len() - j,
    {
        step_education(&mut out, &mut seen, &newer[j], Ghost(es.take(older.len() + j)));
        assert(es.take(older.len() + j).push(newer@[j as int]@) =~= es.take(older.len() + j + 1));
        j += 1;
    }
    assert(es.take(older.len() + newer.len()) =~= es);
    out
}

fn step_union(
    out: &mut Vec<String>,
    seen: &mut Vec<Vec<char>>,
    s: &String,
    Ghost(vs): Ghost<Seq<Seq<char>>>,
)
    requires
        strings_view(old(out)@) == union_ignoring_case(vs),
        vecs_view(old(seen)@) == vs.map_values(|x: Seq<char>| lower(trim(x))),
    ensures
        strings_view(final(out)@) == union_ignoring_case(vs.push(s@)),
        vecs_view(final(seen)@) == vs.push(s@).map_values(|x: Seq<char>| lower(trim(x))),
{
    let t = trim_chars(&str_chars(s.as_str()));
    let l = ascii_lower(&t);
    assert(vs.push(s@).drop_last() =~= vs);
    if l.len() > 0 && !holds(seen, &l) {
        let ghost before = strings_view(out@);
        out.push(chars_to_string(&t));
        assert(strings_view(out@) =~= before.push(trim(s@)));
    }
    let ghost sb = vecs_view(seen@);
    seen.push(l);
    assert(vecs_view(seen@) =~= sb.push(lower(trim(s@))));
    assert(vs.push(s@).map_values(|x: Seq<char>| lower(trim(x))) =~= vs.map_values(
        |x: Seq<char>| lower(trim(x)),
    ).push(lower(trim(s@))));
}

fn merged_texts(older: &Vec<String>, newer: &Vec<String>) -> (r: Vec<String>)
    ensures
        strings_view(r@) == union_ignoring_case(strings_view(older@) + strings_view(newer@)),
{
    let ghost vs = strings_view(older@) + strings_view(newer@);
    let mut out: Vec<String> = Vec::new();
    let mut seen: Vec<Vec<char>> = Vec::new();
    let mut i: usize = 0;
    assert(vs.take(0) =~= Seq::<Seq<char>>::empty());
    assert(vecs_view(seen@) =~= vs.take(0).map_values(|x: Seq<char>| lower(trim(x))));
    while i < older.len()
        invariant
            i <= older.len(),
            vs == strings_view(older@) + strings_view(newer@),
            strings_view(out@) == union_ignoring_case(vs.take(i as int)),
            vecs_view(seen@) == vs.take(i as int).map_values(|x: Seq<char>| lower(trim(x))),
        decreases older.len() - i,
    {
        step_union(&mut out, &mut seen, &older[i], Ghost(vs.take(i as int)));
        assert(vs.take(i as int).push(older@[i as int]@) =~= vs.take(i + 1));
        i += 1;
    }
    let mut j: usize = 0;
    while j < newer.len()
        invariant
            j <= newer.len(),
            vs == strings_view(older@) + strings_view(newer@),
            strings_view(out@) == union_ignoring_case(vs.take(older.len() + j)),
            vecs_view(seen@) == vs.take(older.len() + j).map_values(|x: Seq<char>| lower(trim(x))),
        decreases newer.len() - j,
    {
        step_union(&mut out, &mut seen, &newer[j], Ghost(vs.take(older.len() + j)));
        assert(vs.take(older.len() + j).push(newer@[j as int]@) =~= vs.take(older.len() + j + 1));
        j += 1;
    }
    assert(vs.take(older.len() + newer.len()) =~= vs);
    out
}

fn work_key_exec(w: &WorkItem) -> (r: Vec<char>)
    ensures
        r@ == work_key(w@),
{
    let company = key_text(&w.company);
    let position = key_text(&w.position);
    let mut label = company.clone();
    label.push('|');
    let mut p2 = position.clone();
    label.append(&mut p2);
    assert(label@ =~= work_label(w@));
    let mut k: Vec<char> = Vec::new();
    push_field_code(&mut k, &label);
    push_field_code(&mut k, &company);
    push_field_code(&mut k, &position);
    assert(k@ =~= work_key(w@));
    k
}

fn work_weight_exec(w: &WorkItem) -> (r: u128)
    ensures
        r == work_weight(w@),
{
    utf8_len_wide(&trim_chars(&str_chars(w.description.as_str())))
}

fn project_weight_exec(p: &ProjectItem) -> (r: u128)
    ensures
        r == project_weight(p@),
{
    let a = utf8_len_wide(&trim_chars(&str_chars(p.project_description.as_str())));
    let b = utf8_len_wide(&trim_chars(&str_chars(p.project_achievements.as_str())));
    a + b
}

pub open spec fn pair_values_view<T: View>(v: Seq<(String, T)>) -> Seq<T::V> {
    v.map_values(|p: (String, T)| p.1@)
}

pub open spec fn weights_ok<T: View>(v: Seq<(Vec<char>, T, u128)>, wf: spec_fn(T::V) -> nat) -> bool {
    forall|j: int| 0 <= j < v.len() ==> (#[trigger] v[j]).2 == wf(v[j].1@)
}

fn step_work(
    m: &mut Vec<(Vec<char>, WorkItem, u128)>,
    w: &WorkItem,
    Ghost(ws): Ghost<Seq<WorkItemV>>,
)
    requires
        entry_view(old(m)@) == work_by_key(ws),
        sorted_strict(pair_keys(entry_view(old(m)@))),
        weights_ok(old(m)@, |x: WorkItemV| work_weight(x)),
    ensures
        entry_view(final(m)@) == work_by_key(ws.push(w@)),
        sorted_strict(pair_keys(entry_view(final(m)@))),
        weights_ok(final(m)@, |x: WorkItemV| work_weight(x)),
{
    let k = work_key_exec(w);
    let wt = work_weight_exec(w);
    assert(ws.push(w@).drop_last() =~= ws);
    upsert_exec(m, k, clone_work_item(w), wt, Ghost(|x: WorkItemV| work_weight(x)));
}

fn step_project(
    m: &mut Vec<(Vec<char>, ProjectItem, u128)>,
    p: &ProjectItem,
    Ghost(ps): Ghost<Seq<ProjectItemV>>,
)
    requires
        entry_view(old(m)@) == projects_by_key(ps),
        sorted_strict(pair_keys(entry_view(old(m)@))),
        weights_ok(old(m)@, |x: ProjectItemV| project_weight(x)),
    ensures
        entry_view(final(m)@) == projects_by_key(ps.push(p@)),
        sorted_strict(pair_keys(entry_view(final(m)@))),
        weights_ok(final(m)@, |x: ProjectItemV| project_weight(x)),
{
    let k = key_text(&p.project_name);
    let wt = project_weight_exec(p);
    assert(ps.push(p@).drop_last() =~= ps);
    upsert_exec(m, k, clone_project_item(p), wt, Ghost(|x: ProjectItemV| project_weight(x)));
}

/// The work entries of `older` then `newer`, collected by key.
fn collect_work(older: &Vec<(String, WorkItem)>, newer: &Vec<(String, WorkItem)>) -> (r: Vec<
    (Vec<char>, WorkItem, u128),
>)
    ensures
        entry_view(r@) == work_by_key(pair_values_view(older@) + pair_values_view(newer@)),
{
    let ghost ws = pair_values_view(older@) + pair_values_view(newer@);
    let mut m: Vec<(Vec<char>, WorkItem, u128)> = Vec::new();
    assert(ws.take(0) =~= Seq::<WorkItemV>::empty());
    assert(entry_view(m@) =~= work_by_key(ws.take(0)));
    let mut i: usize = 0;
    while i < older.len()
        invariant
            i <= older.len(),
            ws == pair_values_view(older@) + pair_values_view(newer@),
            entry_view(m@) == work_by_key(ws.take(i as int)),
            sorted_strict(pair_keys(entry_view(m@))),
            weights_ok(m@, |x: WorkItemV| work_weight(x)),
        decreases older.len() - i,
    {
        step_work(&mut m, &older[i].1, Ghost(ws.take(i as int)));
        assert(ws.take(i as int).push(older@[i as int].1@) =~= ws.take(i + 1));
        i += 1;
    }
    let mut j: usize = 0;
    while j < newer.len()
        invariant
            j <= newer.len(),
            ws == pair_values_view(older@) + pair_values_view(newer@),
            entry_view(m@) == work_by_key(ws.take(older.len() + j)),
            sorted_strict(pair_keys(entry_view(m@))),
            weights_ok(m@, |x: WorkItemV| work_weight(x)),
        decreases newer.len() - j,
    {
        step_work(&mut m, &newer[j].1, Ghost(ws.take(older.len() + j)));
        assert(ws.take(older.len() + j).push(newer@[j as int].1@) =~= ws.take(older.len() + j + 1));
        j += 1;
    }
    assert(ws.take(older.len() + newer.len()) =~= ws);
    m
}

/// The project entries of `older` then `newer`, collected by key.
fn collect_projects(older: &Vec<(String, ProjectItem)>, newer: &Vec<(String, ProjectItem)>) -> (r:
    Vec<(Vec<char>, ProjectItem, u128)>)
    ensures
        entry_view(r@) == projects_by_key(pair_values_view(older@) + pair_values_view(newer@)),
{
    let ghost ps = pair_values_view(older@) + pair_values_view(newer@);
    let mut m: Vec<(Vec<char>, ProjectItem, u128)> = Vec::new();
    assert(ps.take(0) =~= Seq::<ProjectItemV>::empty());
    assert(entry_view(m@) =~= projects_by_key(ps.take(0)));
    let mut i: usize = 0;
    while i < older.len()
        invariant
            i <= older.len(),
            ps == pair_values_view(older@) + pair_values_view(newer@),
            entry_view(m@) == projects_by_key(ps.take(i as int)),
            sorted_strict(pair_keys(entry_view(m@))),
            weights_ok(m@, |x: ProjectItemV| project_weight(x)),
        decreases older.len() - i,
    {
        step_project(&mut m, &older[i].1, Ghost(ps.take(i as int)));
        assert(ps.take(i as int).push(older@[i as int].1@) =~= ps.take(i + 1));
        i += 1;
    }
    let mut j: usize = 0;
    while j < newer.len()
        invariant
            j <= newer.len(),
            ps == pair_values_view(older@) + pair_values_view(newer@),
            entry_view(m@) == projects_by_key(ps.take(older.len() + j)),
            sorted_strict(pair_keys(entry_view(m@))),
            weights_ok(m@, |x: ProjectItemV| project_weight(x)),
        decreases newer.len() - j,
    {
        step_project(&mut m, &newer[j].1, Ghost(ps.take(older.len() + j)));
        assert(ps.take(older.len() + j).push(newer@[j as int].1@) =~= ps.take(older.len() + j + 1));
        j += 1;
    }
    assert(ps.take(older.len() + newer.len()) =~= ps);
    m
}

/// The entries of `m`, in order, without their keys and weights.
fn entries_of<T: View>(m: Vec<(Vec<char>, T, u128)>) -> (r: Vec<T>)
    ensures
        r@.map_values(|x: T| x@) == values_of_pairs(entry_view(m@)),
{
    let ghost mv = entry_view(m@);
    assert(mv.len() == m.len());
    let mut m = m;
    let mut out: Vec<T> = Vec::new();
    let mut i: usize = 0;
    while m.len() > 0
        invariant
            i + m.len() == mv.len(),
            mv.len() <= usize::MAX,
            entry_view(m@) == mv.skip(i as int),
            out@.map_values(|x: T| x@) == values_of_pairs(mv).take(i as int),
        decreases m.len(),
    {
        let ghost bm = m@;
        assert(entry_view(m@)[0] == (bm[0].0@, bm[0].1@));
        assert(mv.skip(i as int)[0] == mv[i as int]);
        let (_k, x, _w) = m.remove(0);
        assert(m@ =~= bm.skip(1));
        assert(entry_view(m@) =~= entry_view(bm).skip(1));
        let ghost before = out@;
        out.push(x);
        assert(out@.map_values(|x: T| x@) =~= before.map_values(|x: T| x@).push(mv[i as int].1));
        assert(values_of_pairs(mv).take(i + 1) =~= values_of_pairs(mv).take(i as int).push(
            mv[i as int].1,
        ));
        assert(entry_view(m@) =~= mv.skip(i + 1));
        i += 1;
    }
    assert(values_of_pairs(mv).take(i as int) =~= values_of_pairs(mv));
    out
}

proof fn lemma_upsert_sorted<V>(v: Seq<(Seq<char>, V)>, k: Seq<char>, x: V, rep: bool)
    requires
        sorted_strict(pair_keys(v)),
    ensures
        sorted_strict(pair_keys(upsert(v, k, x, rep))),
        forall|j: int|
            0 <= j < upsert(v, k, x, rep).len() ==> (#[trigger] upsert(v, k, x, rep)[j]).0 == k
                || pair_keys(v).contains(upsert(v, k, x, rep)[j].0),
    decreases v.len(),
{
    let u = upsert(v, k, x, rep);
    if v.len() == 0 {
    } else if v[0].0 == k {
        if rep {
            assert(pair_keys(u) =~= pair_keys(v));
            assert forall|j: int| 0 <= j < u.len() implies (#[trigger] u[j]).0 == k
                || pair_keys(v).contains(u[j].0) by {
                assert(pair_keys(v)[j] == u[j].0);
            }
        } else {
            assert forall|j: int| 0 <= j < u.len() implies (#[trigger] u[j]).0 == k
                || pair_keys(v).contains(u[j].0) by {
                assert(pair_keys(v)[j] == u[j].0);
            }
        }
    } else if lex_lt(k, v[0].0) {
        assert forall|a: int, b: int| 0 <= a < b < pair_keys(u).len() implies lex_lt(
            #[trigger] pair_keys(u)[a],
            #[trigger] pair_keys(u)[b],
        ) by {
            assert(pair_keys(u)[b] == pair_keys(v)[b - 1]);
            if a == 0 {
                if b > 1 {
                    assert(pair_keys(v)[0] == v[0].0);
                    lemma_lex_transitive(k, v[0].0, pair_keys(v)[b - 1]);
                }
            } else {
                assert(pair_keys(u)[a] == pair_keys(v)[a - 1]);
            }
        }
        assert forall|j: int| 0 <= j < u.len() implies (#[trigger] u[j]).0 == k
            || pair_keys(v).contains(u[j].0) by {
            if j > 0 {
                assert(pair_keys(v)[j - 1] == u[j].0);
            }
        }
    } else {
        let rest = v.drop_first();
        assert(sorted_strict(pair_keys(rest))) by {
            assert forall|a: int, b: int| 0 <= a < b < pair_keys(rest).len() implies lex_lt(
                #[trigger] pair_keys(rest)[a],
                #[trigger] pair_keys(rest)[b],
            ) by {
                assert(pair_keys(rest)[a] == pair_keys(v)[a + 1]);
                assert(pair_keys(rest)[b] == pair_keys(v)[b + 1]);
            }
        }
        lemma_upsert_sorted(rest, k, x, rep);
        let ur = upsert(rest, k, x, rep);
        lemma_lex_total(k, v[0].0);
        assert(u == seq![v[0]] + ur);
        assert forall|j: int| 0 <= j < ur.len() implies lex_lt(v[0].0, (#[trigger] ur[j]).0) by {
            if ur[j].0 != k {
                let t = choose|t: int| 0 <= t < pair_keys(rest).len() && pair_keys(rest)[t] == ur[j].0;
                assert(pair_keys(rest)[t] == pair_keys(v)[t + 1]);
                assert(pair_keys(v)[0] == v[0].0);
            }
        }
        assert forall|a: int, b: int| 0 <= a < b < pair_keys(u).len() implies lex_lt(
            #[trigger] pair_keys(u)[a],
            #[trigger] pair_keys(u)[b],
        ) by {
            assert(pair_keys(u)[b] == ur[b - 1].0);
            if a > 0 {
                assert(pair_keys(u)[a] == ur[a - 1].0);
                assert(pair_keys(ur)[a - 1] == ur[a - 1].0);
                assert(pair_keys(ur)[b - 1] == ur[b - 1].0);
            }
        }
        assert forall|j: int| 0 <= j < u.len() implies (#[trigger] u[j]).0 == k
            || pair_keys(v).contains(u[j].0) by {
            if j == 0 {
                assert(pair_keys(v)[0] == u[0].0);
            } else {
                assert(u[j] == ur[j - 1]);
                if ur[j - 1].0 != k {
                    let t = choose|t: int| 0 <= t < pair_keys(rest).len() && pair_keys(rest)[t] == ur[j - 1].0;
                    assert(pair_keys(v)[t + 1] == pair_keys(rest)[t]);
                }
            }
        }
    }
}

/// Every entry is held under its own key.
pub open spec fn keyed_by_work_key(v: Seq<(Seq<char>, WorkItemV)>) -> bool {
    forall|j: int| 0 <= j < v.len() ==> (#[trigger] v[j]).0 == work_key(v[j].1)
}

proof fn lemma_upsert_keyed(v: Seq<(Seq<char>, WorkItemV)>, w: WorkItemV, rep: bool)
    requires
        keyed_by_work_key(v),
    ensures
        keyed_by_work_key(upsert(v, work_key(w), w, rep)),
    decreases v.len(),
{
    let k = work_key(w);
    let u = upsert(v, k, w, rep);
    if v.len() > 0 && v[0].0 != k && !lex_lt(k, v[0].0) {
        let rest = v.drop_first();
        assert(keyed_by_work_key(rest)) by {
            assert forall|j: int| 0 <= j < rest.len() implies (#[trigger] rest[j]).0 == work_key(
                rest[j].1,
            ) by {
                assert(rest[j] == v[j + 1]);
            }
        }
        lemma_upsert_keyed(rest, w, rep);
        let ur = upsert(rest, k, w, rep);
        assert forall|j: int| 0 <= j < u.len() implies (#[trigger] u[j]).0 == work_key(u[j].1) by {
            if j > 0 {
                assert(u[j] == ur[j - 1]);
            }
        }
    } else if v.len() > 0 && v[0].0 != k {
        assert forall|j: int| 0 <= j < u.len() implies (#[trigger] u[j]).0 == work_key(u[j].1) by {
            if j > 0 {
                assert(u[j] == v[j - 1]);
            }
        }
    } else if v.len() > 0 && rep {
        assert forall|j: int| 0 <= j < u.len() implies (#[trigger] u[j]).0 == work_key(u[j].1) by {
            if j > 0 {
                assert(u[j] == v[j]);
            }
        }
    }
}

proof fn lemma_work_by_key_ordered(ws: Seq<WorkItemV>)
    ensures
        sorted_strict(pair_keys(work_by_key(ws))),
        keyed_by_work_key(work_by_key(ws)),
    decreases ws.len(),
{
    if ws.len() > 0 {
        lemma_work_by_key_ordered(ws.drop_last());
        let r = work_by_key(ws.drop_last());
        let w = ws.last();
        let replaces = match held(r, work_key(w)) {
            Some(e) => work_weight(w) > work_weight(e),
            None => true,
        };
        lemma_upsert_sorted(r, work_key(w), w, replaces);
        lemma_upsert_keyed(r, w, replaces);
    }
}

proof fn lemma_char_above_nul(c: char)
    requires
        c != '\0',
    ensures
        '\0' < c,
{
}

/// A coded text followed by anything is ordered as the text is, where the
/// texts differ.
proof fn lemma_field_code_order(a: Seq<char>, b: Seq<char>, x: Seq<char>, y: Seq<char>)
    requires
        lex_lt(field_code(a) + x, field_code(b) + y),
    ensures
        a == b || lex_lt(a, b),
    decreases a.len(),
{
    lemma_field_code_len(a);
    lemma_field_code_len(b);
    let l = field_code(a) + x;
    let r = field_code(b) + y;
    assert(l[0] == field_code(a)[0] && l[1] == field_code(a)[1]);
    assert(r[0] == field_code(b)[0] && r[1] == field_code(b)[1]);
    if a.len() == 0 && b.len() == 0 {
        assert(a =~= b);
    } else if a.len() > 0 && b.len() > 0 && a[0] == b[0] {
        let n: int = if a[0] == '\0' {
            2
        } else {
            1
        };
        assert(field_code(a) == (if a[0] == '\0' {
            seq!['\0', '\u{2}']
        } else {
            seq![a[0]]
        }) + field_code(a.drop_first()));
        assert(field_code(b) == (if b[0] == '\0' {
            seq!['\0', '\u{2}']
        } else {
            seq![b[0]]
        }) + field_code(b.drop_first()));
        assert(field_code(a.drop_first()) + x =~= l.skip(n));
        assert(field_code(b.drop_first()) + y =~= r.skip(n));
        assert(l[0] == r[0]);
        assert(lex_lt(l.drop_first(), r.drop_first()));
        if n == 2 {
            assert(l.drop_first()[0] == r.drop_first()[0]);
            assert(lex_lt(l.drop_first().drop_first(), r.drop_first().drop_first()));
            assert(l.drop_first().drop_first() =~= l.skip(2));
            assert(r.drop_first().drop_first() =~= r.skip(2));
        } else {
            assert(l.drop_first() =~= l.skip(1));
            assert(r.drop_first() =~= r.skip(1));
        }
        lemma_field_code_order(a.drop_first(), b.drop_first(), x, y);
        assert(a =~= seq![a[0]] + a.drop_first());
        assert(b =~= seq![b[0]] + b.drop_first());
    } else if a.len() > 0 && b.len() == 0 {
        if a[0] == '\0' {
            assert(l[0] == r[0]);
            assert(l.drop_first()[0] == '\u{2}' && r.drop_first()[0] == '\u{1}');
            assert(!lex_lt(l.drop_first(), r.drop_first()));
            assert(!lex_lt(l, r));
        } else {
            assert(l[0] == a[0] && r[0] == '\0');
            lemma_char_above_nul(a[0]);
            assert(!(l[0] < r[0]) && l[0] != r[0]);
            assert(!lex_lt(l, r));
        }
    } else if a.len() > 0 && b.len() > 0 && a[0] > b[0] {
        if b[0] == '\0' {
            assert(l[0] == a[0] && r[0] == '\0');
        } else {
            assert(l[0] == a[0] && r[0] == b[0]);
        }
        assert(!lex_lt(l, r));
    }
}

/// Merged work entries are listed by their label (company and position,
/// trimmed and lowercased, joined by `|`), in ascending order; the entries
/// are keyed `"1"`, `"2"`, ... in this order (`law_renumbered_keys`).
pub proof fn law_merged_work_in_label_order(older: ResumeDataV, newer: ResumeDataV)
    ensures
        ({
            let items = values_of_pairs(
                work_by_key(values_of_pairs(older.work_experience) + values_of_pairs(newer.work_experience)),
            );
            forall|i: int, j: int|
                0 <= i < j < items.len() ==> work_label(#[trigger] items[i]) == work_label(
                    #[trigger] items[j],
                ) || lex_lt(work_label(items[i]), work_label(items[j]))
        }),
{
    let m = work_by_key(values_of_pairs(older.work_experience) + values_of_pairs(newer.work_experience));
    let items = values_of_pairs(m);
    lemma_work_by_key_ordered(values_of_pairs(older.work_experience) + values_of_pairs(newer.work_experience));
    assert forall|i: int, j: int| 0 <= i < j < items.len() implies work_label(#[trigger] items[i])
        == work_label(#[trigger] items[j]) || lex_lt(work_label(items[i]), work_label(items[j])) by {
        assert(pair_keys(m)[i] == m[i].0 && pair_keys(m)[j] == m[j].0);
        assert(items[i] == m[i].1 && items[j] == m[j].1);
        let a = items[i];
        let b = items[j];
        assert(work_key(a) =~= field_code(work_label(a)) + (field_code(lower(trim(a.company)))
            + field_code(lower(trim(a.position)))));
        assert(work_key(b) =~= field_code(work_label(b)) + (field_code(lower(trim(b.company)))
            + field_code(lower(trim(b.position)))));
        lemma_field_code_order(
            work_label(a),
            work_label(b),
            field_code(lower(trim(a.company))) + field_code(lower(trim(a.position))),
            field_code(lower(trim(b.company))) + field_code(lower(trim(b.position))),
        );
    }
}

/// Merges two versions of one resume, as `merged_resume` states it.
pub fn merge_resume_data(older: &ResumeData, newer: &ResumeData) -> (r: ResumeData)
    ensures
        r@ == merged_resume(older@, newer@),
        keys_ascending(r@.work_experience),
        keys_ascending(r@.project_experience),
{
    let ob = &older.basic_info;
    let nb = &newer.basic_info;
    let education = merged_education(&ob.education, &nb.education);
    let skills = merged_texts(&ob.skills, &nb.skills);
    let certificates = merged_texts(&ob.certificates, &nb.certificates);
    let work = renumber(entries_of(collect_work(&older.work_experience, &newer.work_experience)));
    let project = renumber(
        entries_of(collect_projects(&older.project_experience, &newer.project_experience)),
    );
    assert(pair_values_view(older.work_experience@) =~= values_of_pairs(older@.work_experience));
    assert(pair_values_view(newer.work_experience@) =~= values_of_pairs(newer@.work_experience));
    assert(pair_values_view(older.project_experience@) =~= values_of_pairs(
        older@.project_experience,
    ));
    assert(pair_values_view(newer.project_experience@) =~= values_of_pairs(
        newer@.project_experience,
    ));
    assert(edu_views(ob.education@) =~= older@.basic_info.education);
    assert(edu_views(nb.education@) =~= newer@.basic_info.education);
    let r = ResumeData {
        basic_info: BasicInfo {
            name: filled_exec(&nb.name, &ob.name),
            age: filled_exec(&nb.age, &ob.age),
            contact: filled_exec(&nb.contact, &ob.contact),
            gender: filled_exec(&nb.gender, &ob.gender),
            education,
            skills,
            certificates,
        },
        work_experience: work,
        project_experience: project,
    };
    assert(r@.basic_info.education =~= edu_views(r.basic_info.education@));
    r
}

// ---------------------------------------------------------------- saving a resume

/// An entry of the library: its id, its source file and its data.
pub open spec fn library_view(v: Seq<(String, String, ResumeData)>) -> Seq<(Seq<char>, Seq<char>, ResumeDataV)> {
    v.map_values(|e: (String, String, ResumeData)| (e.0@, e.1@, e.2@))
}

/// A library entry to be replaced by a newly saved resume: the same person by
/// name and education, or the same `name|age|contact`, or the same
/// `name|source file`.
pub open spec fn replaced_by(
    new_data: ResumeDataV,
    source_file: Seq<char>,
    entry: (Seq<char>, Seq<char>, ResumeDataV),
) -> bool {
    let d = entry.2;
    let nk = identity_key_of(new_data.basic_info.name, new_data.basic_info.age, new_data.basic_info.contact);
    let fk = fallback_key_of(new_data.basic_info.name, source_file);
    ||| same_person_by_education(new_data, d)
    ||| (nk is Some && identity_key_of(d.basic_info.name, d.basic_info.age, d.basic_info.contact) == nk)
    ||| (fk is Some && fallback_key_of(d.basic_info.name, entry.1) == fk)
}

/// The ids of the entries replaced, in order.
pub open spec fn replaced_ids(
    new_data: ResumeDataV,
    source_file: Seq<char>,
    es: Seq<(Seq<char>, Seq<char>, ResumeDataV)>,
) -> Seq<Seq<char>>
    decreases es.len(),
{
    if es.len() == 0 {
        Seq::empty()
    } else {
        let r = replaced_ids(new_data, source_file, es.drop_last());
        if replaced_by(new_data, source_file, es.last()) {
            r.push(es.last().0)
        } else {
            r
        }
    }
}

/// The first entry of the same person by name and education, if any.
pub open spec fn first_same_person(new_data: ResumeDataV, es: Seq<(Seq<char>, Seq<char>, ResumeDataV)>, i: int) -> Option<int>
    decreases es.len() - i,
{
    if i < 0 || i >= es.len() {
        None
    } else if same_person_by_education(new_data, es[i].2) {
        Some(i)
    } else {
        first_same_person(new_data, es, i + 1)
    }
}

/// The data saved: merged with the first entry of the same person by name and
/// education, when there is one; else as given.
pub open spec fn saved_data(new_data: ResumeDataV, es: Seq<(Seq<char>, Seq<char>, ResumeDataV)>) -> ResumeDataV {
    match first_same_person(new_data, es, 0) {
        Some(i) => merged_resume(es[i].2, new_data),
        None => new_data,
    }
}

fn opt_eq(a: &Option<String>, b: &Option<String>) -> (r: bool)
    ensures
        r == (match (a, b) {
            (Some(x), Some(y)) => x@ == y@,
            (None, None) => true,
            _ => false,
        }),
{
    match (a, b) {
        (Some(x), Some(y)) => *x == *y,
        (None, None) => true,
        _ => false,
    }
}

/// Which library entries a newly saved resume replaces, and the data saved, as
/// `replaced_ids` and `saved_data` state them.
pub fn plan_resume_save(
    existing: &Vec<(String, String, ResumeData)>,
    source_file: &str,
    data: ResumeData,
) -> (r: (Vec<String>, ResumeData))
    ensures
        strings_view(r.0@) == replaced_ids(data@, source_file@, library_view(existing@)),
        r.1@ == saved_data(data@, library_view(existing@)),
{
    let ghost es = library_view(existing@);
    let nk = identity_key(data.basic_info.name.as_str(), data.basic_info.age.as_str(), data.basic_info.contact.as_str());
    let fk = fallback_identity_key(data.basic_info.name.as_str(), source_file);
    let mut ids: Vec<String> = Vec::new();
    let mut merged: Option<ResumeData> = None;
    let mut i: usize = 0;
    assert(es.take(0) =~= Seq::<(Seq<char>, Seq<char>, ResumeDataV)>::empty());
    while i < existing.len()
        invariant
            i <= existing.len(),
            es == library_view(existing@),
            nk matches Some(k) ==> identity_key_of(data@.basic_info.name, data@.basic_info.age, data@.basic_info.contact) == Some(k@),
            nk is None ==> identity_key_of(data@.basic_info.name, data@.basic_info.age, data@.basic_info.contact) is None,
            fk matches Some(k) ==> fallback_key_of(data@.basic_info.name, source_file@) == Some(k@),
            fk is None ==> fallback_key_of(data@.basic_info.name, source_file@) is None,
            strings_view(ids@) == replaced_ids(data@, source_file@, es.take(i as int)),
            merged is None ==> first_same_person(data@, es, 0) == first_same_person(data@, es, i as int),
            merged matches Some(m) ==> (first_same_person(data@, es, 0) matches Some(j) && m@ == merged_resume(es[j].2, data@)),
        decreases existing.len() - i,
    {
        let (id, sf, d) = (&existing[i].0, &existing[i].1, &existing[i].2);
        assert(es[i as int] == (id@, sf@, d@));
        assert(es.take(i + 1).drop_last() =~= es.take(i as int));
        let ghost before = strings_view(ids@);
        if name_education_overlap(&data, d) {
            if merged.is_none() {
                merged = Some(merge_resume_data(d, &data));
            }
            ids.push(id.clone());
            assert(strings_view(ids@) =~= before.push(id@));
        } else {
            let dk = identity_key(d.basic_info.name.as_str(), d.basic_info.age.as_str(), d.basic_info.contact.as_str());
            let matched = nk.is_some() && opt_eq(&dk, &nk);
            let df = fallback_identity_key(d.basic_info.name.as_str(), sf.as_str());
            let fmatched = fk.is_some() && opt_eq(&df, &fk);
            if matched || fmatched {
                ids.push(id.clone());
                assert(strings_view(ids@) =~= before.push(id@));
            }
        }
        i += 1;
    }
    assert(es.take(existing.len() as int) =~= es);
    match merged {
        Some(m) => (ids, m),
        None => (ids, data),
    }
}

// ---------------------------------------------------------------- parsed records

/// The position of the entry keyed `"1"` when it has one; else the first
/// position given; else nothing.
pub open spec fn primary_position(ws: Seq<(Seq<char>, WorkItemV)>) -> Seq<char> {
    match held(ws, "1"@) {
        Some(w) if trim(w.position).len() > 0 => trim(w.position),
        _ => first_position(ws),
    }
}

pub open spec fn first_position(ws: Seq<(Seq<char>, WorkItemV)>) -> Seq<char>
    decreases ws.len(),
{
    if ws.len() == 0 {
        Seq::empty()
    } else if trim(ws[0].1.position).len() > 0 {
        trim(ws[0].1.position)
    } else {
        first_position(ws.drop_first())
    }
}

/// Where the entry keyed `"1"` is, when there is one.
fn find_key_one(ws: &Vec<(String, WorkItem)>) -> (r: Option<usize>)
    ensures
        match r {
            Some(i) => i < ws.len() && held(keyed_view(ws@), "1"@) == Some(ws@[i as int].1@),
            None => held(keyed_view(ws@), "1"@) is None,
        },
{
    let ghost wv = keyed_view(ws@);
    let one = str_chars("1");
    let mut i: usize = 0;
    assert(wv.skip(0) =~= wv);
    while i < ws.len()
        invariant
            i <= ws.len(),
            wv == keyed_view(ws@),
            one@ == "1"@,
            held(wv, "1"@) == held(wv.skip(i as int), "1"@),
        decreases ws.len() - i,
    {
        assert(wv.skip(i as int)[0] == (ws@[i as int].0@, ws@[i as int].1@));
        assert(wv.skip(i as int).drop_first() =~= wv.skip(i + 1));
        if chars_eq(&str_chars(ws[i].0.as_str()), &one) {
            return Some(i);
        }
        i += 1;
    }
    None
}

pub fn extract_primary_position(data: &ResumeData) -> (r: String)
    ensures
        r@ == primary_position(data@.work_experience),
{
    let ws = &data.work_experience;
    let ghost wv = data@.work_experience;
    assert(wv == keyed_view(ws@));
    match find_key_one(ws) {
        Some(i) => {
            let p = trim_chars(&str_chars(ws[i].1.position.as_str()));
            if p.len() > 0 {
                return chars_to_string(&p);
            }
        },
        None => {},
    }
    let mut j: usize = 0;
    assert(wv.skip(0) =~= wv);
    while j < ws.len()
        invariant
            j <= ws.len(),
            wv == keyed_view(ws@),
            wv == data@.work_experience,
            primary_position(wv) == first_position(wv.skip(j as int)),
        decreases ws.len() - j,
    {
        assert(wv.skip(j as int)[0] == (ws@[j as int].0@, ws@[j as int].1@));
        assert(wv.skip(j as int).drop_first() =~= wv.skip(j + 1));
        let p = trim_chars(&str_chars(ws[j].1.position.as_str()));
        if p.len() > 0 {
            return chars_to_string(&p);
        }
        j += 1;
    }
    String::new()
}

/// The skills trimmed, empty ones dropped, each kept once at its first place.
pub open spec fn distinct_skills(v: Seq<Seq<char>>) -> Seq<Seq<char>>
    decreases v.len(),
{
    if v.len() == 0 {
        Seq::empty()
    } else {
        let r = distinct_skills(v.drop_last());
        let t = trim(v.last());
        if t.len() == 0 || r.contains(t) {
            r
        } else {
            r.push(t)
        }
    }
}

pub fn extract_skills(data: &ResumeData) -> (r: Vec<String>)
    ensures
        strings_view(r@) == distinct_skills(data@.basic_info.skills),
{
    let v = &data.basic_info.skills;
    let mut out: Vec<Vec<char>> = Vec::new();
    let mut i: usize = 0;
    assert(strings_view(v@).take(0) =~= Seq::<Seq<char>>::empty());
    while i < v.len()
        invariant
            i <= v.len(),
            vecs_view(out@) == distinct_skills(strings_view(v@).take(i as int)),
        decreases v.len() - i,
    {
        assert(strings_view(v@).take(i + 1).drop_last() =~= strings_view(v@).take(i as int));
        let t = trim_chars(&str_chars(v[i].as_str()));
        if t.len() > 0 && !holds(&out, &t) {
            let ghost before = vecs_view(out@);
            out.push(t);
            assert(vecs_view(out@) =~= before.push(vecs_view(out@).last()));
        }
        i += 1;
    }
    assert(strings_view(v@).take(v.len() as int) =~= strings_view(v@));
    let r = crate::jd::to_strings(&out);
    r
}

/// The four chars at `i` read as a year, when they are ASCII digits.
pub open spec fn year_at(s: Seq<char>, i: int) -> Option<int> {
    if 0 <= i && i + 4 <= s.len() && all_digits(s.subrange(i, i + 4)) {
        Some(digits_value(s.subrange(i, i + 4)) as int)
    } else {
        None
    }
}

/// The index of the first ASCII digit at or after `j` (the length when none).
pub open spec fn next_digit(s: Seq<char>, j: int) -> int
    decreases s.len() - j,
{
    if j < 0 || j >= s.len() {
        if j < 0 { 0 } else { j }
    } else if crate::text::is_ascii_digit(s[j]) {
        j
    } else {
        next_digit(s, j + 1)
    }
}

/// The month after a year ending at `j`: the first one or two digits that
/// follow, when they make 1 to 12; else 1.
pub open spec fn month_after(s: Seq<char>, j: int) -> int {
    let k = next_digit(s, j);
    if k >= s.len() {
        1
    } else {
        let d = if k + 1 < s.len() && crate::text::is_ascii_digit(s[k + 1]) {
            s.subrange(k, k + 2)
        } else {
            s.subrange(k, k + 1)
        };
        let m = digits_value(d) as int;
        if 1 <= m <= 12 {
            m
        } else {
            1
        }
    }
}

/// The first year in 1950..=2100 written as four digits, from index `i` on,
/// with the month that follows it.
pub open spec fn period_start_from(s: Seq<char>, i: int) -> Option<(int, int)>
    decreases s.len() - i,
{
    if i < 0 || i + 4 > s.len() {
        None
    } else {
        match year_at(s, i) {
            Some(y) if 1950 <= y <= 2100 => Some((y, month_after(s, i + 4))),
            _ => period_start_from(s, i + 1),
        }
    }
}

proof fn lemma_next_digit(s: Seq<char>, j: int)
    requires
        0 <= j <= s.len(),
    ensures
        j <= next_digit(s, j) <= s.len(),
        next_digit(s, j) < s.len() ==> crate::text::is_ascii_digit(s[next_digit(s, j)]),
        forall|x: int| j <= x < next_digit(s, j) ==> !crate::text::is_ascii_digit(#[trigger] s[x]),
    decreases s.len() - j,
{
    if j < s.len() && !crate::text::is_ascii_digit(s[j]) {
        lemma_next_digit(s, j + 1);
    }
}

proof fn lemma_digits1(d: Seq<char>)
    requires
        d.len() == 1,
    ensures
        digits_value(d) == crate::numbers::digit_value(d[0]),
{
    assert(d.drop_last() =~= Seq::<char>::empty());
    assert(d.last() == d[0]);
    assert(digits_value(d.drop_last()) == 0);
}

proof fn lemma_digits2(d: Seq<char>)
    requires
        d.len() == 2,
    ensures
        digits_value(d) == crate::numbers::digit_value(d[0]) * 10 + crate::numbers::digit_value(d[1]),
{
    lemma_digits1(d.drop_last());
    assert(d.drop_last()[0] == d[0]);
    assert(d.last() == d[1]);
}

proof fn lemma_digits3(d: Seq<char>)
    requires
        d.len() == 3,
    ensures
        digits_value(d) == crate::numbers::digit_value(d[0]) * 100 + crate::numbers::digit_value(d[1]) * 10
            + crate::numbers::digit_value(d[2]),
{
    lemma_digits2(d.drop_last());
    assert(d.drop_last()[0] == d[0]);
    assert(d.drop_last()[1] == d[1]);
    assert(d.last() == d[2]);
}

proof fn lemma_digits4(d: Seq<char>)
    requires
        d.len() == 4,
    ensures
        digits_value(d) == crate::numbers::digit_value(d[0]) * 1000 + crate::numbers::digit_value(d[1])
            * 100 + crate::numbers::digit_value(d[2]) * 10 + crate::numbers::digit_value(d[3]),
{
    lemma_digits3(d.drop_last());
    assert(d.drop_last()[0] == d[0]);
    assert(d.drop_last()[1] == d[1]);
    assert(d.drop_last()[2] == d[2]);
    assert(d.last() == d[3]);
}

fn digit_value_exec(c: char) -> (r: i32)
    requires
        crate::text::is_ascii_digit(c),
    ensures
        r == crate::numbers::digit_value(c),
        0 <= r <= 9,
{
    ((c as u32) - ('0' as u32)) as i32
}

pub fn parse_period_start(period: &str) -> (r: Option<(i32, i32)>)
    ensures
        match r {
            Some((y, m)) => period_start_from(period@, 0) == Some((y as int, m as int)),
            None => period_start_from(period@, 0) is None,
        },
{
    let s = str_chars(period);
    if s.len() < 4 {
        return None;
    }
    let last = s.len() - 4;
    let mut i: usize = 0;
    while i <= last
        invariant
            s@ == period@,
            last == s.len() - 4,
            period_start_from(s@, 0) == period_start_from(s@, i as int),
        decreases last + 1 - i,
    {
        let ok = ascii_digit(s[i]) && ascii_digit(s[i + 1]) && ascii_digit(s[i + 2]) && ascii_digit(s[i + 3]);
        let ghost sub = s@.subrange(i as int, i + 4);
        proof {
            assert(sub[0] == s@[i as int] && sub[1] == s@[i + 1] && sub[2] == s@[i + 2] && sub[3] == s@[i + 3]);
        }
        if ok {
            let y = digit_value_exec(s[i]) * 1000 + digit_value_exec(s[i + 1]) * 100 + digit_value_exec(s[i + 2]) * 10 + digit_value_exec(s[i + 3]);
            proof {
                assert(all_digits(sub));
                lemma_digits4(sub);
            }
            if 1950 <= y && y <= 2100 {
                let mut j = i + 4;
                proof {
                    lemma_next_digit(s@, j as int);
                }
                while j < s.len() && !ascii_digit(s[j])
                    invariant
                        i + 4 <= j <= s.len(),
                        next_digit(s@, (i + 4) as int) == next_digit(s@, j as int),
                    decreases s.len() - j,
                {
                    j += 1;
                }
                let mut month: i32 = 1;
                if j < s.len() {
                    let d1 = digit_value_exec(s[j]);
                    let m = if j + 1 < s.len() && ascii_digit(s[j + 1]) {
                        let d2 = digit_value_exec(s[j + 1]);
                        proof {
                            lemma_digits2(s@.subrange(j as int, j + 2));
                        }
                        d1 * 10 + d2
                    } else {
                        proof {
                            lemma_digits1(s@.subrange(j as int, j + 1));
                        }
                        d1
                    };
                    if 1 <= m && m <= 12 {
                        month = m;
                    }
                }
                return Some((y, month));
            }
        }
        i += 1;
    }
    None
}

/// The earliest start among the periods of the work entries (by year, then
/// month).
pub open spec fn earliest_start(ws: Seq<(Seq<char>, WorkItemV)>) -> Option<(int, int)>
    decreases ws.len(),
{
    if ws.len() == 0 {
        None
    } else {
        let r = earliest_start(ws.drop_last());
        match period_start_from(ws.last().1.period, 0) {
            Some(p) => match r {
                Some(q) => if p.0 < q.0 || (p.0 == q.0 && p.1 < q.1) {
                    Some(p)
                } else {
                    Some(q)
                },
                None => Some(p),
            },
            None => r,
        }
    }
}

/// Months of work from the earliest start to `now_year`/`now_month` (may be
/// negative); `None` when no period has a start.
pub open spec fn work_months_of(ws: Seq<(Seq<char>, WorkItemV)>, now_year: int, now_month: int) -> Option<int> {
    match earliest_start(ws) {
        Some(p) => Some((now_year - p.0) * 12 + (now_month - p.1)),
        None => None,
    }
}

pub fn work_months(data: &ResumeData, now_year: i32, now_month: i32) -> (r: Option<i32>)
    requires
        -999_999 <= now_year <= 999_999,
        1 <= now_month <= 12,
    ensures
        match r {
            Some(m) => work_months_of(data@.work_experience, now_year as int, now_month as int) == Some(m as int),
            None => work_months_of(data@.work_experience, now_year as int, now_month as int) is None,
        },
{
    let ws = &data.work_experience;
    let ghost wv = data@.work_experience;
    let mut best: Option<(i32, i32)> = None;
    let mut i: usize = 0;
    assert(wv.take(0) =~= Seq::<(Seq<char>, WorkItemV)>::empty());
    while i < ws.len()
        invariant
            i <= ws.len(),
            wv == keyed_view(ws@),
            match best {
                Some(b) => earliest_start(wv.take(i as int)) == Some((b.0 as int, b.1 as int)) && 1950 <= b.0 <= 2100 && 1 <= b.1 <= 12,
                None => earliest_start(wv.take(i as int)) is None,
            },
        decreases ws.len() - i,
    {
        assert(wv.take(i + 1).drop_last() =~= wv.take(i as int));
        assert(wv.take(i + 1).last() == (ws@[i as int].0@, ws@[i as int].1@));
        match parse_period_start(ws[i].1.period.as_str()) {
            Some(p) => {
                proof {
                    lemma_period_start_range(ws@[i as int].1.period@, 0);
                }
                best = match best {
                    Some(q) => if p.0 < q.0 || (p.0 == q.0 && p.1 < q.1) {
                        Some(p)
                    } else {
                        Some(q)
                    },
                    None => Some(p),
                };
            },
            None => {},
        }
        i += 1;
    }
    assert(wv.take(ws.len() as int) =~= wv);
    match best {
        Some(b) => Some((now_year - b.0) * 12 + (now_month - b.1)),
        None => None,
    }
}

proof fn lemma_period_start_range(s: Seq<char>, i: int)
    requires
        0 <= i,
    ensures
        period_start_from(s, i) matches Some(p) ==> 1950 <= p.0 <= 2100 && 1 <= p.1 <= 12,
    decreases s.len() - i,
{
    if i + 4 <= s.len() {
        match year_at(s, i) {
            Some(y) if 1950 <= y <= 2100 => {},
            _ => lemma_period_start_range(s, i + 1),
        }
    }
}

/// The degree of highest rank among the education entries (the first of
/// equal rank), trimmed; empty when none is given.
pub open spec fn top_degree(es: Seq<EducationItemV>) -> (int, Seq<char>)
    decreases es.len(),
{
    if es.len() == 0 {
        (-1, Seq::empty())
    } else {
        let r = top_degree(es.drop_last());
        let d = trim(es.last().degree);
        if d.len() == 0 {
            r
        } else if degree_rank_of(d) > r.0 {
            (degree_rank_of(d) as int, d)
        } else {
            r
        }
    }
}

pub fn extract_top_degree(data: &ResumeData) -> (r: String)
    ensures
        r@ == top_degree(data@.basic_info.education).1,
{
    let es = &data.basic_info.education;
    let ghost ev = data@.basic_info.education;
    let mut best_rank: i32 = -1;
    let mut best: Vec<char> = Vec::new();
    let mut i: usize = 0;
    assert(ev.take(0) =~= Seq::<EducationItemV>::empty());
    while i < es.len()
        invariant
            i <= es.len(),
            ev == es@.map_values(|e: EducationItem| e@),
            top_degree(ev.take(i as int)) == (best_rank as int, best@),
            -1 <= best_rank <= 4,
        decreases es.len() - i,
    {
        assert(ev.take(i + 1).drop_last() =~= ev.take(i as int));
        assert(ev.take(i + 1).last() == es@[i as int]@);
        let d = trim_chars(&str_chars(es[i].degree.as_str()));
        if d.len() > 0 {
            let ds = chars_to_string(&d);
            let rank = degree_rank(ds.as_str());
            if rank > best_rank {
                best_rank = rank;
                best = d;
            }
        }
        i += 1;
    }
    assert(ev.take(es.len() as int) =~= ev);
    chars_to_string(&best)
}

/// The non-empty texts, in order.
pub open spec fn nonempty_texts(v: Seq<Seq<char>>) -> Seq<Seq<char>>
    decreases v.len(),
{
    if v.len() == 0 {
        Seq::empty()
    } else {
        let r = nonempty_texts(v.drop_last());
        if v.last().len() > 0 {
            r.push(v.last())
        } else {
            r
        }
    }
}

/// Company, position and description of each work entry, trimmed.
pub open spec fn work_fields(ws: Seq<(Seq<char>, WorkItemV)>) -> Seq<Seq<char>>
    decreases ws.len(),
{
    if ws.len() == 0 {
        Seq::empty()
    } else {
        let w = ws.last().1;
        work_fields(ws.drop_last()) + seq![trim(w.company), trim(w.position), trim(w.description)]
    }
}

/// Name, description and achievements of each project entry, trimmed.
pub open spec fn project_fields(ps: Seq<(Seq<char>, ProjectItemV)>) -> Seq<Seq<char>>
    decreases ps.len(),
{
    if ps.len() == 0 {
        Seq::empty()
    } else {
        let p = ps.last().1;
        project_fields(ps.drop_last()) + seq![
            trim(p.project_name),
            trim(p.project_description),
            trim(p.project_achievements),
        ]
    }
}

fn push_nonempty(out: &mut Vec<Vec<char>>, t: Vec<char>, Ghost(v): Ghost<Seq<Seq<char>>>)
    requires
        vecs_view(old(out)@) == nonempty_texts(v),
    ensures
        vecs_view(final(out)@) == nonempty_texts(v.push(t@)),
{
    assert(v.push(t@).drop_last() =~= v);
    if t.len() > 0 {
        let ghost before = vecs_view(out@);
        let ghost tv = t@;
        out.push(t);
        assert(vecs_view(out@) =~= before.push(tv));
    }
}

/// The work texts of a resume, one non-empty field per line.
pub fn build_work_text(data: &ResumeData) -> (r: String)
    ensures
        r@ == join_with(nonempty_texts(work_fields(data@.work_experience)), seq!['\n']),
{
    let ws = &data.work_experience;
    let ghost wv = data@.work_experience;
    let mut out: Vec<Vec<char>> = Vec::new();
    let mut i: usize = 0;
    assert(wv.take(0) =~= Seq::<(Seq<char>, WorkItemV)>::empty());
    while i < ws.len()
        invariant
            i <= ws.len(),
            wv == keyed_view(ws@),
            vecs_view(out@) == nonempty_texts(work_fields(wv.take(i as int))),
        decreases ws.len() - i,
    {
        let ghost f = work_fields(wv.take(i as int));
        let w = &ws[i].1;
        push_nonempty(&mut out, trim_chars(&str_chars(w.company.as_str())), Ghost(f));
        push_nonempty(&mut out, trim_chars(&str_chars(w.position.as_str())), Ghost(f.push(trim(w@.company))));
        push_nonempty(&mut out, trim_chars(&str_chars(w.description.as_str())), Ghost(f.push(trim(w@.company)).push(trim(w@.position))));
        assert(wv.take(i + 1).drop_last() =~= wv.take(i as int));
        assert(wv.take(i + 1).last().1 == w@);
        assert(work_fields(wv.take(i + 1)) =~= f.push(trim(w@.company)).push(trim(w@.position)).push(trim(w@.description)));
        i += 1;
    }
    assert(wv.take(ws.len() as int) =~= wv);
    let mut nl: Vec<char> = Vec::new();
    nl.push('\n');
    assert(nl@ =~= seq!['\n']);
    chars_to_string(&join_chars(&out, &nl))
}

/// The project texts of a resume, one non-empty field per line.
pub fn build_project_text(data: &ResumeData) -> (r: String)
    ensures
        r@ == join_with(nonempty_texts(project_fields(data@.project_experience)), seq!['\n']),
{
    let ps = &data.project_experience;
    let ghost pv = data@.project_experience;
    let mut out: Vec<Vec<char>> = Vec::new();
    let mut i: usize = 0;
    assert(pv.take(0) =~= Seq::<(Seq<char>, ProjectItemV)>::empty());
    while i < ps.len()
        invariant
            i <= ps.len(),
            pv == keyed_view(ps@),
            vecs_view(out@) == nonempty_texts(project_fields(pv.take(i as int))),
        decreases ps.len() - i,
    {
        let ghost f = project_fields(pv.take(i as int));
        let p = &ps[i].1;
        push_nonempty(&mut out, trim_chars(&str_chars(p.project_name.as_str())), Ghost(f));
        push_nonempty(&mut out, trim_chars(&str_chars(p.project_description.as_str())), Ghost(f.push(trim(p@.project_name))));
        push_nonempty(&mut out, trim_chars(&str_chars(p.project_achievements.as_str())), Ghost(f.push(trim(p@.project_name)).push(trim(p@.project_description))));
        assert(pv.take(i + 1).drop_last() =~= pv.take(i as int));
        assert(pv.take(i + 1).last().1 == p@);
        assert(project_fields(pv.take(i + 1)) =~= f.push(trim(p@.project_name)).push(trim(p@.project_description)).push(trim(p@.project_achievements)));
        i += 1;
    }
    assert(pv.take(ps.len() as int) =~= pv);
    let mut nl: Vec<char> = Vec::new();
    nl.push('\n');
    assert(nl@ =~= seq!['\n']);
    chars_to_string(&join_chars(&out, &nl))
}

// ---------------------------------------------------------------- parsed records

pub open spec fn opt_text(o: Option<String>) -> Option<Seq<char>> {
    match o {
        Some(s) => Some(s@),
        None => None,
    }
}

/// An earlier parsed record is replaced by a new parse of the resume `resume_id`
/// (when not blank) of the person with identity key `new_identity`, or with
/// fallback key `new_fallback`, when it shares the resume id or either key.
pub open spec fn parsed_replaced(
    resume_id: Seq<char>,
    new_identity: Option<Seq<char>>,
    new_fallback: Option<Seq<char>>,
    old: ParsedResultRecord,
) -> bool {
    ||| trim(resume_id).len() > 0 && opt_text(old.resume_id) == Some(resume_id)
    ||| new_identity is Some && identity_key_of(old.candidate_name@, old.age@, old.contact@)
        == new_identity
    ||| new_fallback is Some && fallback_key_of(old.candidate_name@, old.source_file@)
        == new_fallback
}

/// The positions of the earlier records replaced, in order.
pub open spec fn parsed_replaced_positions(
    resume_id: Seq<char>,
    new_identity: Option<Seq<char>>,
    new_fallback: Option<Seq<char>>,
    olds: Seq<ParsedResultRecord>,
) -> Seq<int>
    decreases olds.len(),
{
    if olds.len() == 0 {
        Seq::empty()
    } else {
        let r = parsed_replaced_positions(resume_id, new_identity, new_fallback, olds.drop_last());
        if parsed_replaced(resume_id, new_identity, new_fallback, olds.last()) {
            r.push(olds.len() - 1)
        } else {
            r
        }
    }
}

/// The identity key of a newly parsed resume, from its trimmed basic fields.
pub open spec fn parsed_identity(data: ResumeDataV) -> Option<Seq<char>> {
    identity_key_of(
        trim(data.basic_info.name),
        trim(data.basic_info.age),
        trim(data.basic_info.contact),
    )
}

/// The fallback key of a newly parsed resume.
pub open spec fn parsed_fallback(data: ResumeDataV, source_file: Seq<char>) -> Option<Seq<char>> {
    fallback_key_of(trim(data.basic_info.name), source_file)
}

/// The positions of the earlier parsed records that a new parse of `data`
/// from `source_file` (for resume `resume_id`, blank when none) replaces.
pub fn parsed_records_to_replace(
    existing: &Vec<ParsedResultRecord>,
    source_file: &str,
    resume_id: &str,
    data: &ResumeData,
) -> (r: Vec<usize>)
    ensures
        r@.map_values(|p: usize| p as int) == parsed_replaced_positions(
            resume_id@,
            parsed_identity(data@),
            parsed_fallback(data@, source_file@),
            existing@,
        ),
{
    let name = chars_to_string(&trim_chars(&str_chars(data.basic_info.name.as_str())));
    let age = chars_to_string(&trim_chars(&str_chars(data.basic_info.age.as_str())));
    let contact = chars_to_string(&trim_chars(&str_chars(data.basic_info.contact.as_str())));
    let nk = identity_key(name.as_str(), age.as_str(), contact.as_str());
    let fk = fallback_identity_key(name.as_str(), source_file);
    let has_id = trim_chars(&str_chars(resume_id)).len() > 0;
    let rid: Option<String> = Some(resume_id.to_owned());
    let ghost ni = parsed_identity(data@);
    let ghost nf = parsed_fallback(data@, source_file@);
    let mut r: Vec<usize> = Vec::new();
    let mut i: usize = 0;
    assert(existing@.take(0) =~= Seq::<ParsedResultRecord>::empty());
    while i < existing.len()
        invariant
            i <= existing.len(),
            ni == parsed_identity(data@),
            nf == parsed_fallback(data@, source_file@),
            nk matches Some(k) ==> ni == Some(k@),
            nk is None ==> ni is None,
            fk matches Some(k) ==> nf == Some(k@),
            fk is None ==> nf is None,
            has_id == (trim(resume_id@).len() > 0),
            opt_text(rid) == Some(resume_id@),
            r@.map_values(|p: usize| p as int) == parsed_replaced_positions(
                resume_id@,
                ni,
                nf,
                existing@.take(i as int),
            ),
        decreases existing.len() - i,
    {
        let old = &existing[i];
        assert(existing@.take(i + 1).drop_last() =~= existing@.take(i as int));
        assert(existing@.take(i + 1).last() == *old);
        let by_id = has_id && opt_eq(&old.resume_id, &rid);
        let by_identity = match &nk {
            Some(k) => match identity_key(
                old.candidate_name.as_str(),
                old.age.as_str(),
                old.contact.as_str(),
            ) {
                Some(ok) => chars_eq(&str_chars(ok.as_str()), &str_chars(k.as_str())),
                None => false,
            },
            None => false,
        };
        let by_fallback = match &fk {
            Some(k) => match fallback_identity_key(old.candidate_name.as_str(), old.source_file.as_str()) {
                Some(ok) => chars_eq(&str_chars(ok.as_str()), &str_chars(k.as_str())),
                None => false,
            },
            None => false,
        };
        if by_id || by_identity || by_fallback {
            proof {
                lemma_map_push(r@, i, |p: usize| p as int);
            }
            r.push(i);
        }
        i += 1;
    }
    assert(existing@.take(i as int) =~= existing@);
    r
}

/// A new parsed-result record for `data`, with the given id, times and work
/// years text; no stored paths yet.
pub fn parsed_result_record(
    id: String,
    created_at: String,
    imported_date: String,
    source_file: String,
    resume_id: String,
    data: &ResumeData,
    work_years: String,
) -> (r: ParsedResultRecord)
    ensures
        r.id@ == id@,
        r.created_at@ == created_at@,
        r.imported_date@ == imported_date@,
        trim(resume_id@).len() == 0 ==> r.resume_id is None,
        trim(resume_id@).len() > 0 ==> opt_text(r.resume_id) == Some(resume_id@),
        r.source_file@ == source_file@,
        r.candidate_name@ == trim(data@.basic_info.name),
        r.age@ == trim(data@.basic_info.age),
        r.contact@ == trim(data@.basic_info.contact),
        r.position@ == primary_position(data@.work_experience),
        r.degree@ == top_degree(data@.basic_info.education).1,
        r.work_years@ == work_years@,
        strings_view(r.skills@) == distinct_skills(data@.basic_info.skills),
        r.json_path@.len() == 0,
        r.jd_screening_json_path@.len() == 0,
{
    let rid = if trim_chars(&str_chars(resume_id.as_str())).len() == 0 {
        None
    } else {
        Some(resume_id)
    };
    ParsedResultRecord {
        id,
        created_at,
        imported_date,
        resume_id: rid,
        source_file,
        candidate_name: chars_to_string(&trim_chars(&str_chars(data.basic_info.name.as_str()))),
        age: chars_to_string(&trim_chars(&str_chars(data.basic_info.age.as_str()))),
        contact: chars_to_string(&trim_chars(&str_chars(data.basic_info.contact.as_str()))),
        position: extract_primary_position(data),
        degree: extract_top_degree(data),
        work_years,
        skills: extract_skills(data),
        json_path: String::new(),
        jd_screening_json_path: String::new(),
    }
}

/// A newly saved resume replaces only entries that are in the library: every
/// replaced id is the id of an existing entry.
pub proof fn law_replaced_ids_exist(
    new_data: ResumeDataV,
    source_file: Seq<char>,
    es: Seq<(Seq<char>, Seq<char>, ResumeDataV)>,
)
    ensures
        replaced_ids(new_data, source_file, es).len() <= es.len(),
        forall|k: int|
            0 <= k < replaced_ids(new_data, source_file, es).len() ==> exists|j: int|
                0 <= j < es.len() && es[j].0 == #[trigger] replaced_ids(new_data, source_file, es)[k],
    decreases es.len(),
{
    if es.len() > 0 {
        law_replaced_ids_exist(new_data, source_file, es.drop_last());
        let r = replaced_ids(new_data, source_file, es.drop_last());
        assert forall|k: int| 0 <= k < replaced_ids(new_data, source_file, es).len() implies exists|
            j: int,
        | 0 <= j < es.len() && es[j].0 == #[trigger] replaced_ids(new_data, source_file, es)[k] by {
            if k < r.len() {
                assert(replaced_ids(new_data, source_file, es)[k] == r[k]);
                let j = choose|j: int|
                    0 <= j < es.drop_last().len() && es.drop_last()[j].0 == r[k];
                assert(es[j].0 == r[k]);
            } else {
                assert(es[es.len() - 1].0 == replaced_ids(new_data, source_file, es)[k]);
            }
        }
    }
}

/// A resume saved for a person whose name, age and contact are all given
/// replaces every library entry with the same name, age and contact.
pub proof fn law_same_person_replaced(
    new_data: ResumeDataV,
    source_file: Seq<char>,
    es: Seq<(Seq<char>, Seq<char>, ResumeDataV)>,
    j: int,
)
    requires
        0 <= j < es.len(),
        identity_key_of(new_data.basic_info.name, new_data.basic_info.age, new_data.basic_info.contact)
            is Some,
        identity_key_of(es[j].2.basic_info.name, es[j].2.basic_info.age, es[j].2.basic_info.contact)
            == identity_key_of(
            new_data.basic_info.name,
            new_data.basic_info.age,
            new_data.basic_info.contact,
        ),
    ensures
        replaced_ids(new_data, source_file, es).contains(es[j].0),
    decreases es.len(),
{
    let r = replaced_ids(new_data, source_file, es.drop_last());
    if j == es.len() - 1 {
        assert(replaced_by(new_data, source_file, es.last()));
        assert(replaced_ids(new_data, source_file, es) == r.push(es.last().0));
        assert(r.push(es.last().0)[r.len() as int] == es[j].0);
    } else {
        assert(es.drop_last()[j] == es[j]);
        law_same_person_replaced(new_data, source_file, es.drop_last(), j);
        let k = choose|k: int| 0 <= k < r.len() && r[k] == es[j].0;
        if replaced_by(new_data, source_file, es.last()) {
            assert(r.push(es.last().0)[k] == es[j].0);
        }
    }
}

} // verus!
