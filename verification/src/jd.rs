//! Keyword scoring of a resume against a job description: keyword extraction,
//! keyword matching (word boundaries for Latin keywords, bigram overlap for
//! CJK keywords) and the integer parts of the structured score.

use crate::schema::{
    strings_view, EducationItem, JdScoreResult, ProjectItem, ResumeData, WorkItem,
};
use crate::search::{char_span_at, char_span_of, regex_find_all, regex_find_spans};
use crate::strset::{
    law_sorted_set_of, lex_lt, set_insert, sorted_insert, sorted_set_from, sorted_set_of, sorted_strict, take_at_most,
};
use crate::text::{
    ascii_alnum, ascii_alpha, ascii_digit, ascii_lower, ascii_ws, chars_eq, chars_to_string,
    contains_chars, contains_seq, find_from, first_match, is_ascii_alnum, is_ascii_alpha,
    is_ascii_digit, is_ascii_ws, join_chars, join_with, lemma_first_match, lemma_join_with_holds_parts,
    lemma_lower_trim_contains,
    lower, lowercase_chars,
    matches_at, replace_all, replace_chars, slice_chars, str_chars, trim, trim_chars,
    unicode_lower, utf8_len, utf8_len_of, vecs_view,
};
use vstd::prelude::*;

verus! {

// ---------------------------------------------------------------- matching

/// The CJK blocks that keyword bigrams are drawn from.
pub open spec fn is_cjk(c: char) -> bool {
    ||| ('\u{4E00}' <= c && c <= '\u{9FFF}')
    ||| ('\u{3400}' <= c && c <= '\u{4DBF}')
    ||| ('\u{F900}' <= c && c <= '\u{FAFF}')
    ||| ('\u{2E80}' <= c && c <= '\u{2FDF}')
}

fn cjk(c: char) -> (r: bool)
    ensures
        r == is_cjk(c),
{
    ('\u{4E00}' <= c && c <= '\u{9FFF}') || ('\u{3400}' <= c && c <= '\u{4DBF}') || ('\u{F900}'
        <= c && c <= '\u{FAFF}') || ('\u{2E80}' <= c && c <= '\u{2FDF}')
}

/// The CJK chars of `s`, in order.
pub open spec fn cjk_chars(s: Seq<char>) -> Seq<char>
    decreases s.len(),
{
    if s.len() == 0 {
        s
    } else if is_cjk(s.last()) {
        cjk_chars(s.drop_last()).push(s.last())
    } else {
        cjk_chars(s.drop_last())
    }
}

/// The pairs of neighbouring chars of `s` that are both CJK, in order: the
/// bigrams inside each run of consecutive CJK chars.
pub open spec fn adjacent_cjk_pairs(s: Seq<char>) -> Seq<Seq<char>>
    decreases s.len(),
{
    if s.len() < 2 {
        Seq::empty()
    } else {
        let r = adjacent_cjk_pairs(s.drop_last());
        let a = s[s.len() - 2];
        let b = s.last();
        if is_cjk(a) && is_cjk(b) {
            r.push(seq![a, b])
        } else {
            r
        }
    }
}

/// The bigrams of each run of consecutive CJK chars of `s`; with fewer than
/// two CJK chars in all, each CJK char alone.
pub open spec fn cjk_bigrams(s: Seq<char>) -> Seq<Seq<char>> {
    let c = cjk_chars(s);
    if c.len() < 2 {
        Seq::new(c.len(), |i: int| seq![c[i]])
    } else {
        adjacent_cjk_pairs(s)
    }
}

/// How many items of `a` (counted with repetition) occur in `b`.
pub open spec fn count_found(a: Seq<Seq<char>>, b: Seq<Seq<char>>) -> nat
    decreases a.len(),
{
    if a.len() == 0 {
        0
    } else {
        count_found(a.drop_last(), b) + if b.contains(a.last()) {
            1nat
        } else {
            0nat
        }
    }
}

/// An ASCII char.
pub open spec fn is_ascii_char(c: char) -> bool {
    c <= '\u{7F}'
}

fn all_ascii(k: &Vec<char>) -> (r: bool)
    ensures
        r == forall|i: int| 0 <= i < k.len() ==> is_ascii_char(#[trigger] k@[i]),
{
    let mut i: usize = 0;
    while i < k.len()
        invariant
            i <= k.len(),
            forall|j: int| 0 <= j < i ==> is_ascii_char(#[trigger] k@[j]),
        decreases k.len() - i,
    {
        if k[i] > '\u{7F}' {
            return false;
        }
        i += 1;
    }
    true
}

/// `s` without its ASCII white space.
pub open spec fn drop_ascii_ws(s: Seq<char>) -> Seq<char>
    decreases s.len(),
{
    if s.len() == 0 {
        s
    } else if is_ascii_ws(s.last()) {
        drop_ascii_ws(s.drop_last())
    } else {
        drop_ascii_ws(s.drop_last()).push(s.last())
    }
}

/// `k` occurs in `t` at `i` with no ASCII letter or digit right before or right after it.
pub open spec fn word_at(t: Seq<char>, k: Seq<char>, i: int) -> bool {
    &&& matches_at(t, k, i)
    &&& (i == 0 || !is_ascii_alnum(t[i - 1]))
    &&& (i + k.len() >= t.len() || !is_ascii_alnum(t[i + k.len()]))
}

/// `k` occurs in `t` as a whole word (so `java` is not found in `javascript`).
pub open spec fn word_found(t: Seq<char>, k: Seq<char>) -> bool {
    exists|i: int| #[trigger] word_at(t, k, i)
}

/// Whether keyword `kw` is found in `text`. The keyword is trimmed; an empty
/// keyword is never found. An English keyword (ASCII chars only, with an
/// ASCII letter) is looked for as a whole word, ignoring ASCII case. A keyword
/// of CJK chars (and ASCII spaces)
/// is found when at least three fifths of its bigrams occur among the bigrams
/// of the text (one char: when it occurs in the text). Any other keyword, such
/// as one mixing English letters with Chinese (`C++开发`), is looked for as a
/// substring, ignoring ASCII case.
pub open spec fn word_match(text: Seq<char>, kw: Seq<char>) -> bool {
    let k = trim(kw);
    if k.len() == 0 {
        false
    } else if (exists|i: int| 0 <= i < k.len() && is_ascii_alpha(#[trigger] k[i])) && (forall|i: int|
        0 <= i < k.len() ==> is_ascii_char(#[trigger] k[i])) {
        word_found(lower(text), lower(k))
    } else if forall|i: int| 0 <= i < k.len() ==> is_cjk(#[trigger] k[i]) || is_ascii_ws(k[i]) {
        let clean = drop_ascii_ws(k);
        if clean.len() <= 1 {
            contains_seq(text, clean)
        } else {
            let kb = cjk_bigrams(clean);
            if kb.len() == 0 {
                contains_seq(text, clean)
            } else {
                5 * count_found(kb, cjk_bigrams(text)) >= 3 * kb.len()
            }
        }
    } else {
        contains_seq(lower(text), lower(k))
    }
}

fn cjk_bigrams_exec(s: &Vec<char>) -> (r: Vec<Vec<char>>)
    ensures
        vecs_view(r@) == cjk_bigrams(s@),
{
    let mut c: Vec<char> = Vec::new();
    let mut i: usize = 0;
    assert(s@.take(0) =~= Seq::<char>::empty());
    while i < s.len()
        invariant
            i <= s.len(),
            c@ == cjk_chars(s@.take(i as int)),
        decreases s.len() - i,
    {
        assert(s@.take(i + 1).drop_last() =~= s@.take(i as int));
        if cjk(s[i]) {
            c.push(s[i]);
        }
        i += 1;
    }
    assert(s@.take(s.len() as int) =~= s@);
    let mut out: Vec<Vec<char>> = Vec::new();
    if c.len() < 2 {
        let mut k: usize = 0;
        while k < c.len()
            invariant
                k <= c.len(),
                c@ == cjk_chars(s@),
                c.len() < 2,
                vecs_view(out@) =~= Seq::new(k as nat, |j: int| seq![c@[j]]),
            decreases c.len() - k,
        {
            let mut one: Vec<char> = Vec::new();
            one.push(c[k]);
            assert(one@ =~= seq![c@[k as int]]);
            let ghost before = vecs_view(out@);
            out.push(one);
            assert(vecs_view(out@) =~= before.push(seq![c@[k as int]]));
            k += 1;
            assert(vecs_view(out@) =~= Seq::new(k as nat, |j: int| seq![c@[j]]));
        }
    } else {
        let mut i: usize = 0;
        assert(vecs_view(out@) =~= adjacent_cjk_pairs(s@.take(0)));
        while i < s.len()
            invariant
                i <= s.len(),
                vecs_view(out@) == adjacent_cjk_pairs(s@.take(i as int)),
            decreases s.len() - i,
        {
            let ghost before = vecs_view(out@);
            assert(s@.take(i + 1).drop_last() =~= s@.take(i as int));
            if i >= 1 && cjk(s[i - 1]) && cjk(s[i]) {
                let mut two: Vec<char> = Vec::new();
                two.push(s[i - 1]);
                two.push(s[i]);
                assert(two@ =~= seq![s@[i - 1], s@[i as int]]);
                out.push(two);
                assert(vecs_view(out@) =~= before.push(seq![s@[i - 1], s@[i as int]]));
            }
            i += 1;
        }
        assert(s@.take(s.len() as int) =~= s@);
    }
    out
}

/// `b` holds an item equal to `x`.
fn holds(b: &Vec<Vec<char>>, x: &Vec<char>) -> (r: bool)
    ensures
        r == vecs_view(b@).contains(x@),
{
    let mut i: usize = 0;
    while i < b.len()
        invariant
            i <= b.len(),
            forall|k: int| 0 <= k < i ==> vecs_view(b@)[k] != x@,
        decreases b.len() - i,
    {
        if chars_eq(&b[i], x) {
            assert(vecs_view(b@)[i as int] == x@);
            return true;
        }
        i += 1;
    }
    false
}

fn count_found_exec(a: &Vec<Vec<char>>, b: &Vec<Vec<char>>) -> (r: usize)
    ensures
        r == count_found(vecs_view(a@), vecs_view(b@)),
        r <= a.len(),
{
    let mut n: usize = 0;
    let mut i: usize = 0;
    assert(vecs_view(a@).take(0) =~= Seq::<Seq<char>>::empty());
    while i < a.len()
        invariant
            i <= a.len(),
            n <= i,
            n == count_found(vecs_view(a@).take(i as int), vecs_view(b@)),
        decreases a.len() - i,
    {
        assert(vecs_view(a@).take(i + 1).drop_last() =~= vecs_view(a@).take(i as int));
        if holds(b, &a[i]) {
            n += 1;
        }
        i += 1;
    }
    assert(vecs_view(a@).take(a.len() as int) =~= vecs_view(a@));
    n
}

fn drop_ascii_ws_exec(s: &Vec<char>) -> (r: Vec<char>)
    ensures
        r@ == drop_ascii_ws(s@),
{
    let mut r: Vec<char> = Vec::new();
    let mut i: usize = 0;
    assert(s@.take(0) =~= Seq::<char>::empty());
    while i < s.len()
        invariant
            i <= s.len(),
            r@ == drop_ascii_ws(s@.take(i as int)),
        decreases s.len() - i,
    {
        assert(s@.take(i + 1).drop_last() =~= s@.take(i as int));
        if !ascii_ws(s[i]) {
            r.push(s[i]);
        }
        i += 1;
    }
    assert(s@.take(s.len() as int) =~= s@);
    r
}

/// Whole-word search, resumed one char after each occurrence that fails the
/// boundary test.
fn match_english_keyword(t: &Vec<char>, k: &Vec<char>) -> (r: bool)
    requires
        k.len() > 0,
    ensures
        r == word_found(t@, k@),
{
    let mut start: usize = 0;
    while start <= t.len()
        invariant
            k.len() > 0,
            forall|i: int| 0 <= i < start ==> !#[trigger] word_at(t@, k@, i),
        decreases t.len() + 1 - start,
    {
        let found = find_from(t, k, start);
        proof {
            lemma_first_match(t@, k@, start as int);
        }
        match found {
            None => {
                assert(!word_found(t@, k@)) by {
                    if word_found(t@, k@) {
                        let i = choose|i: int| #[trigger] word_at(t@, k@, i);
                        assert(i >= start);
                    }
                }
                return false;
            },
            Some(abs) => {
                let before_ok = abs == 0 || !ascii_alnum(t[abs - 1]);
                let after = abs + k.len();
                let after_ok = after >= t.len() || !ascii_alnum(t[after]);
                if before_ok && after_ok {
                    assert(word_at(t@, k@, abs as int));
                    return true;
                }
                assert forall|i: int| 0 <= i < abs + 1 implies !#[trigger] word_at(t@, k@, i) by {
                    if i >= start && i < abs {
                        assert(!matches_at(t@, k@, i));
                    }
                }
                start = abs + 1;
            },
        }
    }
    assert(!word_found(t@, k@)) by {
        if word_found(t@, k@) {
            let i = choose|i: int| #[trigger] word_at(t@, k@, i);
            assert(i < start);
        }
    }
    false
}

fn has_ascii_alpha(k: &Vec<char>) -> (r: bool)
    ensures
        r == exists|i: int| 0 <= i < k.len() && is_ascii_alpha(#[trigger] k@[i]),
{
    let mut i: usize = 0;
    while i < k.len()
        invariant
            i <= k.len(),
            forall|j: int| 0 <= j < i ==> !is_ascii_alpha(#[trigger] k@[j]),
        decreases k.len() - i,
    {
        if ascii_alpha(k[i]) {
            return true;
        }
        i += 1;
    }
    false
}

fn all_cjk_or_ws(k: &Vec<char>) -> (r: bool)
    ensures
        r == forall|i: int| 0 <= i < k.len() ==> is_cjk(#[trigger] k@[i]) || is_ascii_ws(k@[i]),
{
    let mut i: usize = 0;
    while i < k.len()
        invariant
            i <= k.len(),
            forall|j: int| 0 <= j < i ==> is_cjk(#[trigger] k@[j]) || is_ascii_ws(k@[j]),
        decreases k.len() - i,
    {
        if !cjk(k[i]) && !ascii_ws(k[i]) {
            return false;
        }
        i += 1;
    }
    true
}

/// Whether keyword `kw` is found in `text`, as `word_match` states it.
pub fn keyword_found(text: &Vec<char>, kw: &Vec<char>) -> (r: bool)
    ensures
        r == word_match(text@, kw@),
{
    let k = trim_chars(kw);
    if k.len() == 0 {
        return false;
    }
    if has_ascii_alpha(&k) && all_ascii(&k) {
        let tl = ascii_lower(text);
        let kl = ascii_lower(&k);
        return match_english_keyword(&tl, &kl);
    }
    if all_cjk_or_ws(&k) {
        let clean = drop_ascii_ws_exec(&k);
        if clean.len() <= 1 {
            return contains_chars(text, &clean);
        }
        let kb = cjk_bigrams_exec(&clean);
        if kb.len() == 0 {
            return contains_chars(text, &clean);
        }
        let tb = cjk_bigrams_exec(text);
        let m = count_found_exec(&kb, &tb);
        let n = kb.len();
        return (m as u128) * 5 >= (n as u128) * 3;
    }
    let tl = ascii_lower(text);
    let kl = ascii_lower(&k);
    contains_chars(&tl, &kl)
}


// ---------------------------------------------------------------- weights

/// Language keywords, weighted 6.
pub open spec fn weight_six(l: Seq<char>) -> bool {
    ||| l == "java"@ || l == "python"@ || l == "golang"@ || l == "go"@ || l == "rust"@
    ||| l == "c++"@ || l == "c#"@ || l == "javascript"@ || l == "typescript"@
}

/// Framework and platform keywords, weighted 5.
pub open spec fn weight_five(l: Seq<char>) -> bool {
    ||| l == "spring"@ || l == "django"@ || l == "flask"@ || l == "react"@ || l == "vue"@
    ||| l == "node"@ || l == "nodejs"@ || l == "kubernetes"@ || l == "docker"@
}

/// Data store and stream keywords, weighted 4.
pub open spec fn weight_four(l: Seq<char>) -> bool {
    ||| l == "mysql"@ || l == "postgres"@ || l == "redis"@ || l == "mongodb"@
    ||| l == "elasticsearch"@ || l == "kafka"@ || l == "spark"@
}

/// The weight of a matched keyword, looked up by its lowercase form; 2 for
/// keywords outside the table.
pub open spec fn keyword_weight(kw: Seq<char>) -> i32 {
    let l = unicode_lower(kw);
    if weight_six(l) {
        6
    } else if weight_five(l) {
        5
    } else if weight_four(l) {
        4
    } else {
        2
    }
}

fn eq_lit(a: &Vec<char>, s: &str) -> (r: bool)
    ensures
        r == (a@ == s@),
{
    let b = str_chars(s);
    chars_eq(a, &b)
}

fn weight_of(kw: &Vec<char>) -> (w: i32)
    ensures
        w == keyword_weight(kw@),
        2 <= w <= 6,
{
    let l = lowercase_chars(kw);
    if eq_lit(&l, "java") || eq_lit(&l, "python") || eq_lit(&l, "golang") || eq_lit(&l, "go")
        || eq_lit(&l, "rust") || eq_lit(&l, "c++") || eq_lit(&l, "c#") || eq_lit(&l, "javascript")
        || eq_lit(&l, "typescript") {
        6
    } else if eq_lit(&l, "spring") || eq_lit(&l, "django") || eq_lit(&l, "flask") || eq_lit(
        &l,
        "react",
    ) || eq_lit(&l, "vue") || eq_lit(&l, "node") || eq_lit(&l, "nodejs") || eq_lit(
        &l,
        "kubernetes",
    ) || eq_lit(&l, "docker") {
        5
    } else if eq_lit(&l, "mysql") || eq_lit(&l, "postgres") || eq_lit(&l, "redis") || eq_lit(
        &l,
        "mongodb",
    ) || eq_lit(&l, "elasticsearch") || eq_lit(&l, "kafka") || eq_lit(&l, "spark") {
        4
    } else {
        2
    }
}

// ---------------------------------------------------------------- resume text

/// School, major, degree and period of each education entry.
pub open spec fn education_parts(es: Seq<EducationItem>) -> Seq<Seq<char>>
    decreases es.len(),
{
    if es.len() == 0 {
        Seq::empty()
    } else {
        let e = es.last();
        education_parts(es.drop_last()) + seq![e.school@, e.major@, e.degree@, e.period@]
    }
}

/// Company, position, period and description of each work entry.
pub open spec fn work_parts(ws: Seq<(String, WorkItem)>) -> Seq<Seq<char>>
    decreases ws.len(),
{
    if ws.len() == 0 {
        Seq::empty()
    } else {
        let w = ws.last().1;
        work_parts(ws.drop_last()) + seq![w.company@, w.position@, w.period@, w.description@]
    }
}

/// Name, description and achievements of each project entry.
pub open spec fn project_parts(ps: Seq<(String, ProjectItem)>) -> Seq<Seq<char>>
    decreases ps.len(),
{
    if ps.len() == 0 {
        Seq::empty()
    } else {
        let p = ps.last().1;
        project_parts(ps.drop_last()) + seq![
            p.project_name@,
            p.project_description@,
            p.project_achievements@,
        ]
    }
}

/// The fields of a resume that keywords are looked for in, in order.
pub open spec fn resume_parts(r: ResumeData) -> Seq<Seq<char>> {
    seq![r.basic_info.name@, r.basic_info.age@, r.basic_info.gender@] + education_parts(
        r.basic_info.education@,
    ) + strings_view(r.basic_info.skills@) + strings_view(r.basic_info.certificates@)
        + work_parts(r.work_experience@) + project_parts(r.project_experience@)
}

/// The resume as one lowercase text, one field per line.
pub open spec fn resume_text(r: ResumeData) -> Seq<char> {
    unicode_lower(join_with(resume_parts(r), seq!['\n']))
}

proof fn lemma_education_parts_at(es: Seq<EducationItem>)
    ensures
        education_parts(es).len() == 4 * es.len(),
        forall|i: int|
            0 <= i < es.len() ==> {
                &&& education_parts(es)[4 * i] == (#[trigger] es[i]).school@
                &&& education_parts(es)[4 * i + 1] == es[i].major@
                &&& education_parts(es)[4 * i + 2] == es[i].degree@
                &&& education_parts(es)[4 * i + 3] == es[i].period@
            },
    decreases es.len(),
{
    if es.len() > 0 {
        lemma_education_parts_at(es.drop_last());
        assert forall|i: int| 0 <= i < es.len() - 1 implies es.drop_last()[i] == (#[trigger] es[i]) by {}
    }
}

proof fn lemma_work_parts_at(ws: Seq<(String, WorkItem)>)
    ensures
        work_parts(ws).len() == 4 * ws.len(),
        forall|i: int|
            0 <= i < ws.len() ==> {
                &&& work_parts(ws)[4 * i] == (#[trigger] ws[i]).1.company@
                &&& work_parts(ws)[4 * i + 1] == ws[i].1.position@
                &&& work_parts(ws)[4 * i + 2] == ws[i].1.period@
                &&& work_parts(ws)[4 * i + 3] == ws[i].1.description@
            },
    decreases ws.len(),
{
    if ws.len() > 0 {
        lemma_work_parts_at(ws.drop_last());
        assert forall|i: int| 0 <= i < ws.len() - 1 implies ws.drop_last()[i] == (#[trigger] ws[i]) by {}
    }
}

proof fn lemma_project_parts_at(ps: Seq<(String, ProjectItem)>)
    ensures
        project_parts(ps).len() == 3 * ps.len(),
        forall|i: int|
            0 <= i < ps.len() ==> {
                &&& project_parts(ps)[3 * i] == (#[trigger] ps[i]).1.project_name@
                &&& project_parts(ps)[3 * i + 1] == ps[i].1.project_description@
                &&& project_parts(ps)[3 * i + 2] == ps[i].1.project_achievements@
            },
    decreases ps.len(),
{
    if ps.len() > 0 {
        lemma_project_parts_at(ps.drop_last());
        assert forall|i: int| 0 <= i < ps.len() - 1 implies ps.drop_last()[i] == (#[trigger] ps[i]) by {}
    }
}

/// A field the resume text is made of: one of its lines, and so part of the
/// text matched against.
pub open spec fn resume_line(r: ResumeData, x: Seq<char>) -> bool {
    resume_parts(r).contains(x) && contains_seq(join_with(resume_parts(r), seq!['\n']), x)
}

/// The resume text that keywords are matched against holds, each as a line of
/// its own, the name, age and gender, every field of every education, work and
/// project entry, and every skill and certificate.
pub proof fn law_resume_text_holds_every_field(r: ResumeData)
    ensures
        resume_line(r, r.basic_info.name@),
        resume_line(r, r.basic_info.age@),
        resume_line(r, r.basic_info.gender@),
        forall|i: int|
            0 <= i < r.basic_info.education.len() ==> {
                &&& resume_line(r, (#[trigger] r.basic_info.education@[i]).school@)
                &&& resume_line(r, r.basic_info.education@[i].major@)
                &&& resume_line(r, r.basic_info.education@[i].degree@)
                &&& resume_line(r, r.basic_info.education@[i].period@)
            },
        forall|i: int| 0 <= i < r.basic_info.skills.len() ==> resume_line(r, (#[trigger] r.basic_info.skills@[i])@),
        forall|i: int|
            0 <= i < r.basic_info.certificates.len() ==> resume_line(r, (#[trigger] r.basic_info.certificates@[i])@),
        forall|i: int|
            0 <= i < r.work_experience.len() ==> {
                &&& resume_line(r, (#[trigger] r.work_experience@[i]).1.company@)
                &&& resume_line(r, r.work_experience@[i].1.position@)
                &&& resume_line(r, r.work_experience@[i].1.period@)
                &&& resume_line(r, r.work_experience@[i].1.description@)
            },
        forall|i: int|
            0 <= i < r.project_experience.len() ==> {
                &&& resume_line(r, (#[trigger] r.project_experience@[i]).1.project_name@)
                &&& resume_line(r, r.project_experience@[i].1.project_description@)
                &&& resume_line(r, r.project_experience@[i].1.project_achievements@)
            },
{
    let parts = resume_parts(r);
    let es = r.basic_info.education@;
    let ws = r.work_experience@;
    let ps = r.project_experience@;
    let sk = strings_view(r.basic_info.skills@);
    let ce = strings_view(r.basic_info.certificates@);
    lemma_education_parts_at(es);
    lemma_work_parts_at(ws);
    lemma_project_parts_at(ps);
    let ep = education_parts(es);
    let wp = work_parts(ws);
    let pp = project_parts(ps);
    let o1: int = 3;
    let o2: int = o1 + ep.len();
    let o3: int = o2 + sk.len();
    let o4: int = o3 + ce.len();
    let o5: int = o4 + wp.len();
    assert forall|k: int| 0 <= k < parts.len() implies resume_line(r, #[trigger] parts[k]) by {
        lemma_join_with_holds_parts(parts, seq!['\n'], k);
    }
    assert(parts[0] == r.basic_info.name@ && parts[1] == r.basic_info.age@ && parts[2] == r.basic_info.gender@);
    assert forall|i: int| 0 <= i < es.len() implies {
        &&& parts[o1 + 4 * i] == (#[trigger] es[i]).school@
        &&& parts[o1 + 4 * i + 1] == es[i].major@
        &&& parts[o1 + 4 * i + 2] == es[i].degree@
        &&& parts[o1 + 4 * i + 3] == es[i].period@
    } by {}
    assert forall|i: int| 0 <= i < sk.len() implies parts[o2 + i] == #[trigger] sk[i] by {}
    assert forall|i: int| 0 <= i < ce.len() implies parts[o3 + i] == #[trigger] ce[i] by {}
    assert forall|i: int| 0 <= i < ws.len() implies {
        &&& parts[o4 + 4 * i] == (#[trigger] ws[i]).1.company@
        &&& parts[o4 + 4 * i + 1] == ws[i].1.position@
        &&& parts[o4 + 4 * i + 2] == ws[i].1.period@
        &&& parts[o4 + 4 * i + 3] == ws[i].1.description@
    } by {}
    assert forall|i: int| 0 <= i < ps.len() implies {
        &&& parts[o5 + 3 * i] == (#[trigger] ps[i]).1.project_name@
        &&& parts[o5 + 3 * i + 1] == ps[i].1.project_description@
        &&& parts[o5 + 3 * i + 2] == ps[i].1.project_achievements@
    } by {}
    assert(resume_line(r, parts[0]) && resume_line(r, parts[1]) && resume_line(r, parts[2]));
    assert forall|i: int| 0 <= i < r.basic_info.skills.len() implies resume_line(r, (#[trigger] r.basic_info.skills@[i])@) by {
        assert(sk[i] == r.basic_info.skills@[i]@);
        assert(resume_line(r, parts[o2 + i]));
    }
    assert forall|i: int| 0 <= i < r.basic_info.certificates.len() implies resume_line(r, (#[trigger] r.basic_info.certificates@[i])@) by {
        assert(ce[i] == r.basic_info.certificates@[i]@);
        assert(resume_line(r, parts[o3 + i]));
    }
    assert forall|i: int| 0 <= i < es.len() implies {
        &&& resume_line(r, (#[trigger] es[i]).school@)
        &&& resume_line(r, es[i].major@)
        &&& resume_line(r, es[i].degree@)
        &&& resume_line(r, es[i].period@)
    } by {
        assert(resume_line(r, parts[o1 + 4 * i]));
        assert(resume_line(r, parts[o1 + 4 * i + 1]));
        assert(resume_line(r, parts[o1 + 4 * i + 2]));
        assert(resume_line(r, parts[o1 + 4 * i + 3]));
    }
    assert forall|i: int| 0 <= i < ws.len() implies {
        &&& resume_line(r, (#[trigger] ws[i]).1.company@)
        &&& resume_line(r, ws[i].1.position@)
        &&& resume_line(r, ws[i].1.period@)
        &&& resume_line(r, ws[i].1.description@)
    } by {
        assert(resume_line(r, parts[o4 + 4 * i]));
        assert(resume_line(r, parts[o4 + 4 * i + 1]));
        assert(resume_line(r, parts[o4 + 4 * i + 2]));
        assert(resume_line(r, parts[o4 + 4 * i + 3]));
    }
    assert forall|i: int| 0 <= i < ps.len() implies {
        &&& resume_line(r, (#[trigger] ps[i]).1.project_name@)
        &&& resume_line(r, ps[i].1.project_description@)
        &&& resume_line(r, ps[i].1.project_achievements@)
    } by {
        assert(resume_line(r, parts[o5 + 3 * i]));
        assert(resume_line(r, parts[o5 + 3 * i + 1]));
        assert(resume_line(r, parts[o5 + 3 * i + 2]));
    }
}

pub(crate) fn push_text(out: &mut Vec<Vec<char>>, s: &String)
    ensures
        vecs_view(final(out)@) == vecs_view(old(out)@).push(s@),
{
    let ghost before = vecs_view(out@);
    out.push(str_chars(s.as_str()));
    assert(vecs_view(out@) =~= before.push(s@));
}

pub(crate) fn push_texts(out: &mut Vec<Vec<char>>, v: &Vec<String>)
    ensures
        vecs_view(final(out)@) == vecs_view(old(out)@) + strings_view(v@),
{
    let ghost head = vecs_view(out@);
    let mut i: usize = 0;
    while i < v.len()
        invariant
            i <= v.len(),
            vecs_view(out@) == head + strings_view(v@).take(i as int),
        decreases v.len() - i,
    {
        push_text(out, &v[i]);
        i += 1;
        assert(vecs_view(out@) =~= head + strings_view(v@).take(i as int));
    }
    assert(strings_view(v@).take(v.len() as int) =~= strings_view(v@));
}

fn resume_parts_exec(r: &ResumeData) -> (p: Vec<Vec<char>>)
    ensures
        vecs_view(p@) == resume_parts(*r),
{
    let mut p: Vec<Vec<char>> = Vec::new();
    push_text(&mut p, &r.basic_info.name);
    push_text(&mut p, &r.basic_info.age);
    push_text(&mut p, &r.basic_info.gender);
    let ghost head = vecs_view(p@);
    assert(head =~= seq![r.basic_info.name@, r.basic_info.age@, r.basic_info.gender@]);
    let es = &r.basic_info.education;
    let mut i: usize = 0;
    assert(es@.take(0) =~= Seq::<EducationItem>::empty());
    while i < es.len()
        invariant
            i <= es.len(),
            vecs_view(p@) == head + education_parts(es@.take(i as int)),
        decreases es.len() - i,
    {
        let ghost before = vecs_view(p@);
        push_text(&mut p, &es[i].school);
        push_text(&mut p, &es[i].major);
        push_text(&mut p, &es[i].degree);
        push_text(&mut p, &es[i].period);
        assert(es@.take(i + 1).drop_last() =~= es@.take(i as int));
        i += 1;
        assert(vecs_view(p@) =~= head + education_parts(es@.take(i as int)));
    }
    assert(es@.take(es.len() as int) =~= es@);
    push_texts(&mut p, &r.basic_info.skills);
    push_texts(&mut p, &r.basic_info.certificates);
    let ghost mid = vecs_view(p@);
    let ws = &r.work_experience;
    let mut i: usize = 0;
    assert(ws@.take(0) =~= Seq::<(String, WorkItem)>::empty());
    while i < ws.len()
        invariant
            i <= ws.len(),
            vecs_view(p@) == mid + work_parts(ws@.take(i as int)),
        decreases ws.len() - i,
    {
        push_text(&mut p, &ws[i].1.company);
        push_text(&mut p, &ws[i].1.position);
        push_text(&mut p, &ws[i].1.period);
        push_text(&mut p, &ws[i].1.description);
        assert(ws@.take(i + 1).drop_last() =~= ws@.take(i as int));
        i += 1;
        assert(vecs_view(p@) =~= mid + work_parts(ws@.take(i as int)));
    }
    assert(ws@.take(ws.len() as int) =~= ws@);
    let ghost mid2 = vecs_view(p@);
    let ps = &r.project_experience;
    let mut i: usize = 0;
    assert(ps@.take(0) =~= Seq::<(String, ProjectItem)>::empty());
    while i < ps.len()
        invariant
            i <= ps.len(),
            vecs_view(p@) == mid2 + project_parts(ps@.take(i as int)),
        decreases ps.len() - i,
    {
        push_text(&mut p, &ps[i].1.project_name);
        push_text(&mut p, &ps[i].1.project_description);
        push_text(&mut p, &ps[i].1.project_achievements);
        assert(ps@.take(i + 1).drop_last() =~= ps@.take(i as int));
        i += 1;
        assert(vecs_view(p@) =~= mid2 + project_parts(ps@.take(i as int)));
    }
    assert(ps@.take(ps.len() as int) =~= ps@);
    assert(vecs_view(p@) =~= resume_parts(*r));
    p
}


// ---------------------------------------------------------------- keywords

/// Latin tokens of a job description: a letter, then one to thirty letters,
/// digits or `+ # . -`, between word boundaries, in any case.
pub const KEYWORD_TOKEN_PATTERN: &'static str = r"(?i)\b[a-z][a-z0-9\+\#\.\-]{1,30}\b";

/// The lowercased regex tokens of `t` whose UTF-8 length is at least two bytes.
pub open spec fn tokens_from_matches(t: Seq<char>, ms: Seq<(usize, usize)>) -> Seq<Seq<char>>
    decreases ms.len(),
{
    if ms.len() == 0 {
        Seq::empty()
    } else {
        let r = tokens_from_matches(t, ms.drop_last());
        match char_span_of(t, ms.last().0 as int, ms.last().1 as int) {
            Some(p) => {
                let w = unicode_lower(t.subrange(p.0, p.1));
                if utf8_len(w) >= 2 {
                    r.push(w)
                } else {
                    r
                }
            },
            None => r,
        }
    }
}

pub open spec fn regex_tokens(t: Seq<char>) -> Seq<Seq<char>> {
    match regex_find_spans(KEYWORD_TOKEN_PATTERN@, t) {
        Some(ms) => tokens_from_matches(t, ms),
        None => Seq::empty(),
    }
}

/// The chars that end a line or a chunk of a job description.
pub open spec fn is_chunk_delim(c: char) -> bool {
    ||| c == '\n' || c == '，' || c == '。' || c == '；' || c == '、' || c == '/' || c == '|'
    ||| c == ':' || c == '：' || c == ',' || c == ';' || c == '(' || c == ')' || c == '（'
    ||| c == '）' || c == '[' || c == ']' || c == '【' || c == '】' || c == ' ' || c == '\t'
}

fn chunk_delim(c: char) -> (r: bool)
    ensures
        r == is_chunk_delim(c),
{
    c == '\n' || c == '，' || c == '。' || c == '；' || c == '、' || c == '/' || c == '|' || c
        == ':' || c == '：' || c == ',' || c == ';' || c == '(' || c == ')' || c == '（' || c
        == '）' || c == '[' || c == ']' || c == '【' || c == '】' || c == ' ' || c == '\t'
}

/// The pieces of `s` between chunk delimiters (empty pieces included).
pub open spec fn split_chunks(s: Seq<char>) -> Seq<Seq<char>>
    decreases s.len(),
{
    if s.len() == 0 {
        seq![Seq::<char>::empty()]
    } else {
        let r = split_chunks(s.drop_last());
        if is_chunk_delim(s.last()) {
            r.push(Seq::<char>::empty())
        } else {
            r.update(r.len() - 1, r.last().push(s.last()))
        }
    }
}

proof fn lemma_split_chunks_len(s: Seq<char>)
    ensures
        split_chunks(s).len() >= 1,
    decreases s.len(),
{
    if s.len() > 0 {
        lemma_split_chunks_len(s.drop_last());
    }
}

fn split_chunks_exec(s: &Vec<char>) -> (r: Vec<Vec<char>>)
    ensures
        vecs_view(r@) == split_chunks(s@),
{
    let mut out: Vec<Vec<char>> = Vec::new();
    let mut cur: Vec<char> = Vec::new();
    let mut i: usize = 0;
    assert(s@.take(0) =~= Seq::<char>::empty());
    assert(vecs_view(out@).push(cur@) =~= split_chunks(s@.take(0)));
    while i < s.len()
        invariant
            i <= s.len(),
            vecs_view(out@).push(cur@) == split_chunks(s@.take(i as int)),
        decreases s.len() - i,
    {
        let c = s[i];
        proof {
            lemma_split_chunks_len(s@.take(i as int));
            assert(s@.take(i + 1).drop_last() =~= s@.take(i as int));
        }
        if chunk_delim(c) {
            let ghost before = vecs_view(out@);
            out.push(cur);
            cur = Vec::new();
            assert(vecs_view(out@) =~= before.push(vecs_view(out@).last()));
            assert(vecs_view(out@).push(cur@) =~= split_chunks(s@.take(i + 1)));
        } else {
            cur.push(c);
            assert(vecs_view(out@).push(cur@) =~= split_chunks(s@.take(i + 1)));
        }
        i += 1;
    }
    out.push(cur);
    assert(s@.take(s.len() as int) =~= s@);
    assert(vecs_view(out@) =~= split_chunks(s@));
    out
}

pub open spec fn all_ascii_digits(s: Seq<char>) -> bool {
    forall|i: int| 0 <= i < s.len() ==> is_ascii_digit(#[trigger] s[i])
}

fn all_digits(s: &Vec<char>) -> (r: bool)
    ensures
        r == all_ascii_digits(s@),
{
    let mut i: usize = 0;
    while i < s.len()
        invariant
            i <= s.len(),
            forall|j: int| 0 <= j < i ==> is_ascii_digit(#[trigger] s@[j]),
        decreases s.len() - i,
    {
        if !ascii_digit(s[i]) {
            return false;
        }
        i += 1;
    }
    true
}

/// The trimmed chunks of two to ten chars that are not all ASCII digits, lowercased.
pub open spec fn chunk_keywords(chunks: Seq<Seq<char>>) -> Seq<Seq<char>>
    decreases chunks.len(),
{
    if chunks.len() == 0 {
        Seq::empty()
    } else {
        let r = chunk_keywords(chunks.drop_last());
        let c = trim(chunks.last());
        if 2 <= c.len() <= 10 && !all_ascii_digits(c) {
            r.push(unicode_lower(c))
        } else {
            r
        }
    }
}

/// Every keyword candidate of a job description, before deduplication: the
/// Latin tokens, then the chunks, of the text with CRLF turned into LF.
pub open spec fn keyword_candidates(jd: Seq<char>) -> Seq<Seq<char>> {
    let t = replace_all(jd, seq!['\r', '\n'], seq!['\n']);
    regex_tokens(t) + chunk_keywords(split_chunks(t))
}

/// The keywords of a job description: the distinct candidates in increasing
/// order, at most eighty.
pub open spec fn keywords_v1(jd: Seq<char>) -> Seq<Seq<char>> {
    take_at_most(sorted_set_of(keyword_candidates(jd)), 80)
}

fn push_regex_tokens(out: &mut Vec<Vec<char>>, t: &Vec<char>, s: &str)
    requires
        t@ == s@,
    ensures
        vecs_view(final(out)@) == vecs_view(old(out)@) + regex_tokens(t@),
{
    let ghost head = vecs_view(out@);
    match regex_find_all(KEYWORD_TOKEN_PATTERN, s) {
        Some(ms) => {
            let mut k: usize = 0;
            assert(ms@.take(0) =~= Seq::<(usize, usize)>::empty());
            assert(vecs_view(out@) =~= head + tokens_from_matches(t@, ms@.take(0)));
            while k < ms.len()
                invariant
                    k <= ms.len(),
                    vecs_view(out@) == head + tokens_from_matches(t@, ms@.take(k as int)),
                decreases ms.len() - k,
            {
                let (bs, be) = ms[k];
                proof {
                    assert(ms@.take(k + 1).drop_last() =~= ms@.take(k as int));
                    assert(ms@.take(k + 1).last() == ms@[k as int]);
                }
                match char_span_at(t, bs, be) {
                    Some((a, b)) => {
                        let w = lowercase_chars(&slice_chars(t, a, b));
                        let long = match utf8_len_of(&w) {
                            Some(n) => n >= 2,
                            None => true,
                        };
                        if long {
                            let ghost before = vecs_view(out@);
                            out.push(w);
                            assert(vecs_view(out@) =~= before.push(vecs_view(out@).last()));
                        }
                    },
                    None => {},
                }
                k += 1;
            }
            assert(ms@.take(ms.len() as int) =~= ms@);
        },
        None => {
            assert(vecs_view(out@) =~= head + Seq::<Seq<char>>::empty());
        },
    }
}

fn push_chunk_keywords(out: &mut Vec<Vec<char>>, chunks: &Vec<Vec<char>>)
    ensures
        vecs_view(final(out)@) == vecs_view(old(out)@) + chunk_keywords(vecs_view(chunks@)),
{
    let ghost head = vecs_view(out@);
    let mut i: usize = 0;
    assert(vecs_view(chunks@).take(0) =~= Seq::<Seq<char>>::empty());
    assert(vecs_view(out@) =~= head + chunk_keywords(vecs_view(chunks@).take(0)));
    while i < chunks.len()
        invariant
            i <= chunks.len(),
            vecs_view(out@) == head + chunk_keywords(vecs_view(chunks@).take(i as int)),
        decreases chunks.len() - i,
    {
        proof {
            assert(vecs_view(chunks@).take(i + 1).drop_last() =~= vecs_view(chunks@).take(i as int));
        }
        let c = trim_chars(&chunks[i]);
        if 2 <= c.len() && c.len() <= 10 && !all_digits(&c) {
            let w = lowercase_chars(&c);
            let ghost before = vecs_view(out@);
            out.push(w);
            assert(vecs_view(out@) =~= before.push(vecs_view(out@).last()));
        }
        i += 1;
    }
    assert(vecs_view(chunks@).take(chunks.len() as int) =~= vecs_view(chunks@));
}

fn keywords_v1_chars(jd: &str) -> (r: Vec<Vec<char>>)
    ensures
        vecs_view(r@) == keywords_v1(jd@),
        r.len() <= 80,
{
    let jdc = str_chars(jd);
    let mut crlf: Vec<char> = Vec::new();
    crlf.push('\r');
    crlf.push('\n');
    let mut lf: Vec<char> = Vec::new();
    lf.push('\n');
    assert(crlf@ =~= seq!['\r', '\n']);
    assert(lf@ =~= seq!['\n']);
    let t = replace_chars(&jdc, &crlf, &lf);
    let ts = chars_to_string(&t);
    let mut cands: Vec<Vec<char>> = Vec::new();
    push_regex_tokens(&mut cands, &t, ts.as_str());
    let chunks = split_chunks_exec(&t);
    push_chunk_keywords(&mut cands, &chunks);
    assert(vecs_view(cands@) =~= keyword_candidates(jd@));
    let set = sorted_set_from(&cands);
    if set.len() <= 80 {
        return set;
    }
    let mut r: Vec<Vec<char>> = Vec::new();
    let mut i: usize = 0;
    while i < 80
        invariant
            i <= 80 < set.len(),
            vecs_view(r@) == vecs_view(set@).take(i as int),
        decreases 80 - i,
    {
        let x = set[i].clone();
        assert(x@ == set@[i as int]@);
        let ghost before = vecs_view(r@);
        r.push(x);
        assert(vecs_view(r@) =~= before.push(set@[i as int]@));
        i += 1;
        assert(vecs_view(r@) =~= vecs_view(set@).take(i as int));
    }
    r
}

/// The texts of `v` as strings.
pub(crate) fn to_strings(v: &Vec<Vec<char>>) -> (r: Vec<String>)
    ensures
        strings_view(r@) == vecs_view(v@),
{
    let mut r: Vec<String> = Vec::new();
    let mut i: usize = 0;
    while i < v.len()
        invariant
            i <= v.len(),
            strings_view(r@) == vecs_view(v@).take(i as int),
        decreases v.len() - i,
    {
        let ghost before = strings_view(r@);
        let st = chars_to_string(&v[i]);
        r.push(st);
        assert(strings_view(r@) =~= before.push(v@[i as int]@));
        i += 1;
        assert(strings_view(r@) =~= vecs_view(v@).take(i as int));
    }
    assert(vecs_view(v@).take(v.len() as int) =~= vecs_view(v@));
    r
}

/// The keywords of a job description: its Latin tokens and its short chunks
/// between punctuation, lowercased, deduplicated, in increasing order, at most
/// eighty.
pub fn extract_keywords_v1(jd: &str) -> (r: Vec<String>)
    ensures
        strings_view(r@) == keywords_v1(jd@),
{
    let k = keywords_v1_chars(jd);
    to_strings(&k)
}

// ---------------------------------------------------------------- score

/// The keywords of `kws` found in `text` (each looked for in its lowercase form).
pub open spec fn matched_keywords(text: Seq<char>, kws: Seq<Seq<char>>) -> Seq<Seq<char>>
    decreases kws.len(),
{
    if kws.len() == 0 {
        Seq::empty()
    } else {
        let r = matched_keywords(text, kws.drop_last());
        if word_match(text, unicode_lower(kws.last())) {
            r.push(kws.last())
        } else {
            r
        }
    }
}

/// The sum of the weights of `ks`.
pub open spec fn weight_total(ks: Seq<Seq<char>>) -> int
    decreases ks.len(),
{
    if ks.len() == 0 {
        0
    } else {
        weight_total(ks.drop_last()) + keyword_weight(ks.last())
    }
}

proof fn lemma_matched_len(text: Seq<char>, kws: Seq<Seq<char>>)
    ensures
        matched_keywords(text, kws).len() <= kws.len(),
    decreases kws.len(),
{
    if kws.len() > 0 {
        lemma_matched_len(text, kws.drop_last());
    }
}

/// Scores a resume against a job description: the keywords of the job
/// description that occur in the resume, and the sum of their weights.
pub fn score_v1(resume: &ResumeData, jd_text: &str) -> (r: JdScoreResult)
    ensures
        r.total_keywords == keywords_v1(jd_text@).len(),
        strings_view(r.matched_keywords@) == matched_keywords(
            resume_text(*resume),
            keywords_v1(jd_text@),
        ),
        r.score == weight_total(matched_keywords(resume_text(*resume), keywords_v1(jd_text@))),
{
    let parts = resume_parts_exec(resume);
    let mut nl: Vec<char> = Vec::new();
    nl.push('\n');
    assert(nl@ =~= seq!['\n']);
    let joined = join_chars(&parts, &nl);
    let text = lowercase_chars(&joined);
    let kws = keywords_v1_chars(jd_text);
    let mut matched: Vec<String> = Vec::new();
    let mut score: i32 = 0;
    let mut i: usize = 0;
    assert(vecs_view(kws@).take(0) =~= Seq::<Seq<char>>::empty());
    while i < kws.len()
        invariant
            i <= kws.len() <= 80,
            strings_view(matched@) == matched_keywords(text@, vecs_view(kws@).take(i as int)),
            score == weight_total(matched_keywords(text@, vecs_view(kws@).take(i as int))),
            0 <= score <= 6 * i,
        decreases kws.len() - i,
    {
        let ghost prev = matched_keywords(text@, vecs_view(kws@).take(i as int));
        proof {
            assert(vecs_view(kws@).take(i + 1).drop_last() =~= vecs_view(kws@).take(i as int));
            assert(vecs_view(kws@).take(i + 1).last() == kws@[i as int]@);
            lemma_matched_len(text@, vecs_view(kws@).take(i as int));
        }
        let kl = lowercase_chars(&kws[i]);
        if keyword_found(&text, &kl) {
            let w = weight_of(&kws[i]);
            let ghost before = strings_view(matched@);
            matched.push(chars_to_string(&kws[i]));
            assert(strings_view(matched@) =~= before.push(kws@[i as int]@));
            assert(prev.push(kws@[i as int]@).drop_last() =~= prev);
            score = score + w;
        }
        i += 1;
    }
    assert(vecs_view(kws@).take(kws.len() as int) =~= vecs_view(kws@));
    JdScoreResult { score, matched_keywords: matched, total_keywords: kws.len() }
}


// ---------------------------------------------------------------- structured score

/// What the structured score reads of a resume.
pub struct ResumeStructuredForScore {
    pub degree: String,
    pub work_years: String,
    pub skills: Vec<String>,
    pub work_text: String,
    pub project_text: String,
}

/// The structured score of a resume against a job description.
pub struct StructuredScoreResult {
    pub total_score: i32,
    pub breakdown: crate::schema::JdScoreBreakdown,
    pub matched_keywords: Vec<String>,
    pub total_keywords: usize,
}

/// The keyword part of the structured score: per keyword group, how many
/// keywords it has and how many were found; the found keywords as a sorted set;
/// and the keyword count used as denominator (at least one).
pub struct KeywordHits {
    pub required_hit: usize,
    pub required_total: usize,
    pub preferred_hit: usize,
    pub preferred_total: usize,
    pub work_hit: usize,
    pub work_total: usize,
    pub project_hit: usize,
    pub project_total: usize,
    pub matched_keywords: Vec<String>,
    pub total_keywords: usize,
}

/// The rank of a degree: 4 doctorate, 3 master, 2 bachelor, 1 college, 0 other.
pub open spec fn degree_rank_of(s: Seq<char>) -> i32 {
    let v = lower(trim(s));
    if contains_seq(v, "博士"@) || contains_seq(v, "phd"@) {
        4
    } else if contains_seq(v, "硕士"@) || contains_seq(v, "研究生"@) || contains_seq(v, "master"@) {
        3
    } else if contains_seq(v, "本科"@) || contains_seq(v, "学士"@) || contains_seq(v, "bachelor"@) {
        2
    } else if contains_seq(v, "大专"@) || contains_seq(v, "专科"@) || contains_seq(v, "college"@) {
        1
    } else {
        0
    }
}

/// The rank of a degree text is that of the highest degree it names,
/// ignoring ASCII case: 4 for 博士 or PhD, 3 for 硕士, 研究生 or master, 2 for
/// 本科, 学士 or bachelor, 1 for 大专, 专科 or college, and 0 when it names
/// none of them.
pub proof fn law_degree_rank_by_words(s: Seq<char>)
    ensures
        0 <= degree_rank_of(s) <= 4,
        degree_rank_of(s) == 4 <==> (contains_seq(lower(s), "博士"@) || contains_seq(lower(s), "phd"@)),
        degree_rank_of(s) >= 3 <==> (contains_seq(lower(s), "博士"@) || contains_seq(lower(s), "phd"@) || contains_seq(lower(s), "硕士"@) || contains_seq(lower(s), "研究生"@) || contains_seq(lower(s), "master"@)),
        degree_rank_of(s) >= 2 <==> (contains_seq(lower(s), "博士"@) || contains_seq(lower(s), "phd"@) || contains_seq(lower(s), "硕士"@) || contains_seq(lower(s), "研究生"@) || contains_seq(lower(s), "master"@) || contains_seq(lower(s), "本科"@) || contains_seq(lower(s), "学士"@) || contains_seq(lower(s), "bachelor"@)),
        degree_rank_of(s) >= 1 <==> (contains_seq(lower(s), "博士"@) || contains_seq(lower(s), "phd"@) || contains_seq(lower(s), "硕士"@) || contains_seq(lower(s), "研究生"@) || contains_seq(lower(s), "master"@) || contains_seq(lower(s), "本科"@) || contains_seq(lower(s), "学士"@) || contains_seq(lower(s), "bachelor"@) || contains_seq(lower(s), "大专"@) || contains_seq(lower(s), "专科"@) || contains_seq(lower(s), "college"@)),
{
    reveal_strlit("博士");
    lemma_lower_trim_contains(s, "博士"@);
    reveal_strlit("phd");
    lemma_lower_trim_contains(s, "phd"@);
    reveal_strlit("硕士");
    lemma_lower_trim_contains(s, "硕士"@);
    reveal_strlit("研究生");
    lemma_lower_trim_contains(s, "研究生"@);
    reveal_strlit("master");
    lemma_lower_trim_contains(s, "master"@);
    reveal_strlit("本科");
    lemma_lower_trim_contains(s, "本科"@);
    reveal_strlit("学士");
    lemma_lower_trim_contains(s, "学士"@);
    reveal_strlit("bachelor");
    lemma_lower_trim_contains(s, "bachelor"@);
    reveal_strlit("大专");
    lemma_lower_trim_contains(s, "大专"@);
    reveal_strlit("专科");
    lemma_lower_trim_contains(s, "专科"@);
    reveal_strlit("college");
    lemma_lower_trim_contains(s, "college"@);
}

fn contains_lit(v: &Vec<char>, lit: &str) -> (r: bool)
    ensures
        r == contains_seq(v@, lit@),
{
    let p = str_chars(lit);
    contains_chars(v, &p)
}

/// The rank of a degree text, as `degree_rank_of` states it.
pub fn degree_rank(s: &str) -> (r: i32)
    ensures
        r == degree_rank_of(s@),
        0 <= r <= 4,
{
    let sc = str_chars(s);
    let v = ascii_lower(&trim_chars(&sc));
    if contains_lit(&v, "博士") || contains_lit(&v, "phd") {
        4
    } else if contains_lit(&v, "硕士") || contains_lit(&v, "研究生") || contains_lit(&v, "master") {
        3
    } else if contains_lit(&v, "本科") || contains_lit(&v, "学士") || contains_lit(&v, "bachelor") {
        2
    } else if contains_lit(&v, "大专") || contains_lit(&v, "专科") || contains_lit(&v, "college") {
        1
    } else {
        0
    }
}

/// The degree score: full when no degree is required or the candidate's rank
/// reaches it, 70 one rank below, 40 two ranks below, 20 further below.
pub open spec fn degree_score(req_rank: int, candidate_rank: int) -> int {
    if req_rank <= 0 {
        100
    } else if candidate_rank >= req_rank {
        100
    } else if candidate_rank + 1 == req_rank {
        70
    } else if candidate_rank + 2 == req_rank {
        40
    } else {
        20
    }
}

pub fn score_degree(req_rank: i32, candidate_rank: i32) -> (r: i32)
    ensures
        r == degree_score(req_rank as int, candidate_rank as int),
{
    if req_rank <= 0 {
        return 100;
    }
    if candidate_rank >= req_rank {
        return 100;
    }
    if candidate_rank + 1 == req_rank {
        return 70;
    }
    if candidate_rank + 2 == req_rank {
        return 40;
    }
    20
}

/// The items trimmed and ASCII-lowercased, empty ones dropped, each kept once
/// at its first place.
pub open spec fn normalized_items(items: Seq<Seq<char>>) -> Seq<Seq<char>>
    decreases items.len(),
{
    if items.len() == 0 {
        Seq::empty()
    } else {
        let r = normalized_items(items.drop_last());
        let t = lower(trim(items.last()));
        if t.len() == 0 || r.contains(t) {
            r
        } else {
            r.push(t)
        }
    }
}

proof fn lemma_normalized_len(items: Seq<Seq<char>>)
    ensures
        normalized_items(items).len() <= items.len(),
    decreases items.len(),
{
    if items.len() > 0 {
        lemma_normalized_len(items.drop_last());
    }
}

fn normalize_items(items: &Vec<String>) -> (r: Vec<Vec<char>>)
    ensures
        vecs_view(r@) == normalized_items(strings_view(items@)),
        r.len() <= items.len(),
{
    let mut out: Vec<Vec<char>> = Vec::new();
    let mut i: usize = 0;
    assert(strings_view(items@).take(0) =~= Seq::<Seq<char>>::empty());
    while i < items.len()
        invariant
            i <= items.len(),
            out.len() <= i,
            vecs_view(out@) == normalized_items(strings_view(items@).take(i as int)),
        decreases items.len() - i,
    {
        proof {
            assert(strings_view(items@).take(i + 1).drop_last() =~= strings_view(items@).take(
                i as int,
            ));
        }
        let t = ascii_lower(&trim_chars(&str_chars(items[i].as_str())));
        if t.len() > 0 && !holds(&out, &t) {
            let ghost before = vecs_view(out@);
            out.push(t);
            assert(vecs_view(out@) =~= before.push(vecs_view(out@).last()));
        }
        i += 1;
    }
    assert(strings_view(items@).take(items.len() as int) =~= strings_view(items@));
    out
}

/// The keywords of `kws` found in `text`, in order.
pub open spec fn keyword_hits(text: Seq<char>, kws: Seq<Seq<char>>) -> Seq<Seq<char>>
    decreases kws.len(),
{
    if kws.len() == 0 {
        Seq::empty()
    } else {
        let r = keyword_hits(text, kws.drop_last());
        if word_match(text, kws.last()) {
            r.push(kws.last())
        } else {
            r
        }
    }
}

fn hit_count(text: &Vec<char>, kws: &Vec<Vec<char>>) -> (r: Vec<Vec<char>>)
    ensures
        vecs_view(r@) == keyword_hits(text@, vecs_view(kws@)),
        r.len() <= kws.len(),
{
    let mut out: Vec<Vec<char>> = Vec::new();
    let mut i: usize = 0;
    assert(vecs_view(kws@).take(0) =~= Seq::<Seq<char>>::empty());
    while i < kws.len()
        invariant
            i <= kws.len(),
            out.len() <= i,
            vecs_view(out@) == keyword_hits(text@, vecs_view(kws@).take(i as int)),
        decreases kws.len() - i,
    {
        proof {
            assert(vecs_view(kws@).take(i + 1).drop_last() =~= vecs_view(kws@).take(i as int));
        }
        if keyword_found(text, &kws[i]) {
            let x = kws[i].clone();
            assert(x@ == kws@[i as int]@);
            let ghost before = vecs_view(out@);
            out.push(x);
            assert(vecs_view(out@) =~= before.push(kws@[i as int]@));
        }
        i += 1;
    }
    assert(vecs_view(kws@).take(kws.len() as int) =~= vecs_view(kws@));
    out
}

/// The skills of a resume as one text: normalized and joined with spaces.
pub open spec fn skill_pool(skills: Seq<Seq<char>>) -> Seq<char> {
    join_with(normalized_items(skills), seq![' '])
}

/// The hit keywords of the four groups, in group order, before deduplication.
pub open spec fn all_hits(
    required: Seq<Seq<char>>,
    preferred: Seq<Seq<char>>,
    work: Seq<Seq<char>>,
    project: Seq<Seq<char>>,
    resume: ResumeStructuredForScore,
) -> Seq<Seq<char>> {
    let pool = skill_pool(strings_view(resume.skills@));
    keyword_hits(pool, normalized_items(required)) + keyword_hits(pool, normalized_items(preferred))
        + keyword_hits(lower(trim(resume.work_text@)), normalized_items(work)) + keyword_hits(
        lower(trim(resume.project_text@)),
        normalized_items(project),
    )
}

/// The keyword part of the structured score of a resume. Required and preferred
/// skills are looked for among the resume's skills, work keywords in its work
/// text and project keywords in its project text; each group is first
/// normalized (trimmed, lowercased, empty and repeated items dropped).
pub fn structured_keyword_hits(
    required: &Vec<String>,
    preferred: &Vec<String>,
    work_keywords: &Vec<String>,
    project_keywords: &Vec<String>,
    resume: &ResumeStructuredForScore,
) -> (r: KeywordHits)
    requires
        required.len() + preferred.len() + work_keywords.len() + project_keywords.len()
            <= usize::MAX,
    ensures
        ({
            let pool = skill_pool(strings_view(resume.skills@));
            let rq = normalized_items(strings_view(required@));
            let pf = normalized_items(strings_view(preferred@));
            let wk = normalized_items(strings_view(work_keywords@));
            let pk = normalized_items(strings_view(project_keywords@));
            let sum = rq.len() + pf.len() + wk.len() + pk.len();
            &&& r.required_total == rq.len()
            &&& r.preferred_total == pf.len()
            &&& r.work_total == wk.len()
            &&& r.project_total == pk.len()
            &&& r.required_hit == keyword_hits(pool, rq).len()
            &&& r.preferred_hit == keyword_hits(pool, pf).len()
            &&& r.work_hit == keyword_hits(lower(trim(resume.work_text@)), wk).len()
            &&& r.project_hit == keyword_hits(lower(trim(resume.project_text@)), pk).len()
            &&& strings_view(r.matched_keywords@) == sorted_set_of(
                all_hits(
                    strings_view(required@),
                    strings_view(preferred@),
                    strings_view(work_keywords@),
                    strings_view(project_keywords@),
                    *resume,
                ),
            )
            &&& r.total_keywords == if sum == 0 {
                1
            } else {
                sum
            }
        }),
{
    let skills = normalize_items(&resume.skills);
    let mut sp: Vec<char> = Vec::new();
    sp.push(' ');
    assert(sp@ =~= seq![' ']);
    let pool = join_chars(&skills, &sp);
    let work_text = ascii_lower(&trim_chars(&str_chars(resume.work_text.as_str())));
    let project_text = ascii_lower(&trim_chars(&str_chars(resume.project_text.as_str())));
    let rq = normalize_items(required);
    let pf = normalize_items(preferred);
    let wk = normalize_items(work_keywords);
    let pk = normalize_items(project_keywords);
    let total = rq.len() + pf.len() + wk.len() + pk.len();
    let mut hits = hit_count(&pool, &rq);
    let required_hit = hits.len();
    let mut h2 = hit_count(&pool, &pf);
    let preferred_hit = h2.len();
    let mut h3 = hit_count(&work_text, &wk);
    let work_hit = h3.len();
    let mut h4 = hit_count(&project_text, &pk);
    let project_hit = h4.len();
    let ghost v1 = vecs_view(hits@);
    let ghost v2 = vecs_view(h2@);
    let ghost v3 = vecs_view(h3@);
    let ghost v4 = vecs_view(h4@);
    hits.append(&mut h2);
    hits.append(&mut h3);
    hits.append(&mut h4);
    assert(vecs_view(hits@) =~= v1 + v2 + v3 + v4);
    let set = sorted_set_from(&hits);
    KeywordHits {
        required_hit,
        required_total: rq.len(),
        preferred_hit,
        preferred_total: pf.len(),
        work_hit,
        work_total: wk.len(),
        project_hit,
        project_total: pk.len(),
        matched_keywords: to_strings(&set),
        total_keywords: if total == 0 {
            1
        } else {
            total
        },
    }
}

/// The keywords a resume matches are keywords of the job description, in the
/// job description's order, and never more than it has.
pub proof fn law_matched_keywords_from_jd(text: Seq<char>, kws: Seq<Seq<char>>)
    ensures
        matched_keywords(text, kws).len() <= kws.len(),
        forall|k: int|
            0 <= k < matched_keywords(text, kws).len() ==> kws.contains(
                #[trigger] matched_keywords(text, kws)[k],
            ),
    decreases kws.len(),
{
    lemma_matched_len(text, kws);
    if kws.len() > 0 {
        law_matched_keywords_from_jd(text, kws.drop_last());
        let r = matched_keywords(text, kws.drop_last());
        assert forall|k: int| 0 <= k < matched_keywords(text, kws).len() implies kws.contains(
            #[trigger] matched_keywords(text, kws)[k],
        ) by {
            if k < r.len() {
                assert(matched_keywords(text, kws)[k] == r[k]);
                let j = choose|j: int| 0 <= j < kws.drop_last().len() && kws.drop_last()[j] == r[k];
                assert(kws[j] == r[k]);
            } else {
                assert(matched_keywords(text, kws)[k] == kws[kws.len() - 1]);
            }
        }
    }
}

/// A job description gives at most eighty keywords.
pub proof fn law_at_most_eighty_keywords(jd: Seq<char>)
    ensures
        keywords_v1(jd).len() <= 80,
{
}

/// The keywords of a job description are distinct and in increasing order,
/// and each is one of its candidate keywords.
pub proof fn law_keywords_distinct_sorted(jd: Seq<char>)
    ensures
        sorted_strict(keywords_v1(jd)),
        forall|k: int|
            0 <= k < keywords_v1(jd).len() ==> keyword_candidates(jd).contains(#[trigger] keywords_v1(jd)[k]),
{
    let all = sorted_set_of(keyword_candidates(jd));
    law_sorted_set_of(keyword_candidates(jd));
    let r = keywords_v1(jd);
    assert forall|k: int| 0 <= k < r.len() implies keyword_candidates(jd).contains(#[trigger] r[k]) by {
        assert(r[k] == all[k]);
        assert(all.contains(all[k]));
    }
    assert forall|i: int, j: int| 0 <= i < j < r.len() implies lex_lt(#[trigger] r[i], #[trigger] r[j]) by {
        assert(r[i] == all[i] && r[j] == all[j]);
    }
}

} // verus!
