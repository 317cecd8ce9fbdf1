//! A resume in the JSON Resume layout, as rendered to PDF: which entries and
//! fields appear, in which order, and how their texts are cleaned.

use crate::numbers::{parse_i32, parse_i32_chars};
use crate::reindex::keyed_view;
use crate::schema::{
    clone_project_item, clone_work_item, strings_view, EducationItem, EducationItemV, ProjectItem, ProjectItemV, ResumeData, ResumeDataV,
    WorkItem, WorkItemV,
};
use crate::text::{
    chars_to_string, is_whitespace, is_ws, join_chars, join_with, lemma_map_push, str_chars, trim,
    trim_chars, vecs_view,
};
use vstd::prelude::*;

verus! {

/// Which fields of the basic information a PDF shows, and the theme used.
pub struct PdfExportOptions {
    pub include_name: bool,
    pub include_gender: bool,
    pub include_age: bool,
    pub include_contact: bool,
    pub include_skills: bool,
    /// Directory of a theme, relative to the project root; empty for the
    /// built-in theme.
    pub theme_dir: String,
}

impl Default for PdfExportOptions {
    fn default() -> (r: Self)
        ensures
            r.include_name && r.include_gender && r.include_age && r.include_contact
                && r.include_skills && r.theme_dir@ == Seq::<char>::empty(),
    {
        PdfExportOptions {
            include_name: true,
            include_gender: true,
            include_age: true,
            include_contact: true,
            include_skills: true,
            theme_dir: String::new(),
        }
    }
}

// ---------------------------------------------------------------- cleaning texts

/// The pieces of `s` between white space chars (empty pieces included).
pub open spec fn split_ws(s: Seq<char>) -> Seq<Seq<char>>
    decreases s.len(),
{
    if s.len() == 0 {
        seq![Seq::<char>::empty()]
    } else {
        let r = split_ws(s.drop_last());
        if is_ws(s.last()) {
            r.push(Seq::<char>::empty())
        } else {
            r.update(r.len() - 1, r.last().push(s.last()))
        }
    }
}

pub open spec fn nonempty_pieces(v: Seq<Seq<char>>) -> Seq<Seq<char>>
    decreases v.len(),
{
    if v.len() == 0 {
        Seq::empty()
    } else {
        let r = nonempty_pieces(v.drop_last());
        if v.last().len() > 0 {
            r.push(v.last())
        } else {
            r
        }
    }
}

/// The words of `s` (what `split_whitespace` yields) joined by single spaces.
pub open spec fn clean_inline(s: Seq<char>) -> Seq<char> {
    join_with(nonempty_pieces(split_ws(s)), seq![' '])
}

/// The cleaned text, or `-` when nothing is left.
pub open spec fn safe_text(s: Seq<char>) -> Seq<char> {
    let c = clean_inline(s);
    if c.len() == 0 {
        seq!['-']
    } else {
        c
    }
}

proof fn lemma_split_ws_len(s: Seq<char>)
    ensures
        split_ws(s).len() >= 1,
    decreases s.len(),
{
    if s.len() > 0 {
        lemma_split_ws_len(s.drop_last());
    }
}

fn clean_inline_exec(s: &Vec<char>) -> (r: Vec<char>)
    ensures
        r@ == clean_inline(s@),
{
    let mut words: Vec<Vec<char>> = Vec::new();
    let mut cur: Vec<char> = Vec::new();
    let mut i: usize = 0;
    assert(s@.take(0) =~= Seq::<char>::empty());
    assert(vecs_view(words@) =~= nonempty_pieces(split_ws(s@.take(0)).drop_last()));
    while i < s.len()
        invariant
            i <= s.len(),
            split_ws(s@.take(i as int)).len() >= 1,
            split_ws(s@.take(i as int)).last() == cur@,
            vecs_view(words@) == nonempty_pieces(split_ws(s@.take(i as int)).drop_last()),
        decreases s.len() - i,
    {
        let c = s[i];
        let ghost prev = split_ws(s@.take(i as int));
        proof {
            lemma_split_ws_len(s@.take(i as int));
            assert(s@.take(i + 1).drop_last() =~= s@.take(i as int));
            assert(s@.take(i + 1).last() == c);
        }
        if is_whitespace(c) {
            let ghost before = vecs_view(words@);
            let ghost cv = cur@;
            if cur.len() > 0 {
                words.push(cur);
                assert(vecs_view(words@) =~= before.push(cv));
            }
            cur = Vec::new();
            let ghost next = split_ws(s@.take(i + 1));
            assert(next == prev.push(Seq::<char>::empty()));
            assert(next.drop_last() =~= prev);
            assert(prev =~= prev.drop_last().push(cv));
        } else {
            cur.push(c);
            let ghost next = split_ws(s@.take(i + 1));
            assert(next.drop_last() =~= prev.drop_last());
        }
        i += 1;
    }
    let ghost fin = split_ws(s@.take(i as int));
    let ghost before = vecs_view(words@);
    let ghost cv = cur@;
    if cur.len() > 0 {
        words.push(cur);
        assert(vecs_view(words@) =~= before.push(cv));
    }
    assert(fin =~= fin.drop_last().push(cv));
    assert(s@.take(s.len() as int) =~= s@);
    let mut sp: Vec<char> = Vec::new();
    sp.push(' ');
    assert(sp@ =~= seq![' ']);
    join_chars(&words, &sp)
}

fn clean(s: &String) -> (r: Vec<char>)
    ensures
        r@ == clean_inline(s@),
{
    clean_inline_exec(&str_chars(s.as_str()))
}

fn safe(s: &String) -> (r: String)
    ensures
        r@ == safe_text(s@),
{
    let c = clean(s);
    if c.len() == 0 {
        let mut d: Vec<char> = Vec::new();
        d.push('-');
        assert(d@ =~= seq!['-']);
        chars_to_string(&d)
    } else {
        chars_to_string(&c)
    }
}

pub(crate) fn blank_exec(s: &String) -> (r: bool)
    ensures
        r == blank(s@),
{
    trim_chars(&str_chars(s.as_str())).len() == 0
}

/// No text but white space.
pub open spec fn blank(s: Seq<char>) -> bool {
    trim(s).len() == 0
}

// ---------------------------------------------------------------- ordering by key

/// The number a key is ordered by: the key read as an `i32`, or 0.
pub open spec fn rank_of(k: Seq<char>) -> i32 {
    match parse_i32(k) {
        Some(v) => v,
        None => 0,
    }
}

/// The entries with their keys replaced by their ranks.
pub open spec fn ranked<V>(m: Seq<(Seq<char>, V)>) -> Seq<(i32, V)> {
    m.map_values(|p: (Seq<char>, V)| (rank_of(p.0), p.1))
}

/// `x` placed after every pair whose rank is not above its own.
pub open spec fn insert_by_rank<V>(v: Seq<(i32, V)>, x: (i32, V)) -> Seq<(i32, V)>
    decreases v.len(),
{
    if v.len() == 0 {
        seq![x]
    } else if x.0 < v[0].0 {
        seq![x] + v
    } else {
        seq![v[0]] + insert_by_rank(v.drop_first(), x)
    }
}

/// The pairs ordered by rank, pairs of equal rank kept in their order (a
/// stable sort).
pub open spec fn sort_by_rank<V>(s: Seq<(i32, V)>) -> Seq<(i32, V)>
    decreases s.len(),
{
    if s.len() == 0 {
        s
    } else {
        insert_by_rank(sort_by_rank(s.drop_last()), s.last())
    }
}

/// The entries of a keyed collection ordered by the ranks of their keys.
pub open spec fn by_rank<V>(m: Seq<(Seq<char>, V)>) -> Seq<V> {
    sort_by_rank(ranked(m)).map_values(|p: (i32, V)| p.1)
}

pub open spec fn rank_view<T: View>(v: Seq<(i32, T)>) -> Seq<(i32, T::V)> {
    v.map_values(|p: (i32, T)| (p.0, p.1@))
}

proof fn lemma_rank_insert_at<V>(v: Seq<(i32, V)>, x: (i32, V), i: int)
    requires
        0 <= i <= v.len(),
        forall|k: int| 0 <= k < i ==> (#[trigger] v[k]).0 <= x.0,
        i < v.len() ==> x.0 < v[i].0,
    ensures
        insert_by_rank(v, x) == v.insert(i, x),
    decreases i,
{
    if i == 0 {
        if v.len() > 0 {
            assert(seq![x] + v =~= v.insert(0, x));
        } else {
            assert(seq![x] =~= v.insert(0, x));
        }
    } else {
        let rest = v.drop_first();
        assert forall|k: int| 0 <= k < i - 1 implies (#[trigger] rest[k]).0 <= x.0 by {
            assert(rest[k] == v[k + 1]);
        }
        lemma_rank_insert_at(rest, x, i - 1);
        assert(seq![v[0]] + rest.insert(i - 1, x) =~= v.insert(i, x));
    }
}

fn insert_by_rank_exec<T: View>(v: &mut Vec<(i32, T)>, x: (i32, T))
    ensures
        rank_view(final(v)@) == insert_by_rank(rank_view(old(v)@), (x.0, x.1@)),
{
    let ghost vv = rank_view(v@);
    let mut i: usize = 0;
    while i < v.len() && v[i].0 <= x.0
        invariant
            i <= v.len(),
            vv == rank_view(v@),
            forall|k: int| 0 <= k < i ==> (#[trigger] vv[k]).0 <= x.0,
        decreases v.len() - i,
    {
        i += 1;
    }
    proof {
        lemma_rank_insert_at(vv, (x.0, x.1@), i as int);
    }
    let ghost xv = (x.0, x.1@);
    v.insert(i, x);
    assert(rank_view(v@) =~= vv.insert(i as int, xv));
}

fn rank_exec(k: &String) -> (r: i32)
    ensures
        r == rank_of(k@),
{
    match parse_i32_chars(&str_chars(k.as_str())) {
        Some(v) => v,
        None => 0,
    }
}

pub(crate) fn work_by_rank(m: &Vec<(String, WorkItem)>) -> (r: Vec<WorkItem>)
    ensures
        r@.map_values(|w: WorkItem| w@) == by_rank(keyed_view(m@)),
{
    let ghost km = keyed_view(m@);
    let mut out: Vec<(i32, WorkItem)> = Vec::new();
    let mut i: usize = 0;
    assert(ranked(km).take(0) =~= Seq::<(i32, WorkItemV)>::empty());
    while i < m.len()
        invariant
            i <= m.len(),
            km == keyed_view(m@),
            rank_view(out@) == sort_by_rank(ranked(km).take(i as int)),
        decreases m.len() - i,
    {
        let rank = rank_exec(&m[i].0);
        let item = clone_work_item(&m[i].1);
        insert_by_rank_exec(&mut out, (rank, item));
        assert(ranked(km).take(i + 1).drop_last() =~= ranked(km).take(i as int));
        i += 1;
    }
    assert(ranked(km).take(i as int) =~= ranked(km));
    let mut r: Vec<WorkItem> = Vec::new();
    let ghost sorted = rank_view(out@);
    let mut j: usize = 0;
    while j < out.len()
        invariant
            j <= out.len(),
            r.len() == j,
            sorted == rank_view(out@),
            r@.map_values(|w: WorkItem| w@) == sorted.take(j as int).map_values(
                |p: (i32, WorkItemV)| p.1,
            ),
        decreases out.len() - j,
    {
        let w = clone_work_item(&out[j].1);
        assert(sorted[j as int].1 == w@);
        let ghost before = r@;
        r.push(w);
        proof {
            let a = r@.map_values(|w: WorkItem| w@);
            let b = sorted.take(j + 1).map_values(|p: (i32, WorkItemV)| p.1);
            let a0 = before.map_values(|w: WorkItem| w@);
            let b0 = sorted.take(j as int).map_values(|p: (i32, WorkItemV)| p.1);
            assert(a0 == b0);
            assert forall|k: int| 0 <= k < j + 1 implies a[k] == b[k] by {
                if k < j {
                    assert(r@[k] == before[k]);
                    assert(a[k] == a0[k]);
                    assert(b[k] == b0[k]);
                }
            }
            assert(a =~= b);
        }
        j += 1;
    }
    assert(sorted.take(j as int) =~= sorted);
    r
}

pub(crate) fn project_by_rank(m: &Vec<(String, ProjectItem)>) -> (r: Vec<ProjectItem>)
    ensures
        r@.map_values(|w: ProjectItem| w@) == by_rank(keyed_view(m@)),
{
    let ghost km = keyed_view(m@);
    let mut out: Vec<(i32, ProjectItem)> = Vec::new();
    let mut i: usize = 0;
    assert(ranked(km).take(0) =~= Seq::<(i32, ProjectItemV)>::empty());
    while i < m.len()
        invariant
            i <= m.len(),
            km == keyed_view(m@),
            rank_view(out@) == sort_by_rank(ranked(km).take(i as int)),
        decreases m.len() - i,
    {
        let rank = rank_exec(&m[i].0);
        let item = clone_project_item(&m[i].1);
        insert_by_rank_exec(&mut out, (rank, item));
        assert(ranked(km).take(i + 1).drop_last() =~= ranked(km).take(i as int));
        i += 1;
    }
    assert(ranked(km).take(i as int) =~= ranked(km));
    let mut r: Vec<ProjectItem> = Vec::new();
    let ghost sorted = rank_view(out@);
    let mut j: usize = 0;
    while j < out.len()
        invariant
            j <= out.len(),
            r.len() == j,
            sorted == rank_view(out@),
            r@.map_values(|w: ProjectItem| w@) == sorted.take(j as int).map_values(
                |p: (i32, ProjectItemV)| p.1,
            ),
        decreases out.len() - j,
    {
        let w = clone_project_item(&out[j].1);
        assert(sorted[j as int].1 == w@);
        let ghost before = r@;
        r.push(w);
        proof {
            let a = r@.map_values(|w: ProjectItem| w@);
            let b = sorted.take(j + 1).map_values(|p: (i32, ProjectItemV)| p.1);
            let a0 = before.map_values(|w: ProjectItem| w@);
            let b0 = sorted.take(j as int).map_values(|p: (i32, ProjectItemV)| p.1);
            assert(a0 == b0);
            assert forall|k: int| 0 <= k < j + 1 implies a[k] == b[k] by {
                if k < j {
                    assert(r@[k] == before[k]);
                    assert(a[k] == a0[k]);
                    assert(b[k] == b0[k]);
                }
            }
            assert(a =~= b);
        }
        j += 1;
    }
    assert(sorted.take(j as int) =~= sorted);
    r
}

// ---------------------------------------------------------------- the document

/// The basic information shown; a field left out by the options is empty.
pub struct JsonBasics {
    pub name: String,
    pub gender: String,
    pub age: String,
    pub phone: String,
}

/// A work entry: company as `name`, the period as `end_date`.
pub struct JsonWork {
    pub name: String,
    pub position: String,
    pub end_date: String,
    pub summary: String,
}

/// An education entry: school as `institution`, major as `area`, degree as
/// `study_type`, the period as `end_date`.
pub struct JsonEducation {
    pub institution: String,
    pub area: String,
    pub study_type: String,
    pub end_date: String,
}

/// A project entry; the achievements, when there are any, are its one highlight.
pub struct JsonProject {
    pub name: String,
    pub description: String,
    pub highlights: Vec<String>,
}

/// The parts of a JSON Resume document that come from the resume; every other
/// field of the document is a fixed value.
pub struct JsonResume {
    pub basics: JsonBasics,
    pub work: Vec<JsonWork>,
    pub education: Vec<JsonEducation>,
    /// Skill names.
    pub skills: Vec<String>,
    pub projects: Vec<JsonProject>,
    /// Certificate names.
    pub certificates: Vec<String>,
}

pub struct JsonBasicsV {
    pub name: Seq<char>,
    pub gender: Seq<char>,
    pub age: Seq<char>,
    pub phone: Seq<char>,
}

pub struct JsonWorkV {
    pub name: Seq<char>,
    pub position: Seq<char>,
    pub end_date: Seq<char>,
    pub summary: Seq<char>,
}

pub struct JsonEducationV {
    pub institution: Seq<char>,
    pub area: Seq<char>,
    pub study_type: Seq<char>,
    pub end_date: Seq<char>,
}

pub struct JsonProjectV {
    pub name: Seq<char>,
    pub description: Seq<char>,
    pub highlights: Seq<Seq<char>>,
}

pub struct JsonResumeV {
    pub basics: JsonBasicsV,
    pub work: Seq<JsonWorkV>,
    pub education: Seq<JsonEducationV>,
    pub skills: Seq<Seq<char>>,
    pub projects: Seq<JsonProjectV>,
    pub certificates: Seq<Seq<char>>,
}

impl View for JsonBasics {
    type V = JsonBasicsV;

    open spec fn view(&self) -> JsonBasicsV {
        JsonBasicsV { name: self.name@, gender: self.gender@, age: self.age@, phone: self.phone@ }
    }
}

impl View for JsonWork {
    type V = JsonWorkV;

    open spec fn view(&self) -> JsonWorkV {
        JsonWorkV {
            name: self.name@,
            position: self.position@,
            end_date: self.end_date@,
            summary: self.summary@,
        }
    }
}

impl View for JsonEducation {
    type V = JsonEducationV;

    open spec fn view(&self) -> JsonEducationV {
        JsonEducationV {
            institution: self.institution@,
            area: self.area@,
            study_type: self.study_type@,
            end_date: self.end_date@,
        }
    }
}

impl View for JsonProject {
    type V = JsonProjectV;

    open spec fn view(&self) -> JsonProjectV {
        JsonProjectV {
            name: self.name@,
            description: self.description@,
            highlights: strings_view(self.highlights@),
        }
    }
}

impl View for JsonResume {
    type V = JsonResumeV;

    open spec fn view(&self) -> JsonResumeV {
        JsonResumeV {
            basics: self.basics@,
            work: self.work@.map_values(|w: JsonWork| w@),
            education: self.education@.map_values(|e: JsonEducation| e@),
            skills: strings_view(self.skills@),
            projects: self.projects@.map_values(|p: JsonProject| p@),
            certificates: strings_view(self.certificates@),
        }
    }
}

/// A work entry is shown when one of its texts is not blank.
pub open spec fn work_shown(w: WorkItemV) -> bool {
    !blank(w.company) || !blank(w.position) || !blank(w.period) || !blank(w.description)
}

pub open spec fn work_json(w: WorkItemV) -> JsonWorkV {
    JsonWorkV {
        name: safe_text(w.company),
        position: safe_text(w.position),
        end_date: safe_text(w.period),
        summary: clean_inline(w.description),
    }
}

/// The shown work entries, in order, as JSON Resume entries.
pub open spec fn work_list(s: Seq<WorkItemV>) -> Seq<JsonWorkV>
    decreases s.len(),
{
    if s.len() == 0 {
        Seq::empty()
    } else {
        let r = work_list(s.drop_last());
        if work_shown(s.last()) {
            r.push(work_json(s.last()))
        } else {
            r
        }
    }
}

/// An education entry is shown when one of its texts is not blank.
pub open spec fn education_shown(e: EducationItemV) -> bool {
    !blank(e.school) || !blank(e.degree) || !blank(e.major) || !blank(e.period)
}

pub open spec fn education_json(e: EducationItemV) -> JsonEducationV {
    JsonEducationV {
        institution: safe_text(e.school),
        area: safe_text(e.major),
        study_type: safe_text(e.degree),
        end_date: safe_text(e.period),
    }
}

pub open spec fn education_list(s: Seq<EducationItemV>) -> Seq<JsonEducationV>
    decreases s.len(),
{
    if s.len() == 0 {
        Seq::empty()
    } else {
        let r = education_list(s.drop_last());
        if education_shown(s.last()) {
            r.push(education_json(s.last()))
        } else {
            r
        }
    }
}

/// A project entry is shown when one of its texts is not blank.
pub open spec fn project_shown(p: ProjectItemV) -> bool {
    !blank(p.project_name) || !blank(p.project_description) || !blank(p.project_achievements)
}

pub open spec fn project_json(p: ProjectItemV) -> JsonProjectV {
    let ach = clean_inline(p.project_achievements);
    JsonProjectV {
        name: safe_text(p.project_name),
        description: clean_inline(p.project_description),
        highlights: if ach.len() > 0 {
            seq![ach]
        } else {
            Seq::empty()
        },
    }
}

pub open spec fn project_list(s: Seq<ProjectItemV>) -> Seq<JsonProjectV>
    decreases s.len(),
{
    if s.len() == 0 {
        Seq::empty()
    } else {
        let r = project_list(s.drop_last());
        if project_shown(s.last()) {
            r.push(project_json(s.last()))
        } else {
            r
        }
    }
}

/// The cleaned skills that are not empty.
pub open spec fn skill_list(s: Seq<Seq<char>>) -> Seq<Seq<char>>
    decreases s.len(),
{
    if s.len() == 0 {
        Seq::empty()
    } else {
        let r = skill_list(s.drop_last());
        let c = clean_inline(s.last());
        if c.len() > 0 {
            r.push(c)
        } else {
            r
        }
    }
}

/// `s` when `shown`, else empty.
pub open spec fn shown_or_empty(shown: bool, s: Seq<char>) -> Seq<char> {
    if shown {
        safe_text(s)
    } else {
        Seq::empty()
    }
}

/// The JSON Resume document of a resume under the given options.
pub open spec fn json_resume_of(
    r: ResumeDataV,
    include_name: bool,
    include_gender: bool,
    include_age: bool,
    include_contact: bool,
    include_skills: bool,
) -> JsonResumeV {
    let b = r.basic_info;
    JsonResumeV {
        basics: JsonBasicsV {
            name: shown_or_empty(include_name, b.name),
            gender: shown_or_empty(include_gender, b.gender),
            age: shown_or_empty(include_age, b.age),
            phone: shown_or_empty(include_contact, b.contact),
        },
        work: work_list(by_rank(r.work_experience)),
        education: education_list(b.education),
        skills: if include_skills {
            skill_list(b.skills)
        } else {
            Seq::empty()
        },
        projects: project_list(by_rank(r.project_experience)),
        certificates: b.certificates.map_values(|c: Seq<char>| clean_inline(c)),
    }
}

fn work_entries(items: &Vec<WorkItem>) -> (r: Vec<JsonWork>)
    ensures
        r@.map_values(|w: JsonWork| w@) == work_list(items@.map_values(|w: WorkItem| w@)),
{
    let ghost iv = items@.map_values(|w: WorkItem| w@);
    let mut r: Vec<JsonWork> = Vec::new();
    let mut i: usize = 0;
    assert(iv.take(0) =~= Seq::<WorkItemV>::empty());
    while i < items.len()
        invariant
            i <= items.len(),
            iv == items@.map_values(|w: WorkItem| w@),
            r@.map_values(|w: JsonWork| w@) == work_list(iv.take(i as int)),
        decreases items.len() - i,
    {
        let w = &items[i];
        assert(iv.take(i + 1).drop_last() =~= iv.take(i as int));
        assert(iv.take(i + 1).last() == w@);
        if !blank_exec(&w.company) || !blank_exec(&w.position) || !blank_exec(&w.period)
            || !blank_exec(&w.description) {
            let e = JsonWork {
                name: safe(&w.company),
                position: safe(&w.position),
                end_date: safe(&w.period),
                summary: chars_to_string(&clean(&w.description)),
            };
            proof {
                lemma_map_push(r@, e, |w: JsonWork| w@);
            }
            r.push(e);
        }
        i += 1;
    }
    assert(iv.take(i as int) =~= iv);
    r
}

fn education_entries(items: &Vec<EducationItem>) -> (r: Vec<JsonEducation>)
    ensures
        r@.map_values(|e: JsonEducation| e@) == education_list(
            items@.map_values(|e: EducationItem| e@),
        ),
{
    let ghost iv = items@.map_values(|e: EducationItem| e@);
    let mut r: Vec<JsonEducation> = Vec::new();
    let mut i: usize = 0;
    assert(iv.take(0) =~= Seq::<EducationItemV>::empty());
    while i < items.len()
        invariant
            i <= items.len(),
            iv == items@.map_values(|e: EducationItem| e@),
            r@.map_values(|e: JsonEducation| e@) == education_list(iv.take(i as int)),
        decreases items.len() - i,
    {
        let e = &items[i];
        assert(iv.take(i + 1).drop_last() =~= iv.take(i as int));
        assert(iv.take(i + 1).last() == e@);
        if !blank_exec(&e.school) || !blank_exec(&e.degree) || !blank_exec(&e.major)
            || !blank_exec(&e.period) {
            let j = JsonEducation {
                institution: safe(&e.school),
                area: safe(&e.major),
                study_type: safe(&e.degree),
                end_date: safe(&e.period),
            };
            proof {
                lemma_map_push(r@, j, |e: JsonEducation| e@);
            }
            r.push(j);
        }
        i += 1;
    }
    assert(iv.take(i as int) =~= iv);
    r
}

fn project_entries(items: &Vec<ProjectItem>) -> (r: Vec<JsonProject>)
    ensures
        r@.map_values(|p: JsonProject| p@) == project_list(
            items@.map_values(|p: ProjectItem| p@),
        ),
{
    let ghost iv = items@.map_values(|p: ProjectItem| p@);
    let mut r: Vec<JsonProject> = Vec::new();
    let mut i: usize = 0;
    assert(iv.take(0) =~= Seq::<ProjectItemV>::empty());
    while i < items.len()
        invariant
            i <= items.len(),
            iv == items@.map_values(|p: ProjectItem| p@),
            r@.map_values(|p: JsonProject| p@) == project_list(iv.take(i as int)),
        decreases items.len() - i,
    {
        let p = &items[i];
        assert(iv.take(i + 1).drop_last() =~= iv.take(i as int));
        assert(iv.take(i + 1).last() == p@);
        if !blank_exec(&p.project_name) || !blank_exec(&p.project_description) || !blank_exec(
            &p.project_achievements,
        ) {
            let ach = clean(&p.project_achievements);
            let mut highlights: Vec<String> = Vec::new();
            if ach.len() > 0 {
                highlights.push(chars_to_string(&ach));
            }
            assert(strings_view(highlights@) =~= project_json(p@).highlights);
            let j = JsonProject {
                name: safe(&p.project_name),
                description: chars_to_string(&clean(&p.project_description)),
                highlights,
            };
            proof {
                lemma_map_push(r@, j, |p: JsonProject| p@);
            }
            r.push(j);
        }
        i += 1;
    }
    assert(iv.take(i as int) =~= iv);
    r
}

fn skill_entries(items: &Vec<String>) -> (r: Vec<String>)
    ensures
        strings_view(r@) == skill_list(strings_view(items@)),
{
    let ghost iv = strings_view(items@);
    let mut r: Vec<String> = Vec::new();
    let mut i: usize = 0;
    assert(iv.take(0) =~= Seq::<Seq<char>>::empty());
    while i < items.len()
        invariant
            i <= items.len(),
            iv == strings_view(items@),
            strings_view(r@) == skill_list(iv.take(i as int)),
        decreases items.len() - i,
    {
        assert(iv.take(i + 1).drop_last() =~= iv.take(i as int));
        assert(iv.take(i + 1).last() == items@[i as int]@);
        let c = clean(&items[i]);
        if c.len() > 0 {
            let s = chars_to_string(&c);
            proof {
                lemma_map_push(r@, s, |s: String| s@);
            }
            r.push(s);
        }
        i += 1;
    }
    assert(iv.take(i as int) =~= iv);
    r
}

fn certificate_entries(items: &Vec<String>) -> (r: Vec<String>)
    ensures
        strings_view(r@) == strings_view(items@).map_values(|c: Seq<char>| clean_inline(c)),
{
    let ghost iv = strings_view(items@);
    let mut r: Vec<String> = Vec::new();
    let mut i: usize = 0;
    while i < items.len()
        invariant
            i <= items.len(),
            iv == strings_view(items@),
            strings_view(r@) == iv.take(i as int).map_values(|c: Seq<char>| clean_inline(c)),
        decreases items.len() - i,
    {
        let s = chars_to_string(&clean(&items[i]));
        proof {
            lemma_map_push(r@, s, |s: String| s@);
            lemma_map_push(iv.take(i as int), iv[i as int], |c: Seq<char>| clean_inline(c));
            assert(iv.take(i + 1) =~= iv.take(i as int).push(iv[i as int]));
        }
        r.push(s);
        i += 1;
    }
    assert(iv.take(i as int) =~= iv);
    r
}

/// `safe_text` of `s` when `shown`, else the empty text.
fn shown_field(shown: bool, s: &String) -> (r: String)
    ensures
        r@ == shown_or_empty(shown, s@),
{
    if shown {
        safe(s)
    } else {
        String::new()
    }
}

/// The JSON Resume document of a resume: basic fields as the options select
/// them, work and project entries ordered by the numbers of their keys (keys
/// that are not numbers counting as 0), blank entries left out, texts with
/// their white space runs collapsed and empty required texts shown as `-`.
pub fn resume_data_to_json_resume(resume: &ResumeData, options: &PdfExportOptions) -> (r:
    JsonResume)
    ensures
        r@ == json_resume_of(
            resume@,
            options.include_name,
            options.include_gender,
            options.include_age,
            options.include_contact,
            options.include_skills,
        ),
{
    let b = &resume.basic_info;
    let work_items = work_by_rank(&resume.work_experience);
    let project_items = project_by_rank(&resume.project_experience);
    proof {
        assert(keyed_view(resume.work_experience@) =~= resume@.work_experience);
        assert(keyed_view(resume.project_experience@) =~= resume@.project_experience);
    }
    let skills = if options.include_skills {
        skill_entries(&b.skills)
    } else {
        Vec::new()
    };
    let r = JsonResume {
        basics: JsonBasics {
            name: shown_field(options.include_name, &b.name),
            gender: shown_field(options.include_gender, &b.gender),
            age: shown_field(options.include_age, &b.age),
            phone: shown_field(options.include_contact, &b.contact),
        },
        work: work_entries(&work_items),
        education: education_entries(&b.education),
        skills,
        projects: project_entries(&project_items),
        certificates: certificate_entries(&b.certificates),
    };
    proof {
        assert(strings_view(r.skills@) =~= json_resume_of(
            resume@,
            options.include_name,
            options.include_gender,
            options.include_age,
            options.include_contact,
            options.include_skills,
        ).skills);
    }
    r
}

proof fn lemma_safe_text_nonempty(s: Seq<char>)
    ensures
        safe_text(s).len() > 0,
{
}

proof fn lemma_work_list_filled(s: Seq<WorkItemV>)
    ensures
        forall|k: int|
            0 <= k < work_list(s).len() ==> (#[trigger] work_list(s)[k]).name.len() > 0
                && work_list(s)[k].position.len() > 0 && work_list(s)[k].end_date.len() > 0,
        work_list(s).len() <= s.len(),
    decreases s.len(),
{
    if s.len() > 0 {
        lemma_work_list_filled(s.drop_last());
        let w = s.last();
        lemma_safe_text_nonempty(w.company);
        lemma_safe_text_nonempty(w.position);
        lemma_safe_text_nonempty(w.period);
    }
}

proof fn lemma_education_list_filled(s: Seq<EducationItemV>)
    ensures
        forall|k: int|
            0 <= k < education_list(s).len() ==> (#[trigger] education_list(s)[k]).institution.len()
                > 0 && education_list(s)[k].area.len() > 0 && education_list(s)[k].study_type.len()
                > 0 && education_list(s)[k].end_date.len() > 0,
        education_list(s).len() <= s.len(),
    decreases s.len(),
{
    if s.len() > 0 {
        lemma_education_list_filled(s.drop_last());
        let e = s.last();
        lemma_safe_text_nonempty(e.school);
        lemma_safe_text_nonempty(e.major);
        lemma_safe_text_nonempty(e.degree);
        lemma_safe_text_nonempty(e.period);
    }
}

proof fn lemma_project_list_filled(s: Seq<ProjectItemV>)
    ensures
        forall|k: int|
            0 <= k < project_list(s).len() ==> (#[trigger] project_list(s)[k]).name.len() > 0
                && project_list(s)[k].highlights.len() <= 1,
        project_list(s).len() <= s.len(),
    decreases s.len(),
{
    if s.len() > 0 {
        lemma_project_list_filled(s.drop_last());
        lemma_safe_text_nonempty(s.last().project_name);
    }
}

proof fn lemma_skill_list_nonempty(s: Seq<Seq<char>>)
    ensures
        forall|k: int| 0 <= k < skill_list(s).len() ==> (#[trigger] skill_list(s)[k]).len() > 0,
    decreases s.len(),
{
    if s.len() > 0 {
        lemma_skill_list_nonempty(s.drop_last());
        let r = skill_list(s.drop_last());
        let c = clean_inline(s.last());
        if c.len() > 0 {
            assert forall|k: int| 0 <= k < r.push(c).len() implies (#[trigger] r.push(c)[k]).len()
                > 0 by {
                if k < r.len() {
                    assert(r.push(c)[k] == r[k]);
                }
            }
        }
    }
}

/// In the document every listed work entry has a company, position and
/// period, every education entry a school, major, degree and period, every
/// project a name (a missing text shows as `-`), and every skill a name; a
/// basic field is empty exactly when the options leave it out. No more
/// entries are listed than the resume has.
pub proof fn law_listed_fields_filled(
    r: ResumeDataV,
    include_name: bool,
    include_gender: bool,
    include_age: bool,
    include_contact: bool,
    include_skills: bool,
)
    ensures
        ({
            let d = json_resume_of(
                r,
                include_name,
                include_gender,
                include_age,
                include_contact,
                include_skills,
            );
            &&& forall|k: int|
                0 <= k < d.work.len() ==> (#[trigger] d.work[k]).name.len() > 0
                    && d.work[k].position.len() > 0 && d.work[k].end_date.len() > 0
            &&& forall|k: int|
                0 <= k < d.education.len() ==> (#[trigger] d.education[k]).institution.len() > 0
                    && d.education[k].area.len() > 0 && d.education[k].study_type.len() > 0
                    && d.education[k].end_date.len() > 0
            &&& forall|k: int| 0 <= k < d.projects.len() ==> (#[trigger] d.projects[k]).name.len() > 0
            &&& forall|k: int| 0 <= k < d.skills.len() ==> (#[trigger] d.skills[k]).len() > 0
            &&& d.work.len() <= r.work_experience.len()
            &&& d.education.len() <= r.basic_info.education.len()
            &&& d.projects.len() <= r.project_experience.len()
            &&& d.certificates.len() == r.basic_info.certificates.len()
            &&& (d.basics.name.len() > 0 <==> include_name)
            &&& (d.basics.gender.len() > 0 <==> include_gender)
            &&& (d.basics.age.len() > 0 <==> include_age)
            &&& (d.basics.phone.len() > 0 <==> include_contact)
            &&& (!include_skills ==> d.skills.len() == 0)
        }),
{
    lemma_work_list_filled(by_rank(r.work_experience));
    lemma_education_list_filled(r.basic_info.education);
    lemma_project_list_filled(by_rank(r.project_experience));
    lemma_skill_list_nonempty(r.basic_info.skills);
    lemma_sort_by_rank_len(ranked(r.work_experience));
    lemma_sort_by_rank_len(ranked(r.project_experience));
    lemma_safe_text_nonempty(r.basic_info.name);
    lemma_safe_text_nonempty(r.basic_info.gender);
    lemma_safe_text_nonempty(r.basic_info.age);
    lemma_safe_text_nonempty(r.basic_info.contact);
}

proof fn lemma_insert_by_rank_len<V>(v: Seq<(i32, V)>, x: (i32, V))
    ensures
        insert_by_rank(v, x).len() == v.len() + 1,
    decreases v.len(),
{
    if v.len() > 0 && !(x.0 < v[0].0) {
        lemma_insert_by_rank_len(v.drop_first(), x);
    }
}

proof fn lemma_sort_by_rank_len<V>(s: Seq<(i32, V)>)
    ensures
        sort_by_rank(s).len() == s.len(),
    decreases s.len(),
{
    if s.len() > 0 {
        lemma_sort_by_rank_len(s.drop_last());
        lemma_insert_by_rank_len(sort_by_rank(s.drop_last()), s.last());
    }
}

} // verus!
