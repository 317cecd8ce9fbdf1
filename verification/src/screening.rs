//! Screening candidates against a job description: the limits of a run, which
//! parsed resumes take part (one per person), and their ranking by score.

use crate::library::{fallback_identity_key, fallback_key_of, identity_key, identity_key_of};
use crate::schema::{strings_view, JdScreeningIndex, ParsedJdScoreRecord, ParsedResultRecord, ResumeRecord};
use crate::strset::take_at_most;
use crate::text::{chars_eq, chars_to_string, str_chars, trim, trim_chars, vecs_view};
use crate::model_reply::HrScore;
use vstd::prelude::*;

verus! {

/// How many ranked candidates are returned: 10 when the limit is not
/// positive, at most 200.
pub open spec fn limit_of(limit: i32) -> usize {
    let n: int = if limit <= 0 {
        10
    } else {
        limit as int
    };
    if n > 200 {
        200
    } else {
        n as usize
    }
}

pub fn clamp_limit(limit: i32) -> (r: usize)
    ensures
        r == limit_of(limit),
{
    let n: i32 = if limit <= 0 {
        10
    } else {
        limit
    };
    if n > 200 {
        200
    } else {
        n as usize
    }
}

/// How many candidates go on to the model ranking: the request when it is in
/// 1..=200, else 25.
pub open spec fn pool_of(rerank_pool: i32) -> usize {
    if 1 <= rerank_pool <= 200 {
        rerank_pool as usize
    } else {
        25
    }
}

pub fn rerank_pool_size(rerank_pool: i32) -> (r: usize)
    ensures
        r == pool_of(rerank_pool),
{
    if 1 <= rerank_pool && rerank_pool <= 200 {
        rerank_pool as usize
    } else {
        25
    }
}

/// The key one person's parsed resumes share: the library id when there is
/// one, else `name|age|contact`, else `name|source file`, else the parsed id.
pub open spec fn dedupe_key_of(x: ParsedJdScoreRecord) -> Seq<char> {
    match x.resume_id {
        Some(id) if trim(id@).len() > 0 => trim(id@),
        _ => match identity_key_of(x.candidate_name@, x.age@, x.contact@) {
            Some(k) => k,
            None => match fallback_key_of(x.candidate_name@, x.source_file@) {
                Some(k) => k,
                None => x.parsed_id@,
            },
        },
    }
}

pub fn candidate_dedupe_key(x: &ParsedJdScoreRecord) -> (r: Vec<char>)
    ensures
        r@ == dedupe_key_of(*x),
{
    match &x.resume_id {
        Some(id) => {
            let t = trim_chars(&str_chars(id.as_str()));
            if t.len() > 0 {
                return t;
            }
        },
        None => {},
    }
    match identity_key(x.candidate_name.as_str(), x.age.as_str(), x.contact.as_str()) {
        Some(k) => str_chars(k.as_str()),
        None => match fallback_identity_key(x.candidate_name.as_str(), x.source_file.as_str()) {
            Some(k) => str_chars(k.as_str()),
            None => str_chars(x.parsed_id.as_str()),
        },
    }
}

/// A candidate whose library id is given but no longer in the library is left out.
pub open spec fn candidate_valid(x: ParsedJdScoreRecord, valid_ids: Seq<Seq<char>>) -> bool {
    match x.resume_id {
        Some(id) => trim(id@).len() == 0 || valid_ids.contains(trim(id@)),
        None => true,
    }
}

/// `v` holds an item equal to `x`.
fn holds(v: &Vec<Vec<char>>, x: &Vec<char>) -> (r: bool)
    ensures
        r == vecs_view(v@).contains(x@),
{
    let mut i: usize = 0;
    while i < v.len()
        invariant
            i <= v.len(),
            forall|k: int| 0 <= k < i ==> vecs_view(v@)[k] != x@,
        decreases v.len() - i,
    {
        if chars_eq(&v[i], x) {
            assert(vecs_view(v@)[i as int] == x@);
            return true;
        }
        i += 1;
    }
    false
}

pub fn is_valid_candidate(x: &ParsedJdScoreRecord, valid_ids: &Vec<Vec<char>>) -> (r: bool)
    ensures
        r == candidate_valid(*x, vecs_view(valid_ids@)),
{
    match &x.resume_id {
        Some(id) => {
            let t = trim_chars(&str_chars(id.as_str()));
            t.len() == 0 || holds(valid_ids, &t)
        },
        None => true,
    }
}

/// The library ids, trimmed, blank ones dropped.
pub open spec fn valid_ids_of(ids: Seq<Seq<char>>) -> Seq<Seq<char>>
    decreases ids.len(),
{
    if ids.len() == 0 {
        Seq::empty()
    } else {
        let r = valid_ids_of(ids.drop_last());
        let t = trim(ids.last());
        if t.len() > 0 {
            r.push(t)
        } else {
            r
        }
    }
}

pub fn library_ids(ids: &Vec<String>) -> (r: Vec<Vec<char>>)
    ensures
        vecs_view(r@) == valid_ids_of(strings_view(ids@)),
{
    let mut out: Vec<Vec<char>> = Vec::new();
    let mut i: usize = 0;
    assert(strings_view(ids@).take(0) =~= Seq::<Seq<char>>::empty());
    while i < ids.len()
        invariant
            i <= ids.len(),
            vecs_view(out@) == valid_ids_of(strings_view(ids@).take(i as int)),
        decreases ids.len() - i,
    {
        assert(strings_view(ids@).take(i + 1).drop_last() =~= strings_view(ids@).take(i as int));
        let t = trim_chars(&str_chars(ids[i].as_str()));
        if t.len() > 0 {
            let ghost before = vecs_view(out@);
            out.push(t);
            assert(vecs_view(out@) =~= before.push(vecs_view(out@).last()));
        }
        i += 1;
    }
    assert(strings_view(ids@).take(ids.len() as int) =~= strings_view(ids@));
    out
}

/// The valid candidates, one per person (the first met), in order.
pub open spec fn prefiltered(rs: Seq<ParsedJdScoreRecord>, valid_ids: Seq<Seq<char>>) -> Seq<
    ParsedJdScoreRecord,
>
    decreases rs.len(),
{
    if rs.len() == 0 {
        Seq::empty()
    } else {
        let r = prefiltered(rs.drop_last(), valid_ids);
        let x = rs.last();
        if !candidate_valid(x, valid_ids) || r.map_values(|y: ParsedJdScoreRecord| dedupe_key_of(y)).contains(
            dedupe_key_of(x),
        ) {
            r
        } else {
            r.push(x)
        }
    }
}

/// `x` placed after every candidate whose score is not below its own.
pub open spec fn insert_by_score(v: Seq<ParsedJdScoreRecord>, x: ParsedJdScoreRecord) -> Seq<
    ParsedJdScoreRecord,
>
    decreases v.len(),
{
    if v.len() == 0 {
        seq![x]
    } else if v[0].score < x.score {
        seq![x] + v
    } else {
        seq![v[0]] + insert_by_score(v.drop_first(), x)
    }
}

/// The candidates by score, highest first, keeping the order of equal scores:
/// what a stable sort by descending score gives.
pub open spec fn ranked(s: Seq<ParsedJdScoreRecord>) -> Seq<ParsedJdScoreRecord>
    decreases s.len(),
{
    if s.len() == 0 {
        s
    } else {
        insert_by_score(ranked(s.drop_last()), s.last())
    }
}

proof fn lemma_score_insert_at(v: Seq<ParsedJdScoreRecord>, x: ParsedJdScoreRecord, i: int)
    requires
        0 <= i <= v.len(),
        forall|k: int| 0 <= k < i ==> (#[trigger] v[k]).score >= x.score,
        i < v.len() ==> v[i].score < x.score,
    ensures
        insert_by_score(v, x) == v.insert(i, x),
    decreases i,
{
    if i == 0 {
        if v.len() > 0 {
            assert(seq![x] + v =~= v.insert(0, x));
        } else {
            assert(seq![x] =~= v.insert(0, x));
        }
    } else {
        let rest = v.drop_first();
        assert forall|k: int| 0 <= k < i - 1 implies (#[trigger] rest[k]).score >= x.score by {
            assert(rest[k] == v[k + 1]);
        }
        lemma_score_insert_at(rest, x, i - 1);
        assert(seq![v[0]] + rest.insert(i - 1, x) =~= v.insert(i, x));
    }
}

fn insert_by_score_exec(v: &mut Vec<ParsedJdScoreRecord>, x: ParsedJdScoreRecord)
    ensures
        final(v)@ == insert_by_score(old(v)@, x),
{
    let ghost vv = v@;
    let mut i: usize = 0;
    while i < v.len() && v[i].score >= x.score
        invariant
            i <= v.len(),
            vv == v@,
            forall|k: int| 0 <= k < i ==> (#[trigger] vv[k]).score >= x.score,
        decreases v.len() - i,
    {
        i += 1;
    }
    proof {
        lemma_score_insert_at(vv, x, i as int);
    }
    v.insert(i, x);
}

/// Ranks candidates by score, as `ranked` states it.
pub fn rank_by_score(rs: Vec<ParsedJdScoreRecord>) -> (r: Vec<ParsedJdScoreRecord>)
    ensures
        r@ == ranked(rs@),
{
    let ghost orig = rs@;
    assert(orig.len() == rs.len());
    let mut rs = rs;
    let mut out: Vec<ParsedJdScoreRecord> = Vec::new();
    let mut i: usize = 0;
    assert(orig.take(0) =~= Seq::<ParsedJdScoreRecord>::empty());
    while rs.len() > 0
        invariant
            i + rs.len() == orig.len(),
            orig.len() <= usize::MAX,
            rs@ == orig.skip(i as int),
            out@ == ranked(orig.take(i as int)),
        decreases rs.len(),
    {
        let x = rs.remove(0);
        assert(orig[i as int] == x);
        insert_by_score_exec(&mut out, x);
        assert(orig.take(i + 1).drop_last() =~= orig.take(i as int));
        assert(rs@ =~= orig.skip(i + 1));
        i += 1;
    }
    assert(orig.take(i as int) =~= orig);
    out
}

/// At most the first `n` items.
fn truncate_to(v: Vec<ParsedJdScoreRecord>, n: usize) -> (r: Vec<ParsedJdScoreRecord>)
    ensures
        r@ == take_at_most(v@, n as nat),
{
    let ghost orig = v@;
    let mut v = v;
    if v.len() > n {
        v.truncate(n);
        assert(v@ =~= orig.take(n as int));
    }
    v
}

/// The valid candidates, one per person, as `prefiltered` states it.
pub fn prefilter_candidates(rs: Vec<ParsedJdScoreRecord>, valid_ids: &Vec<Vec<char>>) -> (r: Vec<
    ParsedJdScoreRecord,
>)
    ensures
        r@ == prefiltered(rs@, vecs_view(valid_ids@)),
{
    let ghost orig = rs@;
    let ghost vi = vecs_view(valid_ids@);
    assert(orig.len() == rs.len());
    let mut rs = rs;
    let mut out: Vec<ParsedJdScoreRecord> = Vec::new();
    let mut seen: Vec<Vec<char>> = Vec::new();
    let mut i: usize = 0;
    assert(orig.take(0) =~= Seq::<ParsedJdScoreRecord>::empty());
    while rs.len() > 0
        invariant
            i + rs.len() == orig.len(),
            orig.len() <= usize::MAX,
            vi == vecs_view(valid_ids@),
            rs@ == orig.skip(i as int),
            out@ == prefiltered(orig.take(i as int), vi),
            vecs_view(seen@) == out@.map_values(|y: ParsedJdScoreRecord| dedupe_key_of(y)),
        decreases rs.len(),
    {
        let x = rs.remove(0);
        assert(orig[i as int] == x);
        assert(orig.take(i + 1).drop_last() =~= orig.take(i as int));
        assert(orig.take(i + 1).last() == x);
        if is_valid_candidate(&x, valid_ids) {
            let key = candidate_dedupe_key(&x);
            if !holds(&seen, &key) {
                let ghost before = out@;
                let ghost sb = vecs_view(seen@);
                let ghost xv = x;
                out.push(x);
                seen.push(key);
                assert(vecs_view(seen@) =~= sb.push(dedupe_key_of(xv)));
                assert(out@.map_values(|y: ParsedJdScoreRecord| dedupe_key_of(y)) =~= before.map_values(
                    |y: ParsedJdScoreRecord| dedupe_key_of(y),
                ).push(dedupe_key_of(xv)));
            }
        }
        assert(rs@ =~= orig.skip(i + 1));
        i += 1;
    }
    assert(orig.take(i as int) =~= orig);
    out
}

/// The candidates that go on to the model ranking: valid, one per person,
/// ranked by their keyword score, at most `pool` of them.
pub open spec fn shortlist(rs: Seq<ParsedJdScoreRecord>, valid_ids: Seq<Seq<char>>, pool: usize) -> Seq<
    ParsedJdScoreRecord,
> {
    take_at_most(ranked(prefiltered(rs, valid_ids)), pool as nat)
}

pub fn select_shortlist(rs: Vec<ParsedJdScoreRecord>, valid_ids: &Vec<Vec<char>>, pool: usize) -> (r:
    Vec<ParsedJdScoreRecord>)
    ensures
        r@ == shortlist(rs@, vecs_view(valid_ids@), pool),
{
    truncate_to(rank_by_score(prefilter_candidates(rs, valid_ids)), pool)
}

/// The best `n` candidates by score, highest first (all when fewer).
pub open spec fn top_ranked(rs: Seq<ParsedJdScoreRecord>, n: nat) -> Seq<ParsedJdScoreRecord> {
    take_at_most(ranked(rs), n)
}

/// The final ranking: by score, highest first, at most `top_n`.
pub fn final_ranking(rs: Vec<ParsedJdScoreRecord>, top_n: usize) -> (r: Vec<ParsedJdScoreRecord>)
    ensures
        r@ == top_ranked(rs@, top_n as nat),
{
    truncate_to(rank_by_score(rs), top_n)
}

/// A stored screening index worth sending to the model: it has a summary,
/// skills or bullets.
pub fn index_usable(idx: &JdScreeningIndex) -> (r: bool)
    ensures
        r == (trim(idx.summary_for_jd@).len() > 0 || idx.skill_tags@.len() > 0 || trim(
            idx.work_bullets@,
        ).len() > 0 || trim(idx.project_bullets@).len() > 0),
{
    trim_chars(&str_chars(idx.summary_for_jd.as_str())).len() > 0 || idx.skill_tags.len() > 0
        || trim_chars(&str_chars(idx.work_bullets.as_str())).len() > 0 || trim_chars(
        &str_chars(idx.project_bullets.as_str()),
    ).len() > 0
}

/// The name shown for a locally scored candidate: the stored name, or the
/// resume's name trimmed when the stored one is blank.
pub fn local_candidate_name(stored: String, resume_name: &str) -> (r: String)
    ensures
        r@ == (if trim(stored@).len() == 0 {
            trim(resume_name@)
        } else {
            stored@
        }),
{
    if trim_chars(&str_chars(stored.as_str())).len() == 0 {
        chars_to_string(&trim_chars(&str_chars(resume_name)))
    } else {
        stored
    }
}

/// The ids to delete, trimmed, blank ones dropped, each once, in order.
pub open spec fn ids_to_delete(ids: Seq<Seq<char>>) -> Seq<Seq<char>>
    decreases ids.len(),
{
    if ids.len() == 0 {
        Seq::empty()
    } else {
        let r = ids_to_delete(ids.drop_last());
        let t = trim(ids.last());
        if t.len() == 0 || r.contains(t) {
            r
        } else {
            r.push(t)
        }
    }
}

pub fn delete_plan(ids: &Vec<String>) -> (r: Vec<String>)
    ensures
        strings_view(r@) == ids_to_delete(strings_view(ids@)),
{
    let mut out: Vec<Vec<char>> = Vec::new();
    let mut i: usize = 0;
    assert(strings_view(ids@).take(0) =~= Seq::<Seq<char>>::empty());
    while i < ids.len()
        invariant
            i <= ids.len(),
            vecs_view(out@) == ids_to_delete(strings_view(ids@).take(i as int)),
        decreases ids.len() - i,
    {
        assert(strings_view(ids@).take(i + 1).drop_last() =~= strings_view(ids@).take(i as int));
        let t = trim_chars(&str_chars(ids[i].as_str()));
        if t.len() > 0 && !holds(&out, &t) {
            let ghost before = vecs_view(out@);
            out.push(t);
            assert(vecs_view(out@) =~= before.push(vecs_view(out@).last()));
        }
        i += 1;
    }
    assert(strings_view(ids@).take(ids.len() as int) =~= strings_view(ids@));
    crate::jd::to_strings(&out)
}

/// The ids of the deletion plan that name a library entry, in order: those
/// that are deleted and counted.
pub open spec fn ids_found(plan: Seq<Seq<char>>, library: Seq<Seq<char>>) -> Seq<Seq<char>>
    decreases plan.len(),
{
    if plan.len() == 0 {
        Seq::empty()
    } else {
        let r = ids_found(plan.drop_last(), library);
        if library.contains(plan.last()) {
            r.push(plan.last())
        } else {
            r
        }
    }
}

/// The planned ids that stand in the library (given by its entries' ids).
pub fn found_ids(plan: &Vec<String>, library_ids: &Vec<String>) -> (r: Vec<String>)
    ensures
        strings_view(r@) == ids_found(strings_view(plan@), strings_view(library_ids@)),
{
    let mut lib: Vec<Vec<char>> = Vec::new();
    let mut j: usize = 0;
    while j < library_ids.len()
        invariant
            j <= library_ids.len(),
            vecs_view(lib@) == strings_view(library_ids@).take(j as int),
        decreases library_ids.len() - j,
    {
        let ghost before = vecs_view(lib@);
        lib.push(str_chars(library_ids[j].as_str()));
        assert(vecs_view(lib@) =~= before.push(strings_view(library_ids@)[j as int]));
        assert(strings_view(library_ids@).take(j + 1) =~= strings_view(library_ids@).take(j as int).push(
            strings_view(library_ids@)[j as int],
        ));
        j += 1;
    }
    assert(strings_view(library_ids@).take(library_ids.len() as int) =~= strings_view(library_ids@));
    let mut out: Vec<String> = Vec::new();
    let mut i: usize = 0;
    assert(strings_view(plan@).take(0) =~= Seq::<Seq<char>>::empty());
    while i < plan.len()
        invariant
            i <= plan.len(),
            vecs_view(lib@) == strings_view(library_ids@),
            strings_view(out@) == ids_found(strings_view(plan@).take(i as int), strings_view(library_ids@)),
        decreases plan.len() - i,
    {
        assert(strings_view(plan@).take(i + 1).drop_last() =~= strings_view(plan@).take(i as int));
        if holds(&lib, &str_chars(plan[i].as_str())) {
            let ghost before = strings_view(out@);
            out.push(plan[i].clone());
            assert(strings_view(out@) =~= before.push(plan@[i as int]@));
        }
        i += 1;
    }
    assert(strings_view(plan@).take(plan.len() as int) =~= strings_view(plan@));
    out
}

proof fn lemma_ids_to_delete_distinct(ids: Seq<Seq<char>>)
    ensures
        ids_to_delete(ids).no_duplicates(),
    decreases ids.len(),
{
    if ids.len() > 0 {
        lemma_ids_to_delete_distinct(ids.drop_last());
    }
}

proof fn lemma_ids_found_members(plan: Seq<Seq<char>>, library: Seq<Seq<char>>)
    requires
        plan.no_duplicates(),
    ensures
        ids_found(plan, library).no_duplicates(),
        forall|s: Seq<char>|
            ids_found(plan, library).contains(s) <==> (plan.contains(s) && library.contains(s)),
    decreases plan.len(),
{
    if plan.len() > 0 {
        let p = plan.drop_last();
        assert(p.no_duplicates()) by {
            assert forall|a: int, b: int| 0 <= a < b < p.len() implies p[a] != p[b] by {
                assert(p[a] == plan[a] && p[b] == plan[b]);
            }
        }
        lemma_ids_found_members(p, library);
        assert(!p.contains(plan.last())) by {
            if p.contains(plan.last()) {
                let k = choose|k: int| 0 <= k < p.len() && p[k] == plan.last();
                assert(plan[k] == plan[plan.len() - 1]);
            }
        }
        assert forall|s: Seq<char>| plan.contains(s) <==> (p.contains(s) || s == plan.last()) by {
            if plan.contains(s) {
                let k = choose|k: int| 0 <= k < plan.len() && plan[k] == s;
                if k < plan.len() - 1 {
                    assert(p[k] == s);
                }
            }
            if p.contains(s) {
                let k = choose|k: int| 0 <= k < p.len() && p[k] == s;
                assert(plan[k] == s);
            }
        }
        let r = ids_found(p, library);
        if library.contains(plan.last()) {
            assert forall|s: Seq<char>| r.push(plan.last()).contains(s) <==> (r.contains(s) || s == plan.last()) by {
                if r.push(plan.last()).contains(s) {
                    let k = choose|k: int| 0 <= k < r.len() + 1 && r.push(plan.last())[k] == s;
                    if k < r.len() {
                        assert(r[k] == s);
                    }
                }
                if r.contains(s) {
                    let k = choose|k: int| 0 <= k < r.len() && r[k] == s;
                    assert(r.push(plan.last())[k] == s);
                }
                if s == plan.last() {
                    assert(r.push(plan.last())[r.len() as int] == s);
                }
            }
        }
    } else {
        assert forall|s: Seq<char>| !plan.contains(s) by {}
    }
}

/// Deleting by a list of ids counts each distinct non-blank trimmed id once,
/// and only when the library holds an entry with that id: the ids counted
/// are exactly those, with none twice.
pub proof fn law_deletion_counts_found_ids(ids: Seq<Seq<char>>, library: Seq<Seq<char>>)
    ensures
        ids_found(ids_to_delete(ids), library).no_duplicates(),
        forall|s: Seq<char>|
            ids_found(ids_to_delete(ids), library).contains(s) <==> (ids_to_delete(ids).contains(s)
                && library.contains(s)),
{
    lemma_ids_to_delete_distinct(ids);
    lemma_ids_found_members(ids_to_delete(ids), library);
}

/// A parsed result belongs to a deleted library entry when it was made from
/// the entry (its id), or from the entry's file for the same person (for
/// anyone when the entry holds no name).
pub open spec fn row_linked(row: ParsedResultRecord, target: ResumeRecord) -> bool {
    let name = trim(target.data.basic_info.name@);
    ||| (row.resume_id matches Some(rid) && rid@ == target.id@)
    ||| (row.source_file@ == trim(target.source_file@) && (name.len() == 0 || row.candidate_name@ == name))
}

pub fn parsed_row_linked(row: &ParsedResultRecord, target: &ResumeRecord) -> (r: bool)
    ensures
        r == row_linked(*row, *target),
{
    let by_id = match &row.resume_id {
        Some(rid) => chars_eq(&str_chars(rid.as_str()), &str_chars(target.id.as_str())),
        None => false,
    };
    if by_id {
        return true;
    }
    let name = trim_chars(&str_chars(target.data.basic_info.name.as_str()));
    chars_eq(&str_chars(row.source_file.as_str()), &trim_chars(&str_chars(target.source_file.as_str())))
        && (name.len() == 0 || chars_eq(&str_chars(row.candidate_name.as_str()), &name))
}

/// What the model is shown to score a candidate.
#[derive(PartialEq, Eq, Structural, Debug, Clone, Copy)]
pub enum ScoreSource {
    /// The screening index made when the resume was parsed.
    Index,
    /// The whole parsed resume.
    Resume,
}

/// The next thing to show the model for a candidate, after `tried` (nothing
/// yet, or a source whose scoring failed): the screening index first when it
/// is usable, then the stored resume when there is one; none when both are
/// used up, and the candidate keeps the score it had.
pub fn next_score_source(tried: Option<ScoreSource>, index_usable: bool, has_resume: bool) -> (r:
    Option<ScoreSource>)
    ensures
        r == (match tried {
            None => if index_usable {
                Some(ScoreSource::Index)
            } else if has_resume {
                Some(ScoreSource::Resume)
            } else {
                None
            },
            Some(ScoreSource::Index) => if has_resume {
                Some(ScoreSource::Resume)
            } else {
                None
            },
            Some(ScoreSource::Resume) => None,
        }),
{
    match tried {
        None => if index_usable {
            Some(ScoreSource::Index)
        } else if has_resume {
            Some(ScoreSource::Resume)
        } else {
            None
        },
        Some(ScoreSource::Index) => if has_resume {
            Some(ScoreSource::Resume)
        } else {
            None
        },
        Some(ScoreSource::Resume) => None,
    }
}

pub open spec fn descending(v: Seq<ParsedJdScoreRecord>) -> bool {
    forall|a: int, b: int| 0 <= a < b < v.len() ==> v[a].score >= v[b].score
}

proof fn lemma_insert_score_bounded(v: Seq<ParsedJdScoreRecord>, x: ParsedJdScoreRecord, bound: i32)
    requires
        x.score <= bound,
        forall|k: int| 0 <= k < v.len() ==> (#[trigger] v[k]).score <= bound,
    ensures
        forall|k: int|
            0 <= k < insert_by_score(v, x).len() ==> (#[trigger] insert_by_score(v, x)[k]).score
                <= bound,
    decreases v.len(),
{
    if v.len() > 0 && !(v[0].score < x.score) {
        let rest = v.drop_first();
        assert forall|k: int| 0 <= k < rest.len() implies (#[trigger] rest[k]).score <= bound by {
            assert(rest[k] == v[k + 1]);
        }
        lemma_insert_score_bounded(rest, x, bound);
        let t = insert_by_score(rest, x);
        assert forall|k: int| 0 <= k < insert_by_score(v, x).len() implies (#[trigger] insert_by_score(
            v,
            x,
        )[k]).score <= bound by {
            if k > 0 {
                assert(insert_by_score(v, x)[k] == t[k - 1]);
            }
        }
    } else if v.len() > 0 {
        assert forall|k: int| 0 <= k < insert_by_score(v, x).len() implies (#[trigger] insert_by_score(
            v,
            x,
        )[k]).score <= bound by {
            if k > 0 {
                assert(insert_by_score(v, x)[k] == v[k - 1]);
            }
        }
    }
}

proof fn lemma_insert_by_score_sorted(v: Seq<ParsedJdScoreRecord>, x: ParsedJdScoreRecord)
    requires
        descending(v),
    ensures
        descending(insert_by_score(v, x)),
        insert_by_score(v, x).len() == v.len() + 1,
        insert_by_score(v, x).to_multiset() == v.to_multiset().insert(x),
    decreases v.len(),
{
    broadcast use vstd::multiset::group_multiset_axioms;
    broadcast use vstd::seq_lib::group_to_multiset_ensures;

    if v.len() == 0 {
        assert(seq![x] =~= Seq::<ParsedJdScoreRecord>::empty().push(x));
    } else if v[0].score < x.score {
        assert(seq![x] + v =~= v.insert(0, x));
        vstd::seq_lib::lemma_multiset_commutative(seq![x], v);
        assert forall|a: int, b: int| 0 <= a < b < (seq![x] + v).len() implies (seq![x] + v)[a].score
            >= (seq![x] + v)[b].score by {
            if a > 0 {
                assert((seq![x] + v)[a] == v[a - 1]);
            }
            assert((seq![x] + v)[b] == v[b - 1]);
        }
    } else {
        let rest = v.drop_first();
        assert forall|k: int| 0 <= k < rest.len() implies (#[trigger] rest[k]).score <= v[0].score by {
            assert(rest[k] == v[k + 1]);
        }
        assert(descending(rest)) by {
            assert forall|a: int, b: int| 0 <= a < b < rest.len() implies rest[a].score
                >= rest[b].score by {
                assert(rest[a] == v[a + 1]);
                assert(rest[b] == v[b + 1]);
            }
        }
        lemma_insert_by_score_sorted(rest, x);
        let t = insert_by_score(rest, x);
        let r = seq![v[0]] + t;
        assert forall|a: int, b: int| 0 <= a < b < r.len() implies r[a].score >= r[b].score by {
            if a == 0 {
                lemma_insert_score_bounded(rest, x, v[0].score);
                assert(r[b] == t[b - 1]);
            } else {
                assert(r[a] == t[a - 1]);
                assert(r[b] == t[b - 1]);
            }
        }
        vstd::seq_lib::lemma_multiset_commutative(seq![v[0]], t);
        vstd::seq_lib::lemma_multiset_commutative(seq![v[0]], rest);
        assert(seq![v[0]] + rest =~= v);
    }
}

/// The ranking orders candidates by score, highest first, and keeps every
/// candidate exactly once.
pub proof fn law_ranking_descending(s: Seq<ParsedJdScoreRecord>)
    ensures
        descending(ranked(s)),
        ranked(s).to_multiset() == s.to_multiset(),
    decreases s.len(),
{
    broadcast use vstd::multiset::group_multiset_axioms;

    if s.len() > 0 {
        law_ranking_descending(s.drop_last());
        lemma_insert_by_score_sorted(ranked(s.drop_last()), s.last());
        assert(s.drop_last().push(s.last()) =~= s);
        vstd::seq_lib::to_multiset_build(s.drop_last(), s.last());
    }
}

/// The final ranking holds the best candidates: it is ordered by score,
/// highest first, holds `n` of them (all when there are fewer), takes each
/// from them, and no candidate left out scores above one that was kept.
pub proof fn law_top_ranked_is_best(rs: Seq<ParsedJdScoreRecord>, n: nat)
    ensures
        descending(top_ranked(rs, n)),
        top_ranked(rs, n).len() == (if rs.len() <= n {
            rs.len()
        } else {
            n
        }),
        top_ranked(rs, n).to_multiset().subset_of(rs.to_multiset()),
        forall|x: ParsedJdScoreRecord, k: int|
            #![trigger rs.to_multiset().count(x), top_ranked(rs, n)[k]]
            rs.to_multiset().count(x) > top_ranked(rs, n).to_multiset().count(x) && 0 <= k < top_ranked(
                rs,
                n,
            ).len() ==> x.score <= top_ranked(rs, n)[k].score,
{
    broadcast use vstd::multiset::group_multiset_axioms;

    let q = ranked(rs);
    let r = top_ranked(rs, n);
    law_ranking_descending(rs);
    q.to_multiset_ensures();
    rs.to_multiset_ensures();
    assert(q.len() == rs.len());
    if rs.len() <= n {
        assert(r == q);
    } else {
        assert(r == q.take(n as int));
        let rest = q.skip(n as int);
        assert(q =~= r + rest);
        vstd::seq_lib::lemma_multiset_commutative(r, rest);
        assert(descending(r)) by {
            assert forall|a: int, b: int| 0 <= a < b < r.len() implies r[a].score >= r[b].score by {
                assert(r[a] == q[a] && r[b] == q[b]);
            }
        }
        assert forall|x: ParsedJdScoreRecord, k: int|
            #![trigger rs.to_multiset().count(x), r[k]]
            rs.to_multiset().count(x) > r.to_multiset().count(x) && 0 <= k < r.len() implies x.score
                <= r[k].score by {
            assert(rest.to_multiset().count(x) > 0);
            rest.to_multiset_ensures();
            let j = choose|j: int| 0 <= j < rest.len() && rest[j] == x;
            assert(rest[j] == q[n + j]);
            assert(r[k] == q[k]);
        }
    }
}

/// The shortlist sent on to the model ranking is the best of the valid,
/// one-per-person candidates: it is ordered by score, highest first, holds
/// `pool` of them (all of them when there are fewer), takes each from them,
/// and no candidate left out scores above one that was kept.
pub proof fn law_shortlist_is_best_pool(rs: Seq<ParsedJdScoreRecord>, valid_ids: Seq<Seq<char>>, pool: usize)
    ensures
        descending(shortlist(rs, valid_ids, pool)),
        shortlist(rs, valid_ids, pool).len() == (if prefiltered(rs, valid_ids).len() <= pool {
            prefiltered(rs, valid_ids).len()
        } else {
            pool as nat
        }),
        shortlist(rs, valid_ids, pool).to_multiset().subset_of(prefiltered(rs, valid_ids).to_multiset()),
        forall|x: ParsedJdScoreRecord, k: int|
            #![trigger prefiltered(rs, valid_ids).to_multiset().count(x), shortlist(rs, valid_ids, pool)[k]]
            prefiltered(rs, valid_ids).to_multiset().count(x) > shortlist(rs, valid_ids, pool).to_multiset().count(x)
                && 0 <= k < shortlist(rs, valid_ids, pool).len() ==> x.score <= shortlist(
                rs,
                valid_ids,
                pool,
            )[k].score,
{
    broadcast use vstd::multiset::group_multiset_axioms;

    let p = prefiltered(rs, valid_ids);
    let q = ranked(p);
    let r = shortlist(rs, valid_ids, pool);
    law_ranking_descending(p);
    q.to_multiset_ensures();
    p.to_multiset_ensures();
    assert(q.len() == p.len());
    if p.len() <= pool {
        assert(r == q);
    } else {
        assert(r == q.take(pool as int));
        let rest = q.skip(pool as int);
        assert(q =~= r + rest);
        vstd::seq_lib::lemma_multiset_commutative(r, rest);
        assert(descending(r)) by {
            assert forall|a: int, b: int| 0 <= a < b < r.len() implies r[a].score >= r[b].score by {
                assert(r[a] == q[a] && r[b] == q[b]);
            }
        }
        assert forall|x: ParsedJdScoreRecord, k: int|
            #![trigger p.to_multiset().count(x), r[k]]
            p.to_multiset().count(x) > r.to_multiset().count(x) && 0 <= k < r.len() implies x.score
                <= r[k].score by {
            assert(rest.to_multiset().count(x) > 0);
            rest.to_multiset_ensures();
            let j = choose|j: int| 0 <= j < rest.len() && rest[j] == x;
            assert(rest[j] == q[pool + j]);
            assert(r[k] == q[k]);
        }
    }
}

/// A candidate after the model ranking: the model's total score, sub-scores,
/// evidence and keyword count when the model scored it, else its keyword
/// scores kept.
pub fn apply_hr_score(item: ParsedJdScoreRecord, hr: Option<HrScore>) -> (r: ParsedJdScoreRecord)
    ensures
        r.parsed_id == item.parsed_id,
        r.candidate_name == item.candidate_name,
        r.source_file == item.source_file,
        match hr {
            Some(h) => r == (ParsedJdScoreRecord {
                score: h.total_score,
                score_breakdown: h.breakdown,
                matched_keywords: h.matched_keywords,
                total_keywords: h.total_keywords,
                ..item
            }),
            None => r == item,
        },
{
    match hr {
        Some(h) => {
            let mut it = item;
            it.score = h.total_score;
            it.score_breakdown = h.breakdown;
            it.matched_keywords = h.matched_keywords;
            it.total_keywords = h.total_keywords;
            it
        },
        None => item,
    }
}

} // verus!
