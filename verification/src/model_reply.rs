//! Reading the JSON replies of a model that scores a resume against a job
//! description, and the progress lines of the Word-to-PDF conversion script.
//! Parsing JSON is done by `serde_json`; what is read from it, with which
//! defaults and bounds, is stated here.

use crate::json_read::{
    json_i64_field, json_member_text, json_str_field, json_str_items, json_u64_field, opt_text_view,
    read_i64_field, read_member_text, read_str_field, read_str_items, read_u64_field,
};
use crate::llm::{check_json_syntax, json_syntax_error};
use crate::schema::{strings_view, JdScoreBreakdown};
use crate::text::{
    append_chars, ascii_lower, chars_eq, chars_to_string, lemma_map_push, lower, str_chars, trim,
    trim_chars,
};
use vstd::prelude::*;

verus! {

// ---------------------------------------------------------------- scores

/// A score read from a reply: the integer kept within 0..=100, 0 when absent.
pub open spec fn bounded_score(v: Option<i64>) -> i32 {
    match v {
        Some(x) => if x < 0 {
            0
        } else if x > 100 {
            100
        } else {
            x as i32
        },
        None => 0,
    }
}

fn bounded_score_exec(v: Option<i64>) -> (r: i32)
    ensures
        r == bounded_score(v),
{
    match v {
        Some(x) => if x < 0 {
            0
        } else if x > 100 {
            100
        } else {
            x as i32
        },
        None => 0,
    }
}

/// The strings of an array, absent items and non-strings dropped.
pub open spec fn present_texts(v: Seq<Option<Seq<char>>>) -> Seq<Seq<char>>
    decreases v.len(),
{
    if v.len() == 0 {
        Seq::empty()
    } else {
        let r = present_texts(v.drop_last());
        match v.last() {
            Some(s) => r.push(s),
            None => r,
        }
    }
}

/// The strings of an array that are not blank, at most `cap` of them.
pub open spec fn nonblank_texts(v: Seq<Option<Seq<char>>>, cap: nat) -> Seq<Seq<char>>
    decreases v.len(),
{
    if v.len() == 0 {
        Seq::empty()
    } else {
        let r = nonblank_texts(v.drop_last(), cap);
        match v.last() {
            Some(s) => if trim(s).len() > 0 && r.len() < cap {
                r.push(s)
            } else {
                r
            },
            None => r,
        }
    }
}

/// What the keyword-match reply of a model gives: its score, its matched
/// keywords and its count of keywords (0 when absent).
pub struct MatchScore {
    pub score: i32,
    pub matched_keywords: Vec<String>,
    pub total_keywords: usize,
}

/// The reading of a keyword-match reply, or why it is not JSON.
pub open spec fn match_reply(text: Seq<char>) -> Result<(i32, Seq<Seq<char>>, usize), Seq<char>> {
    match json_syntax_error(text) {
        Some(e) => Err("模型评分 JSON 解析失败："@ + e),
        None => Ok(
            (
                bounded_score(json_i64_field(text, "score"@)),
                match json_str_items(text, "matchedKeywords"@) {
                    Some(items) => present_texts(items),
                    None => Seq::empty(),
                },
                match json_u64_field(text, "totalKeywords"@) {
                    Some(n) => n as usize,
                    None => 0,
                },
            ),
        ),
    }
}

fn present_texts_exec(items: &Vec<Option<String>>) -> (r: Vec<String>)
    ensures
        strings_view(r@) == present_texts(items@.map_values(|o: Option<String>| opt_text_view(o))),
{
    let ghost iv = items@.map_values(|o: Option<String>| opt_text_view(o));
    let mut r: Vec<String> = Vec::new();
    let mut i: usize = 0;
    assert(iv.take(0) =~= Seq::<Option<Seq<char>>>::empty());
    while i < items.len()
        invariant
            i <= items.len(),
            iv == items@.map_values(|o: Option<String>| opt_text_view(o)),
            strings_view(r@) == present_texts(iv.take(i as int)),
        decreases items.len() - i,
    {
        assert(iv.take(i + 1).drop_last() =~= iv.take(i as int));
        assert(iv.take(i + 1).last() == opt_text_view(items@[i as int]));
        match &items[i] {
            Some(s) => {
                let c = s.clone();
                proof {
                    lemma_map_push(r@, c, |s: String| s@);
                }
                r.push(c);
            },
            None => {},
        }
        i += 1;
    }
    assert(iv.take(i as int) =~= iv);
    r
}

fn nonblank_texts_exec(items: &Vec<Option<String>>, cap: usize) -> (r: Vec<String>)
    ensures
        strings_view(r@) == nonblank_texts(
            items@.map_values(|o: Option<String>| opt_text_view(o)),
            cap as nat,
        ),
{
    let ghost iv = items@.map_values(|o: Option<String>| opt_text_view(o));
    let mut r: Vec<String> = Vec::new();
    let mut i: usize = 0;
    assert(iv.take(0) =~= Seq::<Option<Seq<char>>>::empty());
    while i < items.len()
        invariant
            i <= items.len(),
            iv == items@.map_values(|o: Option<String>| opt_text_view(o)),
            strings_view(r@) == nonblank_texts(iv.take(i as int), cap as nat),
        decreases items.len() - i,
    {
        assert(iv.take(i + 1).drop_last() =~= iv.take(i as int));
        assert(iv.take(i + 1).last() == opt_text_view(items@[i as int]));
        match &items[i] {
            Some(s) => {
                if trim_chars(&str_chars(s.as_str())).len() > 0 && r.len() < cap {
                    let c = s.clone();
                    proof {
                        lemma_map_push(r@, c, |s: String| s@);
                    }
                    r.push(c);
                }
            },
            None => {},
        }
        i += 1;
    }
    assert(iv.take(i as int) =~= iv);
    r
}

fn prefixed(prefix: &str, m: &String) -> (r: String)
    ensures
        r@ == prefix@ + m@,
{
    let mut s = str_chars(prefix);
    append_chars(&mut s, &str_chars(m.as_str()));
    chars_to_string(&s)
}

/// Reads a keyword-match reply: the score (kept within 0..=100, 0 when
/// absent), the string items of `matchedKeywords` and `totalKeywords` (0
/// when absent); an error when the reply is not JSON.
pub fn match_score_from_reply(text: &str) -> (r: Result<MatchScore, String>)
    ensures
        match r {
            Ok(m) => match_reply(text@) == Ok::<(i32, Seq<Seq<char>>, usize), Seq<char>>(
                (m.score, strings_view(m.matched_keywords@), m.total_keywords),
            ),
            Err(e) => match_reply(text@) == Err::<(i32, Seq<Seq<char>>, usize), Seq<char>>(e@),
        },
{
    match check_json_syntax(text) {
        Some(e) => Err(prefixed("模型评分 JSON 解析失败：", &e)),
        None => {
            let score = bounded_score_exec(read_i64_field(text, "score"));
            let matched = match read_str_items(text, "matchedKeywords") {
                Some(items) => present_texts_exec(&items),
                None => Vec::new(),
            };
            let total = match read_u64_field(text, "totalKeywords") {
                Some(n) => n as usize,
                None => 0,
            };
            assert(score == bounded_score(json_i64_field(text@, "score"@)));
            assert(strings_view(matched@) == match json_str_items(text@, "matchedKeywords"@) {
                Some(items) => present_texts(items),
                None => Seq::empty(),
            });
            assert(total == match json_u64_field(text@, "totalKeywords"@) {
                Some(n) => n as usize,
                None => 0,
            });
            Ok(MatchScore { score, matched_keywords: matched, total_keywords: total })
        },
    }
}

/// What the HR-style reply of a model gives.
pub struct HrScore {
    pub total_score: i32,
    pub breakdown: JdScoreBreakdown,
    pub matched_keywords: Vec<String>,
    pub total_keywords: usize,
}

/// The most evidence phrases kept from an HR-style reply.
pub const MAX_EVIDENCE: usize = 12;

/// The count of keywords assumed when an HR-style reply gives none.
pub const DEFAULT_TOTAL_KEYWORDS: usize = 5;

/// A sub-score of the `breakdown` object of an HR-style reply.
pub open spec fn sub_score(text: Seq<char>, key: Seq<char>) -> i32 {
    match json_member_text(text, "breakdown"@) {
        Some(b) => bounded_score(json_i64_field(b, key)),
        None => 0,
    }
}

/// The rationale of an HR-style reply, trimmed; empty when absent.
pub open spec fn rationale_of(text: Seq<char>) -> Seq<char> {
    match json_str_field(text, "rationale"@) {
        Some(s) => trim(s),
        None => Seq::empty(),
    }
}

/// The reading of an HR-style reply: total score; skill, years, degree, work
/// and project sub-scores; rationale; evidence phrases; keyword count. Or
/// why the reply is not JSON.
pub open spec fn hr_reply(text: Seq<char>) -> Result<
    (i32, (i32, i32, i32, i32, i32), Seq<char>, Seq<Seq<char>>, usize),
    Seq<char>,
> {
    match json_syntax_error(text) {
        Some(e) => Err("HR 评估 JSON 解析失败："@ + e),
        None => Ok(
            (
                bounded_score(json_i64_field(text, "totalScore"@)),
                (
                    sub_score(text, "skillScore"@),
                    sub_score(text, "yearsScore"@),
                    sub_score(text, "degreeScore"@),
                    sub_score(text, "workScore"@),
                    sub_score(text, "projectScore"@),
                ),
                rationale_of(text),
                match json_str_items(text, "matchedKeywords"@) {
                    Some(items) => nonblank_texts(items, MAX_EVIDENCE as nat),
                    None => Seq::empty(),
                },
                match json_u64_field(text, "totalKeywords"@) {
                    Some(n) => n as usize,
                    None => DEFAULT_TOTAL_KEYWORDS,
                },
            ),
        ),
    }
}

fn sub_score_exec(text: &str, key: &str) -> (r: i32)
    ensures
        r == sub_score(text@, key@),
{
    match read_member_text(text, "breakdown") {
        Some(b) => bounded_score_exec(read_i64_field(b.as_str(), key)),
        None => 0,
    }
}

/// Reads an HR-style reply: scores kept within 0..=100 (0 when absent), the
/// trimmed rationale, at most twelve non-blank evidence phrases, and the
/// keyword count (5 when absent); an error when the reply is not JSON.
pub fn hr_score_from_reply(text: &str) -> (r: Result<HrScore, String>)
    ensures
        match r {
            Ok(h) => hr_reply(text@) == Ok::<
                (i32, (i32, i32, i32, i32, i32), Seq<char>, Seq<Seq<char>>, usize),
                Seq<char>,
            >(
                (
                    h.total_score,
                    (
                        h.breakdown.skill_score,
                        h.breakdown.years_score,
                        h.breakdown.degree_score,
                        h.breakdown.work_score,
                        h.breakdown.project_score,
                    ),
                    h.breakdown.rationale@,
                    strings_view(h.matched_keywords@),
                    h.total_keywords,
                ),
            ),
            Err(e) => hr_reply(text@) == Err::<
                (i32, (i32, i32, i32, i32, i32), Seq<char>, Seq<Seq<char>>, usize),
                Seq<char>,
            >(e@),
        },
{
    match check_json_syntax(text) {
        Some(e) => Err(prefixed("HR 评估 JSON 解析失败：", &e)),
        None => {
            let total_score = bounded_score_exec(read_i64_field(text, "totalScore"));
            let rationale = match read_str_field(text, "rationale") {
                Some(s) => chars_to_string(&trim_chars(&str_chars(s.as_str()))),
                None => String::new(),
            };
            let breakdown = JdScoreBreakdown {
                skill_score: sub_score_exec(text, "skillScore"),
                years_score: sub_score_exec(text, "yearsScore"),
                degree_score: sub_score_exec(text, "degreeScore"),
                work_score: sub_score_exec(text, "workScore"),
                project_score: sub_score_exec(text, "projectScore"),
                rationale,
            };
            let matched = match read_str_items(text, "matchedKeywords") {
                Some(items) => nonblank_texts_exec(&items, MAX_EVIDENCE),
                None => Vec::new(),
            };
            let total = match read_u64_field(text, "totalKeywords") {
                Some(n) => n as usize,
                None => DEFAULT_TOTAL_KEYWORDS,
            };
            assert(strings_view(matched@) == match json_str_items(text@, "matchedKeywords"@) {
                Some(items) => nonblank_texts(items, MAX_EVIDENCE as nat),
                None => Seq::empty(),
            });
            assert(total == match json_u64_field(text@, "totalKeywords"@) {
                Some(n) => n as usize,
                None => DEFAULT_TOTAL_KEYWORDS,
            });
            assert(breakdown.rationale@ == rationale_of(text@));
            Ok(HrScore { total_score, breakdown, matched_keywords: matched, total_keywords: total })
        },
    }
}

// ---------------------------------------------------------------- Word to PDF

/// The counts reported by a Word-to-PDF batch, and where the PDFs went.
pub struct WordToPdfSummary {
    pub converted: u32,
    pub skipped: u32,
    pub failed: u32,
    pub output_dir: String,
}

/// What a batch has reported so far: converted, skipped and failed files.
pub struct BatchCounts {
    pub converted: u32,
    pub skipped: u32,
    pub failed: u32,
}

/// What one progress line of the conversion script leads to.
pub enum BatchStep {
    /// Go on with these counts.
    Continue(BatchCounts),
    /// The script reported an error: stop with this message.
    Fail(String),
}

/// The message of an `error` line, with a default when it has none.
pub open spec fn batch_error_message(line: Seq<char>) -> Seq<char> {
    match json_str_field(line, "message"@) {
        Some(m) => m,
        None => "Word 启动失败"@,
    }
}

/// A count of a `done` line, 0 when absent (truncated to 32 bits).
pub open spec fn done_count(line: Seq<char>, key: Seq<char>) -> u32 {
    match json_u64_field(line, key) {
        Some(n) => n as u32,
        None => 0,
    }
}

/// The outcome of one output line: blank lines and lines that are not JSON
/// change nothing; an `error` line stops the batch; a `done` line sets the
/// three counts; other lines change nothing. `Ok` holds the counts.
pub open spec fn batch_line_outcome(counts: (u32, u32, u32), raw: Seq<char>) -> Result<
    (u32, u32, u32),
    Seq<char>,
> {
    let line = trim(raw);
    if line.len() == 0 || json_syntax_error(line) is Some {
        Ok(counts)
    } else if json_str_field(line, "type"@) == Some("error"@) {
        Err(batch_error_message(line))
    } else if json_str_field(line, "type"@) == Some("done"@) {
        Ok(
            (
                done_count(line, "converted"@),
                done_count(line, "skipped"@),
                done_count(line, "failed"@),
            ),
        )
    } else {
        Ok(counts)
    }
}

fn done_count_exec(line: &str, key: &str) -> (r: u32)
    ensures
        r == done_count(line@, key@),
{
    match read_u64_field(line, key) {
        Some(n) => n as u32,
        None => 0,
    }
}

fn str_field_is(line: &str, key: &str, want: &str) -> (r: bool)
    ensures
        r == (json_str_field(line@, key@) == Some(want@)),
{
    match read_str_field(line, key) {
        Some(v) => chars_eq(&str_chars(v.as_str()), &str_chars(want)),
        None => false,
    }
}

/// The next state of a Word-to-PDF batch after one line of the conversion
/// script's output.
pub fn word_batch_step(counts: BatchCounts, raw: &str) -> (r: BatchStep)
    ensures
        match r {
            BatchStep::Continue(c) => batch_line_outcome(
                (counts.converted, counts.skipped, counts.failed),
                raw@,
            ) == Ok::<(u32, u32, u32), Seq<char>>((c.converted, c.skipped, c.failed)),
            BatchStep::Fail(m) => batch_line_outcome(
                (counts.converted, counts.skipped, counts.failed),
                raw@,
            ) == Err::<(u32, u32, u32), Seq<char>>(m@),
        },
{
    let t = trim_chars(&str_chars(raw));
    let line = chars_to_string(&t);
    if t.len() == 0 {
        return BatchStep::Continue(counts);
    }
    if check_json_syntax(line.as_str()).is_some() {
        return BatchStep::Continue(counts);
    }
    if str_field_is(line.as_str(), "type", "error") {
        let m = match read_str_field(line.as_str(), "message") {
            Some(m) => m,
            None => "Word 启动失败".to_owned(),
        };
        return BatchStep::Fail(m);
    }
    if str_field_is(line.as_str(), "type", "done") {
        return BatchStep::Continue(
            BatchCounts {
                converted: done_count_exec(line.as_str(), "converted"),
                skipped: done_count_exec(line.as_str(), "skipped"),
                failed: done_count_exec(line.as_str(), "failed"),
            },
        );
    }
    BatchStep::Continue(counts)
}

/// A file is converted when its extension is `doc` or `docx`, in any ASCII case.
pub open spec fn is_word_extension(ext: Seq<char>) -> bool {
    lower(ext) == "doc"@ || lower(ext) == "docx"@
}

pub fn word_extension(ext: &str) -> (r: bool)
    ensures
        r == is_word_extension(ext@),
{
    let e = ascii_lower(&str_chars(ext));
    chars_eq(&e, &str_chars("doc")) || chars_eq(&e, &str_chars("docx"))
}

proof fn lemma_nonblank_texts(v: Seq<Option<Seq<char>>>, cap: nat)
    ensures
        nonblank_texts(v, cap).len() <= cap,
        forall|k: int|
            0 <= k < nonblank_texts(v, cap).len() ==> trim(#[trigger] nonblank_texts(v, cap)[k]).len()
                > 0,
    decreases v.len(),
{
    if v.len() > 0 {
        lemma_nonblank_texts(v.drop_last(), cap);
        let r = nonblank_texts(v.drop_last(), cap);
        match v.last() {
            Some(s) => if trim(s).len() > 0 && r.len() < cap {
                assert forall|k: int| 0 <= k < r.push(s).len() implies trim(
                    #[trigger] r.push(s)[k],
                ).len() > 0 by {
                    if k < r.len() {
                        assert(r.push(s)[k] == r[k]);
                    }
                }
            },
            None => {},
        }
    }
}

/// Whatever a model replies, every score read from it lies within 0..=100,
/// and an HR-style reading keeps at most twelve evidence phrases, none blank.
pub proof fn law_reply_scores_bounded(text: Seq<char>)
    ensures
        match_reply(text) matches Ok(m) ==> 0 <= m.0 <= 100,
        hr_reply(text) matches Ok(h) ==> {
            &&& 0 <= h.0 <= 100
            &&& 0 <= h.1.0 <= 100
            &&& 0 <= h.1.1 <= 100
            &&& 0 <= h.1.2 <= 100
            &&& 0 <= h.1.3 <= 100
            &&& 0 <= h.1.4 <= 100
            &&& h.3.len() <= MAX_EVIDENCE
            &&& forall|k: int| 0 <= k < h.3.len() ==> trim(#[trigger] h.3[k]).len() > 0
        },
{
    match json_str_items(text, "matchedKeywords"@) {
        Some(items) => lemma_nonblank_texts(items, MAX_EVIDENCE as nat),
        None => {},
    }
}

} // verus!
