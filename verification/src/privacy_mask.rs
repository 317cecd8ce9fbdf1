//! Before resume text goes to an outside model, names, phone numbers, e-mail
//! addresses and similar segments are replaced by placeholders
//! `__RM_PRIV_NNNN__`; the map kept in memory restores them in the reply.

use crate::numbers::{digit_char, digit_char_exec};
use crate::search::{
    char_span_at, char_span_of, regex_capture_spans, regex_captures_all, regex_find_all,
    regex_find_spans,
};
use crate::surnames::{is_common_surname, is_surname_initial};
use crate::text::{
    ascii_lower, find_from, first_match, is_whitespace, is_ws, lemma_first_match, lower, matches_at,
    slice_chars, starts_with, starts_with_chars, str_chars, trim, trim_chars, vecs_view,
};
use vstd::prelude::*;

verus! {

/// The abstract value of a detected segment: char indices and the text kept for it.
pub struct SpanV {
    pub start: int,
    pub end: int,
    pub text: Seq<char>,
}

/// A detected sensitive segment `[start, end)` of the text (char indices) and the
/// text that the placeholder stands for.
pub struct Span {
    pub start: usize,
    pub end: usize,
    pub text: Vec<char>,
}

impl View for Span {
    type V = SpanV;

    open spec fn view(&self) -> SpanV {
        SpanV { start: self.start as int, end: self.end as int, text: self.text@ }
    }
}

pub open spec fn spans_view(v: Seq<Span>) -> Seq<SpanV> {
    v.map_values(|sp: Span| sp@)
}

/// A char of the CJK blocks that names are written in.
pub open spec fn is_name_cjk(c: char) -> bool {
    ('\u{4E00}' <= c && c <= '\u{9FFF}') || ('\u{3400}' <= c && c <= '\u{4DBF}')
}

pub fn name_cjk(c: char) -> (r: bool)
    ensures
        r == is_name_cjk(c),
{
    ('\u{4E00}' <= c && c <= '\u{9FFF}') || ('\u{3400}' <= c && c <= '\u{4DBF}')
}

// ---------------------------------------------------------------- lines

/// What `str::split('\n')` yields.
pub open spec fn split_lines(s: Seq<char>) -> Seq<Seq<char>>
    decreases s.len(),
{
    if s.len() == 0 {
        seq![Seq::<char>::empty()]
    } else {
        let r = split_lines(s.drop_last());
        if s.last() == '\n' {
            r.push(Seq::<char>::empty())
        } else {
            r.update(r.len() - 1, r.last().push(s.last()))
        }
    }
}

proof fn lemma_split_lines_len(s: Seq<char>)
    ensures
        split_lines(s).len() >= 1,
    decreases s.len(),
{
    if s.len() > 0 {
        lemma_split_lines_len(s.drop_last());
    }
}


fn split_lines_exec(s: &Vec<char>) -> (r: Vec<Vec<char>>)
    ensures
        vecs_view(r@) == split_lines(s@),
{
    let mut out: Vec<Vec<char>> = Vec::new();
    let mut cur: Vec<char> = Vec::new();
    let mut i: usize = 0;
    assert(s@.subrange(0, 0) =~= Seq::<char>::empty());
    assert(vecs_view(out@).push(cur@) =~= split_lines(s@.subrange(0, 0)));
    while i < s.len()
        invariant
            i <= s.len(),
            vecs_view(out@).push(cur@) == split_lines(s@.subrange(0, i as int)),
        decreases s.len() - i,
    {
        let c = s[i];
        proof {
            lemma_split_lines_len(s@.subrange(0, i as int));
            assert(s@.subrange(0, i + 1).drop_last() =~= s@.subrange(0, i as int));
        }
        if c == '\n' {
            let ghost before = vecs_view(out@);
            out.push(cur);
            cur = Vec::new();
            assert(vecs_view(out@) =~= before.push(vecs_view(out@).last()));
            assert(vecs_view(out@).push(cur@) =~= split_lines(s@.subrange(0, i + 1)));
        } else {
            let ghost before = vecs_view(out@);
            cur.push(c);
            assert(vecs_view(out@).push(cur@) =~= split_lines(s@.subrange(0, i + 1)));
        }
        i += 1;
    }
    out.push(cur);
    assert(s@.subrange(0, s.len() as int) =~= s@);
    assert(vecs_view(out@) =~= split_lines(s@));
    out
}

/// The trimmed lines of a text that are not empty.
pub open spec fn kept_lines(lines: Seq<Seq<char>>) -> Seq<Seq<char>>
    decreases lines.len(),
{
    if lines.len() == 0 {
        Seq::empty()
    } else {
        let r = kept_lines(lines.drop_last());
        let t = trim(lines.last());
        if t.len() > 0 {
            r.push(t)
        } else {
            r
        }
    }
}

/// Non-empty trimmed lines of `text`, in order.
fn trimmed_nonempty_lines(text: &Vec<char>) -> (r: Vec<Vec<char>>)
    ensures
        vecs_view(r@) == kept_lines(split_lines(text@)),
{
    let lines = split_lines_exec(text);
    let mut out: Vec<Vec<char>> = Vec::new();
    let mut i: usize = 0;
    let ghost ls = vecs_view(lines@);
    assert(ls.subrange(0, 0) =~= Seq::<Seq<char>>::empty());
    while i < lines.len()
        invariant
            i <= lines.len(),
            ls == vecs_view(lines@),
            vecs_view(out@) == kept_lines(ls.subrange(0, i as int)),
        decreases lines.len() - i,
    {
        let t = trim_chars(&lines[i]);
        proof {
            assert(ls.subrange(0, i + 1).drop_last() =~= ls.subrange(0, i as int));
            assert(ls.subrange(0, i + 1).last() == lines@[i as int]@);
        }
        if t.len() > 0 {
            let ghost before = vecs_view(out@);
            out.push(t);
            assert(vecs_view(out@) =~= before.push(t@));
        }
        i += 1;
    }
    assert(ls.subrange(0, lines.len() as int) =~= ls);
    out
}

// ---------------------------------------------------------------- header names

/// Title words that open a resume and are skipped when looking for the name.
pub open spec fn header_words() -> Seq<Seq<char>> {
    seq![
        "个人简历"@,
        "简历"@,
        "个人简介"@,
        "求职简历"@,
        "应聘简历"@,
        "resume"@,
        "cv"@,
        "curriculum vitae"@,
        "中文简历"@,
        "英文简历"@,
    ]
}

fn header_words_exec() -> (r: Vec<Vec<char>>)
    ensures
        vecs_view(r@) == header_words(),
{
    let r = vec![
        str_chars("个人简历"),
        str_chars("简历"),
        str_chars("个人简介"),
        str_chars("求职简历"),
        str_chars("应聘简历"),
        str_chars("resume"),
        str_chars("cv"),
        str_chars("curriculum vitae"),
        str_chars("中文简历"),
        str_chars("英文简历"),
    ];
    assert(vecs_view(r@) =~= header_words());
    r
}

/// A line that is (or starts with) a resume title word, compared in ASCII lower case.
pub open spec fn is_header_line(l: Seq<char>) -> bool {
    exists|k: int|
        0 <= k < header_words().len() && {
            let t = lower(trim(l));
            let p = lower(#[trigger] header_words()[k]);
            t == p || starts_with(t, p)
        }
}

fn header_line(l: &Vec<char>) -> (r: bool)
    ensures
        r == is_header_line(l@),
{
    let words = header_words_exec();
    let t = ascii_lower(&trim_chars(l));
    let mut k: usize = 0;
    while k < words.len()
        invariant
            k <= words.len(),
            vecs_view(words@) == header_words(),
            t@ == lower(trim(l@)),
            forall|j: int|
                0 <= j < k ==> !({
                    let p = lower(#[trigger] header_words()[j]);
                    t@ == p || starts_with(t@, p)
                }),
        decreases words.len() - k,
    {
        let p = ascii_lower(&words[k]);
        assert(words@[k as int]@ == header_words()[k as int]);
        if starts_with_chars(&t, &p) {
            return true;
        }
        proof {
            if t@ == p@ {
                assert(t@.subrange(0, p@.len() as int) =~= t@);
            }
        }
        k += 1;
    }
    false
}

/// Lines that are not title lines.
pub open spec fn non_header_lines(ls: Seq<Seq<char>>) -> Seq<Seq<char>>
    decreases ls.len(),
{
    if ls.len() == 0 {
        Seq::empty()
    } else {
        let r = non_header_lines(ls.drop_last());
        if is_header_line(ls.last()) {
            r
        } else {
            r.push(ls.last())
        }
    }
}

/// The first six non-title lines among the non-empty trimmed lines of `text`.
pub open spec fn header_candidates(text: Seq<char>) -> Seq<Seq<char>> {
    let c = non_header_lines(kept_lines(split_lines(text)));
    if c.len() > 6 {
        c.take(6)
    } else {
        c
    }
}

pub open spec fn is_ascii_upper(c: char) -> bool {
    'A' <= c && c <= 'Z'
}

pub open spec fn is_ascii_digit(c: char) -> bool {
    '0' <= c && c <= '9'
}

pub open spec fn is_ascii_alpha(c: char) -> bool {
    ('A' <= c && c <= 'Z') || ('a' <= c && c <= 'z')
}

/// Chars that may make up a Latin-script name.
pub open spec fn is_name_latin(c: char) -> bool {
    is_ascii_alpha(c) || c == ' ' || c == '.' || c == '-'
}

pub open spec fn count_name_latin(t: Seq<char>) -> nat
    decreases t.len(),
{
    if t.len() == 0 {
        0
    } else {
        count_name_latin(t.drop_last()) + if is_name_latin(t.last()) {
            1nat
        } else {
            0nat
        }
    }
}

/// The segment of `text` for a candidate header line `t`: a 2-4 char CJK line
/// opening with a common surname, or a 3-20 char Latin-looking line with a capital,
/// no digit or `@`, and more than 80% Latin name chars; placed at the first
/// occurrence of `t` in `text`.
pub open spec fn header_span(text: Seq<char>, t: Seq<char>) -> Option<SpanV> {
    let n = t.len();
    let ok = if 2 <= n <= 4 {
        (forall|i: int| 0 <= i < n ==> is_name_cjk(#[trigger] t[i])) && is_surname_initial(t[0])
    } else if 3 <= n <= 20 {
        (exists|i: int| 0 <= i < n && is_ascii_upper(#[trigger] t[i])) && !(exists|i: int|
            0 <= i < n && (#[trigger] t[i] == '@' || is_ascii_digit(t[i])))
            && 5 * count_name_latin(t) > 4 * n
    } else {
        false
    };
    if ok {
        match first_match(text, t, 0) {
            Some(p) => Some(SpanV { start: p, end: p + n, text: t }),
            None => None,
        }
    } else {
        None
    }
}

pub open spec fn header_spans_of(text: Seq<char>, cands: Seq<Seq<char>>) -> Seq<SpanV>
    decreases cands.len(),
{
    if cands.len() == 0 {
        Seq::empty()
    } else {
        let r = header_spans_of(text, cands.drop_last());
        match header_span(text, cands.last()) {
            Some(sp) => r.push(sp),
            None => r,
        }
    }
}

/// Names guessed from the first lines of a resume.
pub open spec fn header_spans(text: Seq<char>) -> Seq<SpanV> {
    header_spans_of(text, header_candidates(text))
}

fn header_span_exec(text: &Vec<char>, t: &Vec<char>) -> (r: Option<Span>)
    ensures
        r matches Some(sp) ==> header_span(text@, t@) == Some(sp@) && sp.start <= sp.end
            <= text.len(),
        r is None ==> header_span(text@, t@) is None,
{
    let n = t.len();
    let mut ok = false;
    if 2 <= n && n <= 4 {
        let mut all_cjk = true;
        let mut i: usize = 0;
        while i < n
            invariant
                n == t.len(),
                i <= n,
                all_cjk == forall|k: int| 0 <= k < i ==> is_name_cjk(#[trigger] t@[k]),
            decreases n - i,
        {
            if !name_cjk(t[i]) {
                all_cjk = false;
            }
            i += 1;
        }
        ok = all_cjk && is_common_surname(t[0]);
    } else if 3 <= n && n <= 20 {
        let mut has_upper = false;
        let mut has_bad = false;
        let mut alpha: usize = 0;
        let mut i: usize = 0;
        assert(t@.subrange(0, 0) =~= Seq::<char>::empty());
        while i < n
            invariant
                n == t.len(),
                n <= 20,
                i <= n,
                has_upper == exists|k: int| 0 <= k < i && is_ascii_upper(#[trigger] t@[k]),
                has_bad == exists|k: int|
                    0 <= k < i && (#[trigger] t@[k] == '@' || is_ascii_digit(t@[k])),
                alpha == count_name_latin(t@.subrange(0, i as int)),
                alpha <= i,
            decreases n - i,
        {
            let c = t[i];
            if 'A' <= c && c <= 'Z' {
                has_upper = true;
            }
            if c == '@' || ('0' <= c && c <= '9') {
                has_bad = true;
            }
            assert(t@.subrange(0, i + 1).drop_last() =~= t@.subrange(0, i as int));
            if ('A' <= c && c <= 'Z') || ('a' <= c && c <= 'z') || c == ' ' || c == '.' || c
                == '-' {
                alpha += 1;
            }
            i += 1;
        }
        assert(t@.subrange(0, n as int) =~= t@);
        ok = has_upper && !has_bad && 5 * alpha > 4 * n;
    }
    if ok {
        match find_from(text, t, 0) {
            Some(p) => {
                proof {
                    lemma_first_match(text@, t@, 0);
                    assert(matches_at(text@, t@, p as int));
                    assert(p + t@.len() <= text@.len());
                    assert(n == t@.len());
                    assert(p + n <= text.len());
                }
                let e: usize = p + n;
                Some(Span { start: p, end: e, text: t.clone() })
            },
            None => None,
        }
    } else {
        None
    }
}

fn collect_names_from_header(text: &Vec<char>) -> (r: Vec<Span>)
    ensures
        spans_view(r@) == header_spans(text@),
        forall|i: int| 0 <= i < r.len() ==> (#[trigger] r@[i]).start <= r@[i].end <= text.len(),
{
    let lines = trimmed_nonempty_lines(text);
    let ghost kept = vecs_view(lines@);
    // the first six non-title lines
    let mut cands: Vec<Vec<char>> = Vec::new();
    let mut i: usize = 0;
    assert(kept.subrange(0, 0) =~= Seq::<Seq<char>>::empty());
    while i < lines.len()
        invariant
            i <= lines.len(),
            kept == vecs_view(lines@),
            vecs_view(cands@) == non_header_lines(kept.subrange(0, i as int)),
        decreases lines.len() - i,
    {
        proof {
            assert(kept.subrange(0, i + 1).drop_last() =~= kept.subrange(0, i as int));
            assert(kept.subrange(0, i + 1).last() == lines@[i as int]@);
        }
        if !header_line(&lines[i]) {
            let ghost before = vecs_view(cands@);
            cands.push(lines[i].clone());
            assert(vecs_view(cands@) =~= before.push(lines@[i as int]@));
        }
        i += 1;
    }
    assert(kept.subrange(0, lines.len() as int) =~= kept);
    if cands.len() > 6 {
        cands.truncate(6);
    }
    let ghost cv = vecs_view(cands@);
    assert(cv =~= header_candidates(text@));
    let mut out: Vec<Span> = Vec::new();
    let mut k: usize = 0;
    assert(cv.subrange(0, 0) =~= Seq::<Seq<char>>::empty());
    while k < cands.len()
        invariant
            k <= cands.len(),
            cv == vecs_view(cands@),
            spans_view(out@) == header_spans_of(text@, cv.subrange(0, k as int)),
            forall|j: int| 0 <= j < out.len() ==> (#[trigger] out@[j]).start <= out@[j].end <= text.len(),
        decreases cands.len() - k,
    {
        proof {
            assert(cv.subrange(0, k + 1).drop_last() =~= cv.subrange(0, k as int));
            assert(cv.subrange(0, k + 1).last() == cands@[k as int]@);
        }
        match header_span_exec(text, &cands[k]) {
            Some(sp) => {
                let ghost before = spans_view(out@);
                out.push(sp);
                assert(spans_view(out@) =~= before.push(out@.last()@));
            },
            None => {},
        }
        k += 1;
    }
    assert(cv.subrange(0, cands.len() as int) =~= cv);
    out
}


// ---------------------------------------------------------------- surname scan

pub open spec fn is_ascii_punct(c: char) -> bool {
    ('!' <= c && c <= '/') || (':' <= c && c <= '@') || ('[' <= c && c <= '`') || ('{' <= c
        && c <= '~')
}

/// Chars that may stand next to a name: white space, ASCII punctuation, letters
/// and digits, and common full-width punctuation.
pub open spec fn is_boundary_char(c: char) -> bool {
    ||| is_ws(c)
    ||| is_ascii_punct(c)
    ||| is_ascii_alpha(c) || is_ascii_digit(c)
    ||| c == '，' || c == '。' || c == '、' || c == '：' || c == '；' || c == '（' || c == '）'
    ||| c == '【' || c == '】' || c == '《' || c == '》' || c == '/' || c == '｜' || c == '—'
        || c == '|'
}

fn boundary_char(c: char) -> (r: bool)
    ensures
        r == is_boundary_char(c),
{
    is_whitespace(c) || ('!' <= c && c <= '/') || (':' <= c && c <= '@') || ('[' <= c && c
        <= '`') || ('{' <= c && c <= '~') || ('A' <= c && c <= 'Z') || ('a' <= c && c <= 'z')
        || ('0' <= c && c <= '9') || c == '，' || c == '。' || c == '、' || c == '：' || c == '；'
        || c == '（' || c == '）' || c == '【' || c == '】' || c == '《' || c == '》' || c == '/'
        || c == '｜' || c == '—' || c == '|'
}

pub open spec fn boundary_at(text: Seq<char>, idx: int) -> bool {
    idx >= text.len() || is_boundary_char(text[idx])
}

/// End of the run of name CJK chars after the surname at `i`, at most `i + 4`.
pub open spec fn run_end(text: Seq<char>, i: int, j: int) -> int
    decreases text.len() - j,
{
    if 0 <= j < text.len() && j < i + 4 && is_name_cjk(text[j]) {
        run_end(text, i, j + 1)
    } else {
        j
    }
}

/// A 2-3 char CJK name at `i` that opens with a common surname and stands
/// between boundary chars.
pub open spec fn surname_span_at(text: Seq<char>, i: int) -> Option<SpanV> {
    if !(0 <= i < text.len()) || !is_name_cjk(text[i]) || !is_surname_initial(text[i]) {
        None
    } else if i > 0 && !boundary_at(text, i - 1) {
        None
    } else {
        let j = run_end(text, i, i + 1);
        let nl = j - i;
        if nl < 2 || nl > 3 {
            None
        } else if j < text.len() && !boundary_at(text, j) {
            None
        } else {
            Some(SpanV { start: i, end: j, text: text.subrange(i, j) })
        }
    }
}

pub open spec fn surname_spans_upto(text: Seq<char>, n: int) -> Seq<SpanV>
    decreases n,
{
    if n <= 0 {
        Seq::empty()
    } else {
        let r = surname_spans_upto(text, n - 1);
        match surname_span_at(text, n - 1) {
            Some(sp) => r.push(sp),
            None => r,
        }
    }
}

/// Names found anywhere in `text` by their surname.
pub open spec fn surname_spans(text: Seq<char>) -> Seq<SpanV> {
    if text.len() < 2 {
        Seq::empty()
    } else {
        surname_spans_upto(text, text.len() as int)
    }
}

proof fn lemma_run_end(text: Seq<char>, i: int, j: int)
    requires
        i < j,
    ensures
        j <= run_end(text, i, j),
        run_end(text, i, j) <= text.len() || run_end(text, i, j) == j,
        run_end(text, i, j) <= i + 4 || run_end(text, i, j) == j,
    decreases text.len() - j,
{
    if 0 <= j < text.len() && j < i + 4 && is_name_cjk(text[j]) {
        lemma_run_end(text, i, j + 1);
    }
}

pub proof fn lemma_run_end_pub(text: Seq<char>, i: int, j: int)
    requires
        i < j,
        j <= text.len(),
    ensures
        j <= run_end(text, i, j) <= text.len(),
{
    lemma_run_end(text, i, j);
}

fn surname_span_at_exec(text: &Vec<char>, i: usize) -> (r: Option<Span>)
    requires
        i < text.len(),
    ensures
        r matches Some(sp) ==> surname_span_at(text@, i as int) == Some(sp@) && sp.start
            <= sp.end <= text.len(),
        r is None ==> surname_span_at(text@, i as int) is None,
{
    let len = text.len();
    let c = text[i];
    if !name_cjk(c) || !is_common_surname(c) {
        return None;
    }
    if i > 0 && !boundary_char(text[i - 1]) {
        return None;
    }
    let mut j = i + 1;
    while j < len && j - i < 4 && name_cjk(text[j])
        invariant
            i < j <= len,
            j <= i + 4,
            len == text.len(),
            run_end(text@, i as int, i + 1) == run_end(text@, i as int, j as int),
        decreases len - j,
    {
        j += 1;
    }
    let nl = j - i;
    if nl < 2 || nl > 3 {
        return None;
    }
    if j < len && !boundary_char(text[j]) {
        return None;
    }
    Some(Span { start: i, end: j, text: slice_chars(text, i, j) })
}

fn collect_names_by_surname(text: &Vec<char>) -> (r: Vec<Span>)
    ensures
        spans_view(r@) == surname_spans(text@),
        forall|i: int| 0 <= i < r.len() ==> (#[trigger] r@[i]).start <= r@[i].end <= text.len(),
{
    let mut out: Vec<Span> = Vec::new();
    let len = text.len();
    if len < 2 {
        assert(spans_view(out@) =~= Seq::<SpanV>::empty());
        return out;
    }
    let mut i: usize = 0;
    while i < len
        invariant
            i <= len,
            len == text.len(),
            spans_view(out@) == surname_spans_upto(text@, i as int),
            forall|j: int| 0 <= j < out.len() ==> (#[trigger] out@[j]).start <= out@[j].end <= text.len(),
        decreases len - i,
    {
        match surname_span_at_exec(text, i) {
            Some(sp) => {
                let ghost before = spans_view(out@);
                out.push(sp);
                assert(spans_view(out@) =~= before.push(out@.last()@));
            },
            None => {},
        }
        i += 1;
    }
    out
}


// ---------------------------------------------------------------- pattern matches

/// E-mail addresses.
pub const EMAIL_PATTERN: &'static str = r"(?i)\b[A-Za-z0-9._%+-]+@[A-Za-z0-9.-]+\.[A-Za-z]{2,}\b";

/// Mainland mobile numbers, with an optional +86 prefix.
pub const MOBILE_PATTERN: &'static str = r"(?:\+?86[\s\-]?)?1[3-9]\d(?:[\s\-]?\d{4}){2}";

/// Landline numbers with an area code.
pub const LANDLINE_PATTERN: &'static str = r"\b0\d{2,3}[\s\-]?\d{7,8}\b";

/// A phone number after a label; group 1 is the number.
pub const LABELED_PHONE_PATTERN: &'static str = r"(?:电话|手机|Tel|Mobile|联系方式)\s*[:：]\s*([\d+\s\-–—]{8,22})";

/// A QQ number; group 1 is the number.
pub const QQ_PATTERN: &'static str = r"(?i)\bQQ\s*[:：]?\s*(\d{5,12})\b";

/// A WeChat id after its label; group 1 is the id.
pub const WECHAT_PATTERN: &'static str = r"微信\s*[:：]\s*([^\s\n，,。；;、]{1,32})";

/// A name after a label; group 1 is the name.
pub const NAME_LABELED_PATTERN: &'static str = r"(?:姓名|名字|本名|应聘人|求职者|申请人|候选人|Name|Candidate)\s*[:：]\s*([一-龥A-Za-z·•．.\s]{2,20})";

/// The segments of `text` at the given byte spans, those that fall on char boundaries.
pub open spec fn spans_from_matches(text: Seq<char>, ms: Seq<(usize, usize)>) -> Seq<SpanV>
    decreases ms.len(),
{
    if ms.len() == 0 {
        Seq::empty()
    } else {
        let r = spans_from_matches(text, ms.drop_last());
        match char_span_of(text, ms.last().0 as int, ms.last().1 as int) {
            Some(p) => r.push(SpanV { start: p.0, end: p.1, text: text.subrange(p.0, p.1) }),
            None => r,
        }
    }
}

/// Segments matched by `pattern` in `text`.
pub open spec fn match_spans(text: Seq<char>, pattern: Seq<char>) -> Seq<SpanV> {
    match regex_find_spans(pattern, text) {
        Some(ms) => spans_from_matches(text, ms),
        None => Seq::empty(),
    }
}

/// The segment kept for a capture group at char span `(a, b)`: the group text, or,
/// for a labeled name, its trimmed text when that has at least 2 bytes and at most 8 chars.
pub open spec fn group_span(text: Seq<char>, a: int, b: int, is_name: bool) -> Option<SpanV> {
    if !is_name {
        Some(SpanV { start: a, end: b, text: text.subrange(a, b) })
    } else {
        let nm = trim(text.subrange(a, b));
        if crate::text::utf8_len(nm) >= 2 && nm.len() <= 8 {
            Some(SpanV { start: a, end: b, text: nm })
        } else {
            None
        }
    }
}

pub open spec fn spans_from_groups(
    text: Seq<char>,
    caps: Seq<(Option<(usize, usize)>, Option<(usize, usize)>)>,
    is_name: bool,
) -> Seq<SpanV>
    decreases caps.len(),
{
    if caps.len() == 0 {
        Seq::empty()
    } else {
        let r = spans_from_groups(text, caps.drop_last(), is_name);
        match caps.last().1 {
            Some(g) => match char_span_of(text, g.0 as int, g.1 as int) {
                Some(p) => match group_span(text, p.0, p.1, is_name) {
                    Some(sp) => r.push(sp),
                    None => r,
                },
                None => r,
            },
            None => r,
        }
    }
}

/// Segments at capture group 1 of `pattern` in `text`.
pub open spec fn group_spans(text: Seq<char>, pattern: Seq<char>, is_name: bool) -> Seq<SpanV> {
    match regex_capture_spans(pattern, text) {
        Some(caps) => spans_from_groups(text, caps, is_name),
        None => Seq::empty(),
    }
}

/// Every candidate segment of `text`, in the order they are collected.
pub open spec fn candidate_spans(text: Seq<char>) -> Seq<SpanV> {
    match_spans(text, EMAIL_PATTERN@) + match_spans(text, MOBILE_PATTERN@) + match_spans(
        text,
        LANDLINE_PATTERN@,
    ) + group_spans(text, LABELED_PHONE_PATTERN@, false) + group_spans(text, QQ_PATTERN@, false)
        + group_spans(text, WECHAT_PATTERN@, false) + group_spans(
        text,
        NAME_LABELED_PATTERN@,
        true,
    ) + header_spans(text) + surname_spans(text)
}

/// All spans within `text`.
pub open spec fn spans_in_bounds(v: Seq<Span>, n: int) -> bool {
    forall|i: int| 0 <= i < v.len() ==> (#[trigger] v[i]).start <= v[i].end <= n
}

fn push_match_spans(out: &mut Vec<Span>, s: &str, text: &Vec<char>, pattern: &str)
    requires
        text@ == s@,
        spans_in_bounds(old(out)@, text.len() as int),
    ensures
        spans_view(final(out)@) == spans_view(old(out)@) + match_spans(text@, pattern@),
        spans_in_bounds(final(out)@, text.len() as int),
{
    let ghost start = spans_view(out@);
    match regex_find_all(pattern, s) {
        Some(ms) => {
            let mut k: usize = 0;
            assert(ms@.subrange(0, 0) =~= Seq::<(usize, usize)>::empty());
            assert(spans_view(out@) =~= start + spans_from_matches(text@, ms@.subrange(0, 0)));
            while k < ms.len()
                invariant
                    k <= ms.len(),
                    spans_view(out@) == start + spans_from_matches(text@, ms@.subrange(0, k as int)),
                    spans_in_bounds(out@, text.len() as int),
                decreases ms.len() - k,
            {
                let (bs, be) = ms[k];
                proof {
                    assert(ms@.subrange(0, k + 1).drop_last() =~= ms@.subrange(0, k as int));
                    assert(ms@.subrange(0, k + 1).last() == ms@[k as int]);
                }
                match char_span_at(text, bs, be) {
                    Some((a, b)) => {
                        let ghost before = spans_view(out@);
                        out.push(Span { start: a, end: b, text: slice_chars(text, a, b) });
                        assert(spans_view(out@) =~= before.push(out@.last()@));
                    },
                    None => {},
                }
                k += 1;
            }
            assert(ms@.subrange(0, ms.len() as int) =~= ms@);
        },
        None => {
            assert(spans_view(out@) =~= start + Seq::<SpanV>::empty());
        },
    }
}

fn push_group_spans(out: &mut Vec<Span>, s: &str, text: &Vec<char>, pattern: &str, is_name: bool)
    requires
        text@ == s@,
        spans_in_bounds(old(out)@, text.len() as int),
    ensures
        spans_view(final(out)@) == spans_view(old(out)@) + group_spans(text@, pattern@, is_name),
        spans_in_bounds(final(out)@, text.len() as int),
{
    let ghost start = spans_view(out@);
    match regex_captures_all(pattern, s) {
        Some(caps) => {
            let mut k: usize = 0;
            assert(caps@.subrange(0, 0) =~= Seq::<
                (Option<(usize, usize)>, Option<(usize, usize)>),
            >::empty());
            assert(spans_view(out@) =~= start + spans_from_groups(
                text@,
                caps@.subrange(0, 0),
                is_name,
            ));
            while k < caps.len()
                invariant
                    k <= caps.len(),
                    spans_view(out@) == start + spans_from_groups(
                        text@,
                        caps@.subrange(0, k as int),
                        is_name,
                    ),
                    spans_in_bounds(out@, text.len() as int),
                decreases caps.len() - k,
            {
                proof {
                    assert(caps@.subrange(0, k + 1).drop_last() =~= caps@.subrange(0, k as int));
                    assert(caps@.subrange(0, k + 1).last() == caps@[k as int]);
                }
                match caps[k].1 {
                    Some((bs, be)) => {
                        match char_span_at(text, bs, be) {
                            Some((a, b)) => {
                                let region = slice_chars(text, a, b);
                                if !is_name {
                                    let ghost before = spans_view(out@);
                                    out.push(Span { start: a, end: b, text: region });
                                    assert(spans_view(out@) =~= before.push(out@.last()@));
                                } else {
                                    let nm = trim_chars(&region);
                                    let long_enough = match crate::text::utf8_len_of(&nm) {
                                        Some(n) => n >= 2,
                                        None => true,
                                    };
                                    if long_enough && nm.len() <= 8 {
                                        let ghost before = spans_view(out@);
                                        out.push(Span { start: a, end: b, text: nm });
                                        assert(spans_view(out@) =~= before.push(out@.last()@));
                                    }
                                }
                            },
                            None => {},
                        }
                    },
                    None => {},
                }
                k += 1;
            }
            assert(caps@.subrange(0, caps.len() as int) =~= caps@);
        },
        None => {
            assert(spans_view(out@) =~= start + Seq::<SpanV>::empty());
        },
    }
}

/// All candidate segments of `s`, as `candidate_spans` states them.
fn collect_spans(s: &str, text: &Vec<char>) -> (r: Vec<Span>)
    requires
        text@ == s@,
    ensures
        spans_view(r@) == candidate_spans(text@),
        spans_in_bounds(r@, text.len() as int),
{
    let mut out: Vec<Span> = Vec::new();
    assert(spans_view(out@) =~= Seq::<SpanV>::empty());
    push_match_spans(&mut out, s, text, EMAIL_PATTERN);
    push_match_spans(&mut out, s, text, MOBILE_PATTERN);
    push_match_spans(&mut out, s, text, LANDLINE_PATTERN);
    push_group_spans(&mut out, s, text, LABELED_PHONE_PATTERN, false);
    push_group_spans(&mut out, s, text, QQ_PATTERN, false);
    push_group_spans(&mut out, s, text, WECHAT_PATTERN, false);
    push_group_spans(&mut out, s, text, NAME_LABELED_PATTERN, true);
    let ghost before = spans_view(out@);
    let mut h = collect_names_from_header(text);
    let ghost hv = spans_view(h@);
    out.append(&mut h);
    assert(spans_view(out@) =~= before + hv);
    let ghost before2 = spans_view(out@);
    let mut n = collect_names_by_surname(text);
    let ghost nv = spans_view(n@);
    out.append(&mut n);
    assert(spans_view(out@) =~= before2 + nv);
    assert(spans_view(out@) =~= candidate_spans(text@));
    out
}


// ---------------------------------------------------------------- choosing segments

/// `a` sorts no later than `b`: by UTF-8 length, longest first, then by start;
/// or, when `by_len` is false, by start alone.
pub open spec fn key_le(a: SpanV, b: SpanV, by_len: bool) -> bool {
    if by_len {
        let la = crate::text::utf8_len(a.text);
        let lb = crate::text::utf8_len(b.text);
        la > lb || (la == lb && a.start <= b.start)
    } else {
        a.start <= b.start
    }
}

/// `x` placed into sorted `s` after every element that sorts no later than it.
pub open spec fn insert_sorted(s: Seq<SpanV>, x: SpanV, by_len: bool) -> Seq<SpanV>
    decreases s.len(),
{
    if s.len() == 0 {
        seq![x]
    } else if key_le(s.last(), x, by_len) {
        s.push(x)
    } else {
        insert_sorted(s.drop_last(), x, by_len).push(s.last())
    }
}

/// The stable sort of `s` (what `slice::sort_by` gives).
pub open spec fn sort_spans(s: Seq<SpanV>, by_len: bool) -> Seq<SpanV>
    decreases s.len(),
{
    if s.len() == 0 {
        s
    } else {
        insert_sorted(sort_spans(s.drop_last(), by_len), s.last(), by_len)
    }
}

pub open spec fn overlaps(a: SpanV, b: SpanV) -> bool {
    !(a.end <= b.start || a.start >= b.end)
}

/// Segments taken in order, each unless it overlaps one taken before.
pub open spec fn greedy(s: Seq<SpanV>) -> Seq<SpanV>
    decreases s.len(),
{
    if s.len() == 0 {
        s
    } else {
        let g = greedy(s.drop_last());
        if exists|k: int| 0 <= k < g.len() && overlaps(s.last(), #[trigger] g[k]) {
            g
        } else {
            g.push(s.last())
        }
    }
}

/// Non-overlapping segments, longer ones (then earlier ones) first, in text order.
pub open spec fn pick_spans(s: Seq<SpanV>) -> Seq<SpanV> {
    sort_spans(greedy(sort_spans(s, true)), false)
}

proof fn lemma_insert_split(s: Seq<SpanV>, x: SpanV, by_len: bool, j: int)
    requires
        0 <= j <= s.len(),
        forall|k: int| j <= k < s.len() ==> !key_le(#[trigger] s[k], x, by_len),
        j == 0 || key_le(s[j - 1], x, by_len),
    ensures
        insert_sorted(s, x, by_len) == s.take(j).push(x) + s.skip(j),
    decreases s.len(),
{
    if s.len() == 0 {
        assert(s.take(j).push(x) + s.skip(j) =~= seq![x]);
    } else if j == s.len() {
        assert(s.take(j).push(x) + s.skip(j) =~= s.push(x));
    } else {
        lemma_insert_split(s.drop_last(), x, by_len, j);
        assert(s.drop_last().take(j).push(x) + s.drop_last().skip(j) + seq![s.last()] =~= s.take(
            j,
        ).push(x) + s.skip(j));
    }
}

/// Every element of `insert_sorted(s, x, _)` is `x` or an element of `s`.
proof fn lemma_insert_elems(s: Seq<SpanV>, x: SpanV, by_len: bool, p: spec_fn(SpanV) -> bool)
    requires
        forall|k: int| 0 <= k < s.len() ==> p(#[trigger] s[k]),
        p(x),
    ensures
        forall|k: int|
            0 <= k < insert_sorted(s, x, by_len).len() ==> p(
                #[trigger] insert_sorted(s, x, by_len)[k],
            ),
        insert_sorted(s, x, by_len).len() == s.len() + 1,
    decreases s.len(),
{
    if s.len() > 0 && !key_le(s.last(), x, by_len) {
        lemma_insert_elems(s.drop_last(), x, by_len, p);
    }
}

proof fn lemma_sort_elems(s: Seq<SpanV>, by_len: bool, p: spec_fn(SpanV) -> bool)
    requires
        forall|k: int| 0 <= k < s.len() ==> p(#[trigger] s[k]),
    ensures
        forall|k: int|
            0 <= k < sort_spans(s, by_len).len() ==> p(#[trigger] sort_spans(s, by_len)[k]),
        sort_spans(s, by_len).len() == s.len(),
    decreases s.len(),
{
    if s.len() > 0 {
        lemma_sort_elems(s.drop_last(), by_len, p);
        lemma_insert_elems(sort_spans(s.drop_last(), by_len), s.last(), by_len, p);
    }
}

proof fn lemma_greedy_elems(s: Seq<SpanV>, p: spec_fn(SpanV) -> bool)
    requires
        forall|k: int| 0 <= k < s.len() ==> p(#[trigger] s[k]),
    ensures
        forall|k: int| 0 <= k < greedy(s).len() ==> p(#[trigger] greedy(s)[k]),
        greedy(s).len() <= s.len(),
    decreases s.len(),
{
    if s.len() > 0 {
        lemma_greedy_elems(s.drop_last(), p);
    }
}

pub proof fn lemma_sort_elems_pub(s: Seq<SpanV>, by_len: bool, p: spec_fn(SpanV) -> bool)
    requires
        forall|k: int| 0 <= k < s.len() ==> p(#[trigger] s[k]),
    ensures
        forall|k: int|
            0 <= k < sort_spans(s, by_len).len() ==> p(#[trigger] sort_spans(s, by_len)[k]),
        sort_spans(s, by_len).len() == s.len(),
{
    lemma_sort_elems(s, by_len, p);
}

pub proof fn lemma_greedy_elems_pub(s: Seq<SpanV>, p: spec_fn(SpanV) -> bool)
    requires
        forall|k: int| 0 <= k < s.len() ==> p(#[trigger] s[k]),
    ensures
        forall|k: int| 0 <= k < greedy(s).len() ==> p(#[trigger] greedy(s)[k]),
        greedy(s).len() <= s.len(),
{
    lemma_greedy_elems(s, p);
}

fn clone_span(sp: &Span) -> (r: Span)
    ensures
        r@ == sp@,
{
    Span { start: sp.start, end: sp.end, text: sp.text.clone() }
}

/// UTF-8 length of `s`, which always fits in `u128`.
fn utf8_len_wide(s: &Vec<char>) -> (r: u128)
    ensures
        r == crate::text::utf8_len(s@),
{
    let mut n: u128 = 0;
    let mut i: usize = 0;
    while i < s.len()
        invariant
            i <= s.len(),
            n == crate::text::utf8_len(s@.subrange(0, i as int)),
            n <= 4 * i,
        decreases s.len() - i,
    {
        let w = crate::text::char_utf8_width(s[i]);
        proof {
            assert(s@.subrange(0, i + 1) =~= s@.subrange(0, i as int).push(s@[i as int]));
            crate::text::lemma_utf8_len_push(s@.subrange(0, i as int), s@[i as int]);
        }
        n = n + w as u128;
        i += 1;
    }
    assert(s@.subrange(0, s.len() as int) =~= s@);
    n
}

fn key_le_exec(a: &Span, b: &Span, by_len: bool) -> (r: bool)
    ensures
        r == key_le(a@, b@, by_len),
{
    if by_len {
        let la = utf8_len_wide(&a.text);
        let lb = utf8_len_wide(&b.text);
        la > lb || (la == lb && a.start <= b.start)
    } else {
        a.start <= b.start
    }
}

fn sort_spans_exec(v: &Vec<Span>, by_len: bool) -> (r: Vec<Span>)
    ensures
        spans_view(r@) == sort_spans(spans_view(v@), by_len),
{
    let mut out: Vec<Span> = Vec::new();
    let mut i: usize = 0;
    let ghost sv = spans_view(v@);
    assert(sv.take(0) =~= Seq::<SpanV>::empty());
    while i < v.len()
        invariant
            i <= v.len(),
            sv == spans_view(v@),
            spans_view(out@) == sort_spans(sv.take(i as int), by_len),
        decreases v.len() - i,
    {
        let x = clone_span(&v[i]);
        let mut j = out.len();
        while j > 0 && !key_le_exec(&out[j - 1], &x, by_len)
            invariant
                j <= out.len(),
                forall|k: int| j <= k < out.len() ==> !key_le((#[trigger] out@[k])@, x@, by_len),
            decreases j,
        {
            j -= 1;
        }
        let ghost before = spans_view(out@);
        proof {
            assert forall|k: int| j <= k < before.len() implies !key_le(#[trigger] before[k], x@, by_len) by {
                assert(before[k] == out@[k]@);
            }
            if j > 0 {
                assert(before[j - 1] == out@[j - 1]@);
            }
            lemma_insert_split(before, x@, by_len, j as int);
            assert(sv.take(i + 1).drop_last() =~= sv.take(i as int));
            assert(sv.take(i + 1).last() == x@);
        }
        out.insert(j, x);
        assert(spans_view(out@) =~= before.take(j as int).push(x@) + before.skip(j as int));
        i += 1;
    }
    assert(sv.take(v.len() as int) =~= sv);
    out
}

fn greedy_exec(v: &Vec<Span>) -> (r: Vec<Span>)
    ensures
        spans_view(r@) == greedy(spans_view(v@)),
{
    let mut out: Vec<Span> = Vec::new();
    let mut i: usize = 0;
    let ghost sv = spans_view(v@);
    assert(sv.take(0) =~= Seq::<SpanV>::empty());
    while i < v.len()
        invariant
            i <= v.len(),
            sv == spans_view(v@),
            spans_view(out@) == greedy(sv.take(i as int)),
        decreases v.len() - i,
    {
        let ghost g = spans_view(out@);
        let mut hit = false;
        let mut k: usize = 0;
        while k < out.len()
            invariant
                k <= out.len(),
                i < v.len(),
                g == spans_view(out@),
                hit == exists|m: int| 0 <= m < k && overlaps(v@[i as int]@, #[trigger] g[m]),
            decreases out.len() - k,
        {
            if !(v[i].end <= out[k].start || v[i].start >= out[k].end) {
                hit = true;
            }
            assert(g[k as int] == out@[k as int]@);
            k += 1;
        }
        proof {
            assert(sv.take(i + 1).drop_last() =~= sv.take(i as int));
            assert(sv.take(i + 1).last() == v@[i as int]@);
        }
        if !hit {
            out.push(clone_span(&v[i]));
            assert(spans_view(out@) =~= g.push(v@[i as int]@));
        }
        i += 1;
    }
    assert(sv.take(v.len() as int) =~= sv);
    out
}

/// Non-overlapping segments as `pick_spans` states them.
fn pick_non_overlapping(v: &Vec<Span>) -> (r: Vec<Span>)
    ensures
        spans_view(r@) == pick_spans(spans_view(v@)),
{
    let by_len = sort_spans_exec(v, true);
    let g = greedy_exec(&by_len);
    sort_spans_exec(&g, false)
}


// ---------------------------------------------------------------- placeholders

/// Decimal digits of `n`, zero-padded on the left to at least `w` digits
/// (what `format!("{:0w$}", n)` gives).
pub open spec fn dec_width(n: nat, w: nat) -> Seq<char>
    decreases n, w,
{
    if n == 0 && w == 0 {
        Seq::empty()
    } else {
        dec_width(
            n / 10,
            if w > 0 {
                (w - 1) as nat
            } else {
                0
            },
        ).push(digit_char(n % 10))
    }
}

fn dec_width_exec(n: u32, w: u32) -> (r: Vec<char>)
    ensures
        r@ == dec_width(n as nat, w as nat),
    decreases n, w,
{
    if n == 0 && w == 0 {
        Vec::new()
    } else {
        let w2: u32 = if w > 0 {
            w - 1
        } else {
            0
        };
        let mut r = dec_width_exec(n / 10, w2);
        r.push(digit_char_exec(n % 10));
        r
    }
}

pub open spec fn placeholder_prefix() -> Seq<char> {
    seq!['_', '_', 'R', 'M', '_', 'P', 'R', 'I', 'V', '_']
}

/// The placeholder `__RM_PRIV_NNNN__` for `id` (at least four digits).
pub open spec fn placeholder(id: u32) -> Seq<char> {
    placeholder_prefix() + dec_width(id as nat, 4) + seq!['_', '_']
}

fn placeholder_exec(id: u32) -> (r: Vec<char>)
    ensures
        r@ == placeholder(id),
{
    let mut r = vec!['_', '_', 'R', 'M', '_', 'P', 'R', 'I', 'V', '_'];
    let mut d = dec_width_exec(id, 4);
    r.append(&mut d);
    r.push('_');
    r.push('_');
    assert(r@ =~= placeholder(id));
    r
}

/// The id after `id`; the counter wraps around at `u32::MAX`.
pub open spec fn next_id_of(id: u32) -> u32 {
    if id == u32::MAX {
        0
    } else {
        (id + 1) as u32
    }
}

/// The id after `k` steps from `id`.
pub open spec fn advance(id: u32, k: nat) -> u32
    decreases k,
{
    if k == 0 {
        id
    } else {
        advance(next_id_of(id), (k - 1) as nat)
    }
}

/// `text` with the chosen segments replaced by placeholders numbered from `id`;
/// `last` is where the text not yet copied starts.
pub open spec fn render(text: Seq<char>, spans: Seq<SpanV>, last: int, id: u32) -> Seq<char>
    decreases spans.len(),
{
    if spans.len() == 0 {
        if last < text.len() {
            text.subrange(last, text.len() as int)
        } else {
            Seq::empty()
        }
    } else {
        let sp = spans[0];
        (if sp.start > last {
            text.subrange(last, sp.start)
        } else {
            Seq::empty()
        }) + placeholder(id) + render(text, spans.drop_first(), sp.end, next_id_of(id))
    }
}

/// The pairs (placeholder, original text) recorded for the chosen segments.
pub open spec fn pairs_of(spans: Seq<SpanV>, id: u32) -> Seq<(Seq<char>, Seq<char>)>
    decreases spans.len(),
{
    if spans.len() == 0 {
        Seq::empty()
    } else {
        seq![(placeholder(id), spans[0].text)] + pairs_of(spans.drop_first(), next_id_of(id))
    }
}

// ---------------------------------------------------------------- the token map

/// Placeholders and the text each stands for, in the order they were made.
#[derive(Debug)]
pub struct PrivacyTokenMap {
    pairs: Vec<(String, String)>,
}

impl View for PrivacyTokenMap {
    type V = Seq<(Seq<char>, Seq<char>)>;

    closed spec fn view(&self) -> Seq<(Seq<char>, Seq<char>)> {
        self.pairs@.map_values(|p: (String, String)| (p.0@, p.1@))
    }
}

impl Default for PrivacyTokenMap {
    fn default() -> (r: Self)
        ensures
            r@ == Seq::<(Seq<char>, Seq<char>)>::empty(),
    {
        let r = PrivacyTokenMap { pairs: Vec::new() };
        assert(r@ =~= Seq::<(Seq<char>, Seq<char>)>::empty());
        r
    }
}

impl PrivacyTokenMap {
    pub fn is_empty(&self) -> (r: bool)
        ensures
            r == (self@.len() == 0),
    {
        self.pairs.is_empty()
    }

    /// Appends the pairs of `other` after those of `self`.
    pub fn extend_map(&mut self, other: PrivacyTokenMap)
        ensures
            final(self)@ == old(self)@ + other@,
    {
        let mut o = other.pairs;
        let ghost ov = o@.map_values(|p: (String, String)| (p.0@, p.1@));
        let ghost sv = self.pairs@.map_values(|p: (String, String)| (p.0@, p.1@));
        self.pairs.append(&mut o);
        assert(self.pairs@.map_values(|p: (String, String)| (p.0@, p.1@)) =~= sv + ov);
    }
}

/// What masking `text` gives with placeholders numbered from `id`: the masked
/// text and the pairs recorded.
pub open spec fn mask_result(text: Seq<char>, id: u32) -> (Seq<char>, Seq<(Seq<char>, Seq<char>)>) {
    if text.len() == 0 {
        (Seq::empty(), Seq::empty())
    } else {
        let p = pick_spans(candidate_spans(text));
        (render(text, p, 0, id), pairs_of(p, id))
    }
}

/// The counter after masking `text` from `id`.
pub open spec fn mask_next_id(text: Seq<char>, id: u32) -> u32 {
    if text.len() == 0 {
        id
    } else {
        advance(id, pick_spans(candidate_spans(text)).len())
    }
}

/// Replaces the sensitive segments detected in `text` by `__RM_PRIV_NNNN__`
/// placeholders and records how to restore them. `next_id` is shared when several
/// texts are masked for one request, so that placeholders stay distinct.
pub fn mask_sensitive_segments(text: &str, next_id: &mut u32) -> (r: (String, PrivacyTokenMap))
    ensures
        r.0@ == mask_result(text@, *old(next_id)).0,
        r.1@ == mask_result(text@, *old(next_id)).1,
        *final(next_id) == mask_next_id(text@, *old(next_id)),
{
    if text.is_empty() {
        let m = PrivacyTokenMap::default();
        return (String::new(), m);
    }
    let chars = str_chars(text);
    let cands = collect_spans(text, &chars);
    let picked = pick_non_overlapping(&cands);
    let ghost pv = spans_view(picked@);
    let ghost n = chars.len() as int;
    proof {
        let bounded = |sp: SpanV| 0 <= sp.start <= sp.end <= n;
        let cv = spans_view(cands@);
        assert forall|k: int| 0 <= k < cv.len() implies bounded(#[trigger] cv[k]) by {
            assert(cv[k] == cands@[k]@);
        }
        lemma_sort_elems(cv, true, bounded);
        lemma_greedy_elems(sort_spans(cv, true), bounded);
        lemma_sort_elems(greedy(sort_spans(cv, true)), false, bounded);
    }
    let ghost id0 = *next_id;
    let mut out: Vec<char> = Vec::new();
    let mut pairs: Vec<(String, String)> = Vec::new();
    let mut last: usize = 0;
    let mut k: usize = 0;
    assert(pv.subrange(0, pv.len() as int) =~= pv);
    assert(pairs@.map_values(|p: (String, String)| (p.0@, p.1@)) =~= Seq::<
        (Seq<char>, Seq<char>),
    >::empty());
    while k < picked.len()
        invariant
            k <= picked.len(),
            pv == spans_view(picked@),
            n == chars.len(),
            chars@ == text@,
            forall|j: int| 0 <= j < pv.len() ==> 0 <= (#[trigger] pv[j]).start <= pv[j].end <= n,
            last <= chars.len(),
            out@ + render(chars@, pv.subrange(k as int, pv.len() as int), last as int, *next_id)
                == render(chars@, pv, 0, id0),
            pairs@.map_values(|p: (String, String)| (p.0@, p.1@)) + pairs_of(
                pv.subrange(k as int, pv.len() as int),
                *next_id,
            ) == pairs_of(pv, id0),
            *next_id == advance(id0, k as nat),
        decreases picked.len() - k,
    {
        let ghost rest = pv.subrange(k as int, pv.len() as int);
        let ghost old_out = out@;
        let ghost old_pairs = pairs@.map_values(|p: (String, String)| (p.0@, p.1@));
        let ghost old_id = *next_id;
        assert(rest[0] == picked@[k as int]@);
        assert(rest.drop_first() =~= pv.subrange(k + 1, pv.len() as int));
        let sp_start = picked[k].start;
        let sp_end = picked[k].end;
        if sp_start > last {
            let mut chunk = slice_chars(&chars, last, sp_start);
            out.append(&mut chunk);
        }
        let ph = placeholder_exec(*next_id);
        pairs.push((chars_to_string_local(&ph), chars_to_string_local(&picked[k].text)));
        let mut ph2 = ph.clone();
        assert(ph2@ == ph@);
        out.append(&mut ph2);
        last = sp_end;
        *next_id = if *next_id == u32::MAX {
            0
        } else {
            *next_id + 1
        };
        proof {
            assert(pairs@.map_values(|p: (String, String)| (p.0@, p.1@)) =~= old_pairs + seq![
                (placeholder(old_id), rest[0].text),
            ]);
            lemma_advance_step(id0, k as nat);
        }
        k += 1;
    }
    if last < chars.len() {
        let mut tail = slice_chars(&chars, last, chars.len());
        out.append(&mut tail);
    }
    assert(out@ =~= render(chars@, pv, 0, id0));
    let m = PrivacyTokenMap { pairs };
    assert(m@ =~= pairs_of(pv, id0));
    (chars_to_string_local(&out), m)
}

proof fn lemma_advance_step(id: u32, k: nat)
    ensures
        advance(id, k + 1) == next_id_of(advance(id, k)),
    decreases k,
{
    if k > 0 {
        lemma_advance_step(next_id_of(id), (k - 1) as nat);
        assert(advance(id, k) == advance(next_id_of(id), (k - 1) as nat));
        assert(advance(id, k + 1) == advance(next_id_of(id), k));
    } else {
        assert(advance(next_id_of(id), 0) == next_id_of(id));
        assert(advance(id, 1) == advance(next_id_of(id), 0));
    }
}

pub proof fn lemma_advance_step_pub(id: u32, k: nat)
    ensures
        advance(id, k + 1) == next_id_of(advance(id, k)),
{
    lemma_advance_step(id, k);
}

fn chars_to_string_local(v: &Vec<char>) -> (r: String)
    ensures
        r@ == v@,
{
    crate::text::chars_to_string(v)
}

/// Masks one text on its own, numbering placeholders from 0.
pub fn mask_sensitive_segments_single(text: &str) -> (r: (String, PrivacyTokenMap))
    ensures
        r.0@ == mask_result(text@, 0).0,
        r.1@ == mask_result(text@, 0).1,
{
    let mut n: u32 = 0;
    mask_sensitive_segments(text, &mut n)
}

/// `s` with each recorded placeholder replaced by its text, the last pair first.
pub open spec fn unmask_spec(s: Seq<char>, pairs: Seq<(Seq<char>, Seq<char>)>) -> Seq<char>
    decreases pairs.len(),
{
    if pairs.len() == 0 {
        s
    } else {
        unmask_spec(
            crate::text::replace_all(s, pairs.last().0, pairs.last().1),
            pairs.drop_last(),
        )
    }
}

/// Restores the original text for every placeholder of `map` in `s` (such as a
/// model's JSON reply).
pub fn unmask_sensitive_segments(s: &str, map: &PrivacyTokenMap) -> (r: String)
    ensures
        r@ == unmask_spec(s@, map@),
{
    let mut out = str_chars(s);
    let mut k = map.pairs.len();
    let ghost pv = map@;
    assert(pv.take(k as int) =~= pv);
    while k > 0
        invariant
            k <= map.pairs.len(),
            pv == map@,
            unmask_spec(out@, pv.take(k as int)) == unmask_spec(s@, pv),
        decreases k,
    {
        k -= 1;
        let ph = str_chars(map.pairs[k].0.as_str());
        let orig = str_chars(map.pairs[k].1.as_str());
        assert(pv.take(k + 1).drop_last() =~= pv.take(k as int));
        assert(pv.take(k + 1).last() == pv[k as int]);
        out = crate::text::replace_chars(&out, &ph, &orig);
    }
    assert(pv.take(0) =~= Seq::<(Seq<char>, Seq<char>)>::empty());
    chars_to_string_local(&out)
}


// ---------------------------------------------------------------- names

/// Field labels that a surname scan can mistake for a name ("姓名" opens with the
/// surname "姓").
pub open spec fn label_words() -> Seq<Seq<char>> {
    seq![
        "姓名"@,
        "名字"@,
        "本名"@,
        "应聘人"@,
        "求职者"@,
        "申请人"@,
        "候选人"@,
        "Name"@,
        "Candidate"@,
    ]
}

fn label_words_exec() -> (r: Vec<Vec<char>>)
    ensures
        vecs_view(r@) == label_words(),
{
    let r = vec![
        str_chars("姓名"),
        str_chars("名字"),
        str_chars("本名"),
        str_chars("应聘人"),
        str_chars("求职者"),
        str_chars("申请人"),
        str_chars("候选人"),
        str_chars("Name"),
        str_chars("Candidate"),
    ];
    assert(vecs_view(r@) =~= label_words());
    r
}

pub open spec fn is_label_word(t: Seq<char>) -> bool {
    exists|k: int| 0 <= k < label_words().len() && #[trigger] label_words()[k] == t
}

fn label_word(t: &Vec<char>) -> (r: bool)
    ensures
        r == is_label_word(t@),
{
    let words = label_words_exec();
    let mut k: usize = 0;
    while k < words.len()
        invariant
            k <= words.len(),
            vecs_view(words@) == label_words(),
            forall|j: int| 0 <= j < k ==> #[trigger] label_words()[j] != t@,
        decreases words.len() - k,
    {
        assert(words@[k as int]@ == label_words()[k as int]);
        if crate::text::chars_eq(&words[k], t) {
            return true;
        }
        k += 1;
    }
    false
}

/// A Chinese name: 2-4 chars, one of them CJK, opening with a common surname.
pub open spec fn is_cn_name(t: Seq<char>) -> bool {
    &&& 2 <= t.len() <= 4
    &&& exists|i: int| 0 <= i < t.len() && '\u{4E00}' <= #[trigger] t[i] && t[i] <= '\u{9FFF}'
    &&& is_surname_initial(t[0])
    &&& !is_label_word(t)
}

/// A Latin-script name: at least 2 chars, a capital, only letters, spaces, dots, hyphens.
pub open spec fn is_latin_name(t: Seq<char>) -> bool {
    &&& t.len() >= 2
    &&& exists|i: int| 0 <= i < t.len() && is_ascii_upper(#[trigger] t[i])
    &&& forall|i: int| 0 <= i < t.len() ==> is_name_latin(#[trigger] t[i])
    &&& !is_label_word(t)
}

/// The trimmed text of the first segment that is a name of the kind asked for.
pub open spec fn first_name(spans: Seq<SpanV>, latin: bool) -> Option<Seq<char>>
    decreases spans.len(),
{
    if spans.len() == 0 {
        None
    } else {
        let t = trim(spans[0].text);
        if (if latin {
            is_latin_name(t)
        } else {
            is_cn_name(t)
        }) {
            Some(t)
        } else {
            first_name(spans.drop_first(), latin)
        }
    }
}

/// The name read from `text`: from the first lines or by surname, a Chinese
/// name preferred to a Latin one.
pub open spec fn extracted_name(text: Seq<char>) -> Option<Seq<char>> {
    if text.len() == 0 {
        None
    } else {
        let ns = pick_spans(header_spans(text) + surname_spans(text));
        match first_name(ns, false) {
            Some(t) => Some(t),
            None => first_name(ns, true),
        }
    }
}

fn name_kind(t: &Vec<char>, latin: bool) -> (r: bool)
    ensures
        r == (if latin {
            is_latin_name(t@)
        } else {
            is_cn_name(t@)
        }),
{
    let n = t.len();
    if latin {
        if n < 2 {
            return false;
        }
        let mut up = false;
        let mut all = true;
        let mut i: usize = 0;
        while i < n
            invariant
                n == t.len(),
                i <= n,
                up == exists|k: int| 0 <= k < i && is_ascii_upper(#[trigger] t@[k]),
                all == forall|k: int| 0 <= k < i ==> is_name_latin(#[trigger] t@[k]),
            decreases n - i,
        {
            let c = t[i];
            if 'A' <= c && c <= 'Z' {
                up = true;
            }
            if !(('A' <= c && c <= 'Z') || ('a' <= c && c <= 'z') || c == ' ' || c == '.' || c
                == '-') {
                all = false;
            }
            i += 1;
        }
        up && all && !label_word(t)
    } else {
        if n < 2 || n > 4 {
            return false;
        }
        let mut cjk = false;
        let mut i: usize = 0;
        while i < n
            invariant
                n == t.len(),
                i <= n,
                cjk == exists|k: int| 0 <= k < i && '\u{4E00}' <= #[trigger] t@[k] && t@[k] <= '\u{9FFF}',
            decreases n - i,
        {
            if '\u{4E00}' <= t[i] && t[i] <= '\u{9FFF}' {
                cjk = true;
            }
            i += 1;
        }
        cjk && is_common_surname(t[0]) && !label_word(t)
    }
}

fn first_name_exec(spans: &Vec<Span>, latin: bool) -> (r: Option<Vec<char>>)
    ensures
        r matches Some(t) ==> first_name(spans_view(spans@), latin) == Some(t@),
        r is None ==> first_name(spans_view(spans@), latin) is None,
{
    let ghost sv = spans_view(spans@);
    let mut k: usize = 0;
    assert(sv.subrange(0, sv.len() as int) =~= sv);
    while k < spans.len()
        invariant
            k <= spans.len(),
            sv == spans_view(spans@),
            first_name(sv, latin) == first_name(sv.subrange(k as int, sv.len() as int), latin),
        decreases spans.len() - k,
    {
        let ghost rest = sv.subrange(k as int, sv.len() as int);
        assert(rest[0] == spans@[k as int]@);
        assert(rest.drop_first() =~= sv.subrange(k + 1, sv.len() as int));
        let t = trim_chars(&spans[k].text);
        if name_kind(&t, latin) {
            return Some(t);
        }
        k += 1;
    }
    None
}

/// Reads a name straight from the resume text, for when the model returned none:
/// names from the first lines and names found by surname, a Chinese one first.
pub fn extract_name_from_text(text: &str) -> (r: Option<String>)
    ensures
        r matches Some(t) ==> extracted_name(text@) == Some(t@),
        r is None ==> extracted_name(text@) is None,
{
    if text.is_empty() {
        return None;
    }
    let chars = str_chars(text);
    let mut spans = collect_names_from_header(&chars);
    let ghost hv = spans_view(spans@);
    let mut more = collect_names_by_surname(&chars);
    let ghost mv = spans_view(more@);
    spans.append(&mut more);
    assert(spans_view(spans@) =~= hv + mv);
    let picked = pick_non_overlapping(&spans);
    match first_name_exec(&picked, false) {
        Some(t) => Some(chars_to_string_local(&t)),
        None => match first_name_exec(&picked, true) {
            Some(t) => Some(chars_to_string_local(&t)),
            None => None,
        },
    }
}

} // verus!
