//! The line structure of a plain-text resume rendered to PDF: time ranges
//! pulled up to the line they belong to, numbered items cut into sections, and
//! each line classified as blank, title, heading, item or plain text. Fitting
//! the lines to the page width is the renderer's part.

use crate::extract::{lines_of, split_on, split_on_char, str_lines};
use crate::search::{
    char_index_at_byte, char_index_of_byte, regex_capture_spans, regex_captures_all,
    regex_find_all, regex_find_spans,
};
use crate::text::{
    append_chars, chars_to_string, contains_chars, contains_seq, ends_with, ends_with_chars, join_chars,
    join_with, lemma_map_push, lemma_trim_idempotent, slice_chars, starts_with, starts_with_chars, str_chars, trim,
    trim_chars, trim_end, trim_end_chars, vecs_view,
};
use vstd::prelude::*;

verus! {

// ---------------------------------------------------------------- time ranges

/// A line that is only a time range, such as `2019.03 - 至今` or `2018-2020`.
pub const TIME_RANGE_PATTERN: &'static str =
    r"^\s*\d{4}(?:[./-]\d{1,2})?\s*[-~—至]\s*(?:\d{4}(?:[./-]\d{1,2})?|至今)\s*$";

/// The trimmed text matches the time-range pattern.
pub open spec fn looks_like_time_range(s: Seq<char>) -> bool {
    match regex_find_spans(TIME_RANGE_PATTERN@, trim(s)) {
        Some(ms) => ms.len() > 0,
        None => false,
    }
}

fn looks_like_time_range_exec(s: &Vec<char>) -> (r: bool)
    ensures
        r == looks_like_time_range(s@),
{
    let t = chars_to_string(&trim_chars(s));
    match regex_find_all(TIME_RANGE_PATTERN, t.as_str()) {
        Some(ms) => ms.len() > 0,
        None => false,
    }
}

/// A line after which a time range is pulled up: it ends with a slash or a
/// dash, or holds a spaced slash or a full-width slash.
pub open spec fn awaits_time_range(prev: Seq<char>) -> bool {
    let p = trim_end(prev);
    ||| ends_with(p, seq!['/'])
    ||| ends_with(p, seq!['／'])
    ||| ends_with(p, seq!['-'])
    ||| contains_seq(p, seq![' ', '/', ' '])
    ||| contains_seq(p, seq!['／'])
}

/// The lines with each time-range line joined to the line before it when that
/// line awaits one, other lines kept without trailing white space.
pub open spec fn time_tail_joined(lines: Seq<Seq<char>>) -> Seq<Seq<char>>
    decreases lines.len(),
{
    if lines.len() == 0 {
        Seq::empty()
    } else {
        let out = time_tail_joined(lines.drop_last());
        let raw = lines.last();
        let t = trim(raw);
        if looks_like_time_range(t) && out.len() > 0 && awaits_time_range(out.last()) {
            out.update(out.len() - 1, trim_end(out.last()) + seq![' '] + t)
        } else {
            out.push(trim_end(raw))
        }
    }
}

fn awaits_time_range_exec(prev: &Vec<char>) -> (r: bool)
    ensures
        r == awaits_time_range(prev@),
{
    let p = trim_end_chars(prev);
    let mut slash: Vec<char> = Vec::new();
    slash.push('/');
    let mut wide: Vec<char> = Vec::new();
    wide.push('／');
    let mut dash: Vec<char> = Vec::new();
    dash.push('-');
    let mut spaced: Vec<char> = Vec::new();
    spaced.push(' ');
    spaced.push('/');
    spaced.push(' ');
    assert(slash@ =~= seq!['/']);
    assert(wide@ =~= seq!['／']);
    assert(dash@ =~= seq!['-']);
    assert(spaced@ =~= seq![' ', '/', ' ']);
    ends_with_chars(&p, &slash) || ends_with_chars(&p, &wide) || ends_with_chars(&p, &dash)
        || contains_chars(&p, &spaced) || contains_chars(&p, &wide)
}

/// The lines, each time-range line joined to a line before it that awaits one.
pub fn preprocess_lines_for_time_tail(lines: &Vec<Vec<char>>) -> (r: Vec<Vec<char>>)
    ensures
        vecs_view(r@) == time_tail_joined(vecs_view(lines@)),
{
    let ghost lv = vecs_view(lines@);
    let mut out: Vec<Vec<char>> = Vec::new();
    let mut i: usize = 0;
    assert(lv.take(0) =~= Seq::<Seq<char>>::empty());
    while i < lines.len()
        invariant
            i <= lines.len(),
            lv == vecs_view(lines@),
            vecs_view(out@) == time_tail_joined(lv.take(i as int)),
        decreases lines.len() - i,
    {
        assert(lv.take(i + 1).drop_last() =~= lv.take(i as int));
        assert(lv.take(i + 1).last() == lines@[i as int]@);
        let raw = &lines[i];
        let t = trim_chars(raw);
        let n = out.len();
        proof {
            if n > 0 {
                assert(vecs_view(out@).last() == out@[n - 1]@);
            }
        }
        if looks_like_time_range_exec(&t) && n > 0 && awaits_time_range_exec(&out[n - 1]) {
            let mut merged = trim_end_chars(&out[n - 1]);
            merged.push(' ');
            append_chars(&mut merged, &t);
            let ghost before = vecs_view(out@);
            let ghost mv = merged@;
            out.set(n - 1, merged);
            assert(vecs_view(out@) =~= before.update(n - 1, mv));
            assert(mv =~= trim_end(before.last()) + seq![' '] + trim(raw@));
        } else {
            let line = trim_end_chars(raw);
            proof {
                lemma_map_push(out@, line, |x: Vec<char>| x@);
            }
            out.push(line);
        }
        i += 1;
    }
    assert(lv.take(i as int) =~= lv);
    out
}

// ---------------------------------------------------------------- numbered sections

/// A short number (one or two digits) followed by `、` or a dot, at the start
/// or after white space or punctuation; group 1 is the number.
pub const NUMBERED_MARKER_PATTERN: &'static str = r"(?:^|[\s；;，,。])(?P<num>\d{1,2})\s*[、.．]";

/// `x` put in its place in a strictly increasing sequence, unless present.
pub open spec fn insert_position(v: Seq<int>, x: int) -> Seq<int>
    decreases v.len(),
{
    if v.len() == 0 {
        seq![x]
    } else if x < v[0] {
        seq![x] + v
    } else if x == v[0] {
        v
    } else {
        seq![v[0]] + insert_position(v.drop_first(), x)
    }
}

/// The char positions where the numbers of the markers begin, apart from the
/// very start, ascending and without repeats.
pub open spec fn marker_starts(
    text: Seq<char>,
    caps: Seq<(Option<(usize, usize)>, Option<(usize, usize)>)>,
) -> Seq<int>
    decreases caps.len(),
{
    if caps.len() == 0 {
        Seq::empty()
    } else {
        let r = marker_starts(text, caps.drop_last());
        match caps.last().1 {
            Some(g) => if g.0 > 0 {
                match char_index_of_byte(text, g.0 as int) {
                    Some(c) => insert_position(r, c),
                    None => r,
                }
            } else {
                r
            },
            None => r,
        }
    }
}

/// The sections cut at the given positions, from the start up to the last
/// position, and the last position used.
pub open spec fn cut_sections(text: Seq<char>, starts: Seq<int>) -> (Seq<Seq<char>>, int)
    decreases starts.len(),
{
    if starts.len() == 0 {
        (Seq::empty(), 0)
    } else {
        let (out, cur) = cut_sections(text, starts.drop_last());
        let st = starts.last();
        if st <= cur || st > text.len() {
            (out, cur)
        } else {
            let seg = trim(text.subrange(cur, st));
            (
                if seg.len() > 0 {
                    out.push(seg)
                } else {
                    out
                },
                st,
            )
        }
    }
}

/// The trimmed, non-empty sections of `text` cut where numbered items begin;
/// the trimmed text alone when nothing is cut.
pub open spec fn sections_at(text: Seq<char>, starts: Seq<int>) -> Seq<Seq<char>> {
    if starts.len() == 0 {
        seq![trim(text)]
    } else {
        let (out, cur) = cut_sections(text, starts);
        let tail = trim(text.subrange(cur, text.len() as int));
        let all = if cur < text.len() && tail.len() > 0 {
            out.push(tail)
        } else {
            out
        };
        if all.len() == 0 {
            seq![trim(text)]
        } else {
            all
        }
    }
}

/// What `split_numbered_sections` gives: the text cut before every short
/// item number that is not at its very start.
pub open spec fn numbered_sections(text: Seq<char>) -> Seq<Seq<char>> {
    let caps = match regex_capture_spans(NUMBERED_MARKER_PATTERN@, text) {
        Some(c) => c,
        None => Seq::empty(),
    };
    sections_at(text, marker_starts(text, caps))
}

proof fn lemma_insert_position_at(v: Seq<int>, x: int, i: int)
    requires
        0 <= i <= v.len(),
        forall|k: int| 0 <= k < i ==> #[trigger] v[k] < x,
        i < v.len() ==> x <= v[i],
    ensures
        i < v.len() && v[i] == x ==> insert_position(v, x) == v,
        !(i < v.len() && v[i] == x) ==> insert_position(v, x) == v.insert(i, x),
    decreases i,
{
    if i == 0 {
        if v.len() > 0 && v[0] != x {
            assert(seq![x] + v =~= v.insert(0, x));
        } else if v.len() == 0 {
            assert(seq![x] =~= v.insert(0, x));
        }
    } else {
        let rest = v.drop_first();
        assert forall|k: int| 0 <= k < i - 1 implies #[trigger] rest[k] < x by {
            assert(rest[k] == v[k + 1]);
        }
        lemma_insert_position_at(rest, x, i - 1);
        if i < v.len() && v[i] == x {
            assert(seq![v[0]] + rest =~= v);
        } else {
            assert(seq![v[0]] + rest.insert(i - 1, x) =~= v.insert(i, x));
        }
    }
}

pub open spec fn increasing(v: Seq<int>) -> bool {
    forall|a: int, b: int| 0 <= a < b < v.len() ==> v[a] < v[b]
}

fn insert_position_exec(v: &mut Vec<usize>, x: usize)
    requires
        increasing(old(v)@.map_values(|p: usize| p as int)),
    ensures
        final(v)@.map_values(|p: usize| p as int) == insert_position(
            old(v)@.map_values(|p: usize| p as int),
            x as int,
        ),
        increasing(final(v)@.map_values(|p: usize| p as int)),
{
    let ghost vv = v@.map_values(|p: usize| p as int);
    let mut i: usize = 0;
    while i < v.len() && v[i] < x
        invariant
            i <= v.len(),
            vv == v@.map_values(|p: usize| p as int),
            forall|k: int| 0 <= k < i ==> #[trigger] vv[k] < x,
        decreases v.len() - i,
    {
        i += 1;
    }
    proof {
        lemma_insert_position_at(vv, x as int, i as int);
    }
    if i < v.len() && v[i] == x {
        return;
    }
    v.insert(i, x);
    let ghost nv = v@.map_values(|p: usize| p as int);
    assert(nv =~= vv.insert(i as int, x as int));
    assert forall|a: int, b: int| 0 <= a < b < nv.len() implies nv[a] < nv[b] by {
        if b < i {
        } else if a < i && b == i {
        } else if a < i {
            assert(nv[b] == vv[b - 1]);
        } else if a == i {
            assert(nv[b] == vv[b - 1]);
        } else {
            assert(nv[a] == vv[a - 1]);
            assert(nv[b] == vv[b - 1]);
        }
    }
}

/// The marker positions of `text` given the captures of the marker pattern.
fn marker_starts_exec(
    text: &Vec<char>,
    caps: &Vec<(Option<(usize, usize)>, Option<(usize, usize)>)>,
) -> (r: Vec<usize>)
    ensures
        r@.map_values(|p: usize| p as int) == marker_starts(text@, caps@),
        increasing(r@.map_values(|p: usize| p as int)),
{
    let mut r: Vec<usize> = Vec::new();
    let mut i: usize = 0;
    assert(caps@.take(0) =~= Seq::<(Option<(usize, usize)>, Option<(usize, usize)>)>::empty());
    while i < caps.len()
        invariant
            i <= caps.len(),
            r@.map_values(|p: usize| p as int) == marker_starts(text@, caps@.take(i as int)),
            increasing(r@.map_values(|p: usize| p as int)),
        decreases caps.len() - i,
    {
        assert(caps@.take(i + 1).drop_last() =~= caps@.take(i as int));
        assert(caps@.take(i + 1).last() == caps@[i as int]);
        match caps[i].1 {
            Some(g) => {
                if g.0 > 0 {
                    match char_index_at_byte(text, g.0) {
                        Some(c) => insert_position_exec(&mut r, c),
                        None => {},
                    }
                }
            },
            None => {},
        }
        i += 1;
    }
    assert(caps@.take(i as int) =~= caps@);
    r
}

/// The sections of `text` cut at the increasing positions `starts`.
fn sections_at_exec(text: &Vec<char>, starts: &Vec<usize>) -> (r: Vec<Vec<char>>)
    ensures
        vecs_view(r@) == sections_at(text@, starts@.map_values(|p: usize| p as int)),
{
    let ghost sv = starts@.map_values(|p: usize| p as int);
    if starts.len() == 0 {
        let mut r: Vec<Vec<char>> = Vec::new();
        let t = trim_chars(text);
        proof {
            lemma_map_push(r@, t, |x: Vec<char>| x@);
        }
        r.push(t);
        return r;
    }
    let mut out: Vec<Vec<char>> = Vec::new();
    let mut cursor: usize = 0;
    let mut i: usize = 0;
    assert(sv.take(0) =~= Seq::<int>::empty());
    while i < starts.len()
        invariant
            i <= starts.len(),
            sv == starts@.map_values(|p: usize| p as int),
            cursor <= text.len(),
            cut_sections(text@, sv.take(i as int)) == (vecs_view(out@), cursor as int),
        decreases starts.len() - i,
    {
        assert(sv.take(i + 1).drop_last() =~= sv.take(i as int));
        assert(sv.take(i + 1).last() == starts@[i as int] as int);
        let st = starts[i];
        if st <= cursor || st > text.len() {
        } else {
            let seg = trim_chars(&slice_chars(text, cursor, st));
            if seg.len() > 0 {
                proof {
                    lemma_map_push(out@, seg, |x: Vec<char>| x@);
                }
                out.push(seg);
            }
            cursor = st;
        }
        i += 1;
    }
    assert(sv.take(i as int) =~= sv);
    if cursor < text.len() {
        let tail = trim_chars(&slice_chars(text, cursor, text.len()));
        if tail.len() > 0 {
            proof {
                lemma_map_push(out@, tail, |x: Vec<char>| x@);
            }
            out.push(tail);
        }
    }
    if out.len() == 0 {
        let t = trim_chars(text);
        proof {
            lemma_map_push(out@, t, |x: Vec<char>| x@);
        }
        out.push(t);
    }
    out
}

/// Cuts `text` into sections before the short item numbers (`1、`, `2.`) it
/// holds past its start, so that each numbered item starts a line.
pub fn split_numbered_sections(text: &Vec<char>) -> (r: Vec<Vec<char>>)
    ensures
        vecs_view(r@) == numbered_sections(text@),
{
    let s = chars_to_string(text);
    let caps = match regex_captures_all(NUMBERED_MARKER_PATTERN, s.as_str()) {
        Some(c) => c,
        None => Vec::new(),
    };
    let starts = marker_starts_exec(text, &caps);
    sections_at_exec(text, &starts)
}

// ---------------------------------------------------------------- line shapes

/// What a line of the resume text is, with the texts the renderer wraps.
pub enum LineShape {
    Blank,
    /// A `# ` line: the title.
    Title(Vec<char>),
    /// A `## ` line: a section heading.
    Heading(Vec<char>),
    /// A `  - ` line: a nested item, cut into numbered sections.
    SubItem(Vec<Vec<char>>),
    /// A `- ` line: an item, cut into numbered sections.
    Item(Vec<Vec<char>>),
    /// Any other line, cut into numbered sections.
    Plain(Vec<Vec<char>>),
}

pub enum LineShapeV {
    Blank,
    Title(Seq<char>),
    Heading(Seq<char>),
    SubItem(Seq<Seq<char>>),
    Item(Seq<Seq<char>>),
    Plain(Seq<Seq<char>>),
}

impl View for LineShape {
    type V = LineShapeV;

    open spec fn view(&self) -> LineShapeV {
        match self {
            LineShape::Blank => LineShapeV::Blank,
            LineShape::Title(t) => LineShapeV::Title(t@),
            LineShape::Heading(t) => LineShapeV::Heading(t@),
            LineShape::SubItem(s) => LineShapeV::SubItem(vecs_view(s@)),
            LineShape::Item(s) => LineShapeV::Item(vecs_view(s@)),
            LineShape::Plain(s) => LineShapeV::Plain(vecs_view(s@)),
        }
    }
}

/// The shape of one (preprocessed) line.
pub open spec fn line_shape(raw: Seq<char>) -> LineShapeV {
    let line = trim_end(raw);
    if trim(line).len() == 0 {
        LineShapeV::Blank
    } else if starts_with(line, seq!['#', ' ']) {
        LineShapeV::Title(trim(line.skip(2)))
    } else if starts_with(line, seq!['#', '#', ' ']) {
        LineShapeV::Heading(trim(line.skip(3)))
    } else if starts_with(line, seq![' ', ' ', '-', ' ']) {
        LineShapeV::SubItem(numbered_sections(line.skip(4)))
    } else if starts_with(line, seq!['-', ' ']) {
        LineShapeV::Item(numbered_sections(line.skip(2)))
    } else {
        LineShapeV::Plain(numbered_sections(line))
    }
}

/// The shapes of the lines of a resume text, after time ranges are pulled up.
pub open spec fn line_shapes(content: Seq<char>) -> Seq<LineShapeV> {
    time_tail_joined(lines_of(content)).map_values(|l: Seq<char>| line_shape(l))
}

fn prefix_chars(a: char, b: char, c: char, d: char, n: usize) -> (r: Vec<char>)
    requires
        1 <= n <= 4,
    ensures
        r@ == seq![a, b, c, d].take(n as int),
{
    let mut v: Vec<char> = Vec::new();
    v.push(a);
    if n > 1 {
        v.push(b);
    }
    if n > 2 {
        v.push(c);
    }
    if n > 3 {
        v.push(d);
    }
    assert(v@ =~= seq![a, b, c, d].take(n as int));
    v
}

fn line_shape_exec(raw: &Vec<char>) -> (r: LineShape)
    ensures
        r@ == line_shape(raw@),
{
    let line = trim_end_chars(raw);
    if trim_chars(&line).len() == 0 {
        return LineShape::Blank;
    }
    let title = prefix_chars('#', ' ', ' ', ' ', 2);
    let heading = prefix_chars('#', '#', ' ', ' ', 3);
    let sub = prefix_chars(' ', ' ', '-', ' ', 4);
    let item = prefix_chars('-', ' ', ' ', ' ', 2);
    assert(title@ =~= seq!['#', ' ']);
    assert(heading@ =~= seq!['#', '#', ' ']);
    assert(sub@ =~= seq![' ', ' ', '-', ' ']);
    assert(item@ =~= seq!['-', ' ']);
    if starts_with_chars(&line, &title) {
        let rest = slice_chars(&line, 2, line.len());
        assert(rest@ =~= line@.skip(2));
        LineShape::Title(trim_chars(&rest))
    } else if starts_with_chars(&line, &heading) {
        let rest = slice_chars(&line, 3, line.len());
        assert(rest@ =~= line@.skip(3));
        LineShape::Heading(trim_chars(&rest))
    } else if starts_with_chars(&line, &sub) {
        let rest = slice_chars(&line, 4, line.len());
        assert(rest@ =~= line@.skip(4));
        LineShape::SubItem(split_numbered_sections(&rest))
    } else if starts_with_chars(&line, &item) {
        let rest = slice_chars(&line, 2, line.len());
        assert(rest@ =~= line@.skip(2));
        LineShape::Item(split_numbered_sections(&rest))
    } else {
        LineShape::Plain(split_numbered_sections(&line))
    }
}

/// The shapes of the lines of a plain-text resume, in order: what the PDF
/// renderer lays out line by line.
pub fn parse_lines(content: &str) -> (r: Vec<LineShape>)
    ensures
        r@.map_values(|s: LineShape| s@) == line_shapes(content@),
{
    let lines = str_lines(&str_chars(content));
    let pre = preprocess_lines_for_time_tail(&lines);
    let ghost pv = vecs_view(pre@);
    let mut r: Vec<LineShape> = Vec::new();
    let mut i: usize = 0;
    while i < pre.len()
        invariant
            i <= pre.len(),
            pv == vecs_view(pre@),
            r@.map_values(|s: LineShape| s@) == pv.take(i as int).map_values(
                |l: Seq<char>| line_shape(l),
            ),
        decreases pre.len() - i,
    {
        let s = line_shape_exec(&pre[i]);
        proof {
            lemma_map_push(r@, s, |s: LineShape| s@);
            lemma_map_push(pv.take(i as int), pv[i as int], |l: Seq<char>| line_shape(l));
            assert(pv.take(i + 1) =~= pv.take(i as int).push(pv[i as int]));
        }
        r.push(s);
        i += 1;
    }
    assert(pv.take(i as int) =~= pv);
    r
}

proof fn lemma_cut_sections_trimmed(text: Seq<char>, starts: Seq<int>)
    ensures
        forall|k: int|
            0 <= k < cut_sections(text, starts).0.len() ==> #[trigger] trim(
                cut_sections(text, starts).0[k],
            ) == cut_sections(text, starts).0[k] && cut_sections(text, starts).0[k].len() > 0,
    decreases starts.len(),
{
    if starts.len() > 0 {
        lemma_cut_sections_trimmed(text, starts.drop_last());
        let (out, cur) = cut_sections(text, starts.drop_last());
        let st = starts.last();
        if !(st <= cur || st > text.len()) {
            lemma_trim_idempotent(text.subrange(cur, st));
        }
    }
}

/// Cutting a text into numbered sections always gives at least one section,
/// and every section is trimmed; when there is more than one, none is empty.
pub proof fn law_numbered_sections_trimmed(text: Seq<char>)
    ensures
        numbered_sections(text).len() >= 1,
        forall|k: int|
            0 <= k < numbered_sections(text).len() ==> #[trigger] trim(numbered_sections(text)[k])
                == numbered_sections(text)[k],
        numbered_sections(text).len() > 1 ==> forall|k: int|
            0 <= k < numbered_sections(text).len() ==> (#[trigger] numbered_sections(text)[k]).len()
                > 0,
{
    let caps = match regex_capture_spans(NUMBERED_MARKER_PATTERN@, text) {
        Some(c) => c,
        None => Seq::empty(),
    };
    let starts = marker_starts(text, caps);
    lemma_trim_idempotent(text);
    if starts.len() > 0 {
        lemma_cut_sections_trimmed(text, starts);
        let (out, cur) = cut_sections(text, starts);
        lemma_trim_idempotent(text.subrange(cur, text.len() as int));
        let tail = trim(text.subrange(cur, text.len() as int));
        let all = if cur < text.len() && tail.len() > 0 {
            out.push(tail)
        } else {
            out
        };
        assert forall|k: int| 0 <= k < all.len() implies (#[trigger] all[k]).len() > 0 && trim(
            all[k],
        ) == all[k] by {
            if k < out.len() {
                assert(out == cut_sections(text, starts).0);
                assert(trim(cut_sections(text, starts).0[k]) == cut_sections(text, starts).0[k]);
                assert(all[k] == out[k]);
            }
        }
    }
}

// ---------------------------------------------------------------- a trailing time range

/// How a `company / position / time` line is fitted to the page: kept whole
/// (the trimmed text), wrapped as it is, or wrapped without its trailing
/// time range, which is then appended to the last wrapped line.
pub enum TimeTailPlan {
    Whole(String),
    Wrap,
    Tail(String, String),
}

pub enum TimeTailPlanV {
    Whole(Seq<char>),
    Wrap,
    Tail(Seq<char>, Seq<char>),
}

impl View for TimeTailPlan {
    type V = TimeTailPlanV;

    open spec fn view(&self) -> TimeTailPlanV {
        match self {
            TimeTailPlan::Whole(t) => TimeTailPlanV::Whole(t@),
            TimeTailPlan::Wrap => TimeTailPlanV::Wrap,
            TimeTailPlan::Tail(h, t) => TimeTailPlanV::Tail(h@, t@),
        }
    }
}

/// Full-width slashes made ASCII slashes.
pub open spec fn slash_normalized(s: Seq<char>) -> Seq<char> {
    s.map_values(|c: char| if c == '／' { '/' } else { c })
}

/// How often `c` occurs in `s`.
pub open spec fn char_count(s: Seq<char>, c: char) -> nat
    decreases s.len(),
{
    if s.len() == 0 {
        0
    } else {
        char_count(s.drop_last(), c) + if s.last() == c {
            1nat
        } else {
            0nat
        }
    }
}

/// The time-range pattern matches somewhere in `s`, untrimmed.
pub open spec fn time_range_in(s: Seq<char>) -> bool {
    match regex_find_spans(TIME_RANGE_PATTERN@, s) {
        Some(ms) => ms.len() > 0,
        None => false,
    }
}

/// The plan for a line: with two slashes and `至今` or a time range it is kept
/// whole; with at least three slash-separated parts and a last part that is a
/// time range, that part is kept apart as ` / time`, the other parts joined
/// with ` / `; otherwise the line is wrapped as it is.
pub open spec fn time_tail_plan(text: Seq<char>) -> TimeTailPlanV {
    let n = slash_normalized(text);
    if char_count(n, '/') >= 2 && (contains_seq(n, "至今"@) || time_range_in(n)) {
        TimeTailPlanV::Whole(trim(text))
    } else {
        let parts = split_on(n, '/').map_values(|p: Seq<char>| trim(p));
        if parts.len() < 3 || !text.contains('/') {
            TimeTailPlanV::Wrap
        } else {
            let tail = trim(parts.last());
            if !looks_like_time_range(tail) {
                TimeTailPlanV::Wrap
            } else {
                TimeTailPlanV::Tail(join_with(parts.drop_last(), " / "@), " / "@ + tail)
            }
        }
    }
}

fn slash_normalized_exec(t: &Vec<char>) -> (r: Vec<char>)
    ensures
        r@ == slash_normalized(t@),
{
    let mut out: Vec<char> = Vec::new();
    let mut i: usize = 0;
    assert(t@.take(0).map_values(|c: char| if c == '／' { '/' } else { c }) =~= out@);
    while i < t.len()
        invariant
            i <= t.len(),
            out@ == t@.take(i as int).map_values(|c: char| if c == '／' { '/' } else { c }),
        decreases t.len() - i,
    {
        let c = t[i];
        let d = if c == '／' {
            '/'
        } else {
            c
        };
        proof {
            assert(t@.take(i + 1) =~= t@.take(i as int).push(c));
            lemma_map_push(t@.take(i as int), c, |c: char| if c == '／' { '/' } else { c });
        }
        out.push(d);
        i += 1;
    }
    assert(t@.take(i as int) =~= t@);
    out
}

fn char_count_exec(s: &Vec<char>, c: char) -> (r: usize)
    ensures
        r == char_count(s@, c),
{
    let mut n: usize = 0;
    let mut i: usize = 0;
    assert(s@.take(0) =~= Seq::<char>::empty());
    while i < s.len()
        invariant
            i <= s.len(),
            n <= i,
            n == char_count(s@.take(i as int), c),
        decreases s.len() - i,
    {
        assert(s@.take(i + 1).drop_last() =~= s@.take(i as int));
        if s[i] == c {
            n += 1;
        }
        i += 1;
    }
    assert(s@.take(i as int) =~= s@);
    n
}

fn has_char(s: &Vec<char>, c: char) -> (r: bool)
    ensures
        r == s@.contains(c),
{
    let mut i: usize = 0;
    while i < s.len()
        invariant
            i <= s.len(),
            forall|k: int| 0 <= k < i ==> s@[k] != c,
        decreases s.len() - i,
    {
        if s[i] == c {
            assert(s@[i as int] == c);
            return true;
        }
        i += 1;
    }
    false
}

/// Decides how a line that may end in a time range is fitted to the page, as
/// `time_tail_plan` states it.
pub fn trailing_time_plan(text: &str) -> (r: TimeTailPlan)
    ensures
        r@ == time_tail_plan(text@),
{
    let t = str_chars(text);
    let n = slash_normalized_exec(&t);
    let slashes = char_count_exec(&n, '/');
    if slashes >= 2 {
        let in_progress = contains_chars(&n, &str_chars("至今"));
        let ranged = match regex_find_all(TIME_RANGE_PATTERN, chars_to_string(&n).as_str()) {
            Some(ms) => ms.len() > 0,
            None => false,
        };
        if in_progress || ranged {
            return TimeTailPlan::Whole(chars_to_string(&trim_chars(&t)));
        }
    }
    let pieces = split_on_char(&n, '/');
    let ghost pv = vecs_view(pieces@);
    let mut parts: Vec<Vec<char>> = Vec::new();
    let mut i: usize = 0;
    while i < pieces.len()
        invariant
            i <= pieces.len(),
            pv == vecs_view(pieces@),
            vecs_view(parts@) == pv.take(i as int).map_values(|p: Seq<char>| trim(p)),
        decreases pieces.len() - i,
    {
        let ghost before = vecs_view(parts@);
        let p = trim_chars(&pieces[i]);
        parts.push(p);
        proof {
            assert(pv.take(i + 1) =~= pv.take(i as int).push(pv[i as int]));
            lemma_map_push(pv.take(i as int), pv[i as int], |p: Seq<char>| trim(p));
            assert(vecs_view(parts@) =~= before.push(trim(pv[i as int])));
        }
        i += 1;
    }
    assert(pv.take(i as int) =~= pv);
    if parts.len() < 3 || !has_char(&t, '/') {
        return TimeTailPlan::Wrap;
    }
    let ghost partsv = vecs_view(parts@);
    let last = parts.len() - 1;
    let tail = trim_chars(&parts[last]);
    if !looks_like_time_range_exec(&tail) {
        return TimeTailPlan::Wrap;
    }
    let mut init = parts;
    let _ = init.pop();
    assert(vecs_view(init@) =~= partsv.drop_last());
    let head = join_chars(&init, &str_chars(" / "));
    let mut tail_text = str_chars(" / ");
    append_chars(&mut tail_text, &tail);
    TimeTailPlan::Tail(chars_to_string(&head), chars_to_string(&tail_text))
}

} // verus!
