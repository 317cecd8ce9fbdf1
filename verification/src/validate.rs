//! Normalization of a parsed resume: trimmed fields, merged work entries of one
//! company, reindexed entries, cleaned names and ages, and skills completed
//! from the work and project texts.

use crate::numbers::{
    all_digits, decimal, digits_value, parse_i32, parse_i32_chars, parse_usize, parse_usize_chars,
    usize_decimal,
};
use crate::privacy_mask::{is_name_cjk, name_cjk};
use crate::jd::{push_text, push_texts, to_strings};
use crate::reindex::{
    indexed, indexed_keys, indexed_normalized, keyed_by_position, law_indexed_normalized_keys, law_renumbered_keys,
    lemma_indexed_keys, lemma_renumbered_keyed, keyed_view, keys_ascending, lookup, normalize_indexed_map, numbered_view, position_key,
    renumber, renumbered, sort_by_index, sort_entries,
};
use crate::schema::{
    strings_view, BasicInfo, BasicInfoV, EducationItem, EducationItemV, ProjectItem, ProjectItemV,
    ResumeData, ResumeDataV, WorkItem, WorkItemV,
};
use crate::search::{regex_replace, regex_replaced};
use crate::text::{
    append_chars, ascii_alpha, ascii_digit, ascii_lower, chars_eq, chars_to_string, contains_chars,
    contains_seq, ends_with, ends_with_chars, find_from, first_match, is_ascii_alpha, is_ascii_digit,
    join_chars, join_with, lemma_contains_transitive, lemma_first_match, lemma_join_with_holds_parts,
    lemma_lower_contains, lemma_trim_end_len, lower, matches_at, replace_all,
    replace_chars, slice_chars, starts_with, starts_with_chars, str_chars, trim, trim_chars,
    trim_end, trim_end_chars, vecs_view,
};
use vstd::prelude::*;

verus! {

// ---------------------------------------------------------------- splitting

/// The pieces of `s[cur..]` between non-overlapping occurrences of `p`, scanned
/// from the left: what `str::split` with a string pattern yields.
pub open spec fn split_from(s: Seq<char>, p: Seq<char>, cur: int) -> Seq<Seq<char>>
    decreases s.len() - cur,
{
    if p.len() == 0 || cur < 0 || cur > s.len() {
        seq![s.subrange(cur, s.len() as int)]
    } else {
        match first_match(s, p, cur) {
            Some(i) => {
                proof {
                    lemma_first_match(s, p, cur);
                }
                seq![s.subrange(cur, i)] + split_from(s, p, i + p.len())
            },
            None => seq![s.subrange(cur, s.len() as int)],
        }
    }
}

/// `str::split` with the non-empty string pattern `p`.
pub open spec fn split_str(s: Seq<char>, p: Seq<char>) -> Seq<Seq<char>> {
    split_from(s, p, 0)
}

fn split_str_exec(s: &Vec<char>, p: &Vec<char>) -> (r: Vec<Vec<char>>)
    requires
        p.len() > 0,
    ensures
        vecs_view(r@) == split_str(s@, p@),
{
    let mut out: Vec<Vec<char>> = Vec::new();
    let mut cur: usize = 0;
    while cur <= s.len()
        invariant
            p.len() > 0,
            cur <= s.len(),
            vecs_view(out@) + split_from(s@, p@, cur as int) == split_str(s@, p@),
        decreases s.len() + 1 - cur,
    {
        let ghost before = vecs_view(out@);
        let found = find_from(s, p, cur);
        proof {
            lemma_first_match(s@, p@, cur as int);
        }
        match found {
            Some(i) => {
                let piece = crate::text::slice_chars(s, cur, i);
                out.push(piece);
                assert(vecs_view(out@) =~= before.push(s@.subrange(cur as int, i as int)));
                assert(vecs_view(out@) + split_from(s@, p@, (i + p.len()) as int) =~= before
                    + split_from(s@, p@, cur as int));
                cur = i + p.len();
            },
            None => {
                let piece = crate::text::slice_chars(s, cur, s.len());
                out.push(piece);
                assert(vecs_view(out@) =~= before + split_from(s@, p@, cur as int));
                return out;
            },
        }
    }
    out
}

// ---------------------------------------------------------------- merging text

/// The trimmed parts, empty ones dropped, each kept once at its first place.
pub open spec fn unique_trimmed(parts: Seq<Seq<char>>) -> Seq<Seq<char>>
    decreases parts.len(),
{
    if parts.len() == 0 {
        Seq::empty()
    } else {
        let r = unique_trimmed(parts.drop_last());
        let t = trim(parts.last());
        if t.len() == 0 || r.contains(t) {
            r
        } else {
            r.push(t)
        }
    }
}

/// Two texts of one field merged: trimmed; if either is empty or both are
/// equal, the other; else their `sep`-separated parts, each kept once, joined
/// with `sep`.
pub open spec fn merge_unique(existing: Seq<char>, incoming: Seq<char>, sep: Seq<char>) -> Seq<char> {
    let e = trim(existing);
    let n = trim(incoming);
    if e.len() == 0 {
        n
    } else if n.len() == 0 {
        e
    } else if e == n {
        e
    } else {
        join_with(unique_trimmed(split_str(e, sep) + split_str(n, sep)), sep)
    }
}

/// `v` holds an item equal to `x`.
fn holds(v: &Vec<Vec<char>>, x: &Vec<char>) -> (r: bool)
    ensures
        r == vecs_view(v@).contains(x@),
{
    let mut i: usize = 0;
    while i < v.len()
        invariant
            i <= v.len(),
            forall|k: int| 0 <= k < i ==> vecs_view(v@)[k] != x@,
        decreases v.len() - i,
    {
        if chars_eq(&v[i], x) {
            assert(vecs_view(v@)[i as int] == x@);
            return true;
        }
        i += 1;
    }
    false
}

fn unique_trimmed_exec(parts: &Vec<Vec<char>>) -> (r: Vec<Vec<char>>)
    ensures
        vecs_view(r@) == unique_trimmed(vecs_view(parts@)),
{
    let mut out: Vec<Vec<char>> = Vec::new();
    let mut i: usize = 0;
    assert(vecs_view(parts@).take(0) =~= Seq::<Seq<char>>::empty());
    while i < parts.len()
        invariant
            i <= parts.len(),
            vecs_view(out@) == unique_trimmed(vecs_view(parts@).take(i as int)),
        decreases parts.len() - i,
    {
        proof {
            assert(vecs_view(parts@).take(i + 1).drop_last() =~= vecs_view(parts@).take(i as int));
        }
        let t = trim_chars(&parts[i]);
        if t.len() > 0 && !holds(&out, &t) {
            let ghost before = vecs_view(out@);
            out.push(t);
            assert(vecs_view(out@) =~= before.push(vecs_view(out@).last()));
        }
        i += 1;
    }
    assert(vecs_view(parts@).take(parts.len() as int) =~= vecs_view(parts@));
    out
}

fn merge_unique_text(existing: &Vec<char>, incoming: &Vec<char>, sep: &Vec<char>) -> (r: Vec<char>)
    requires
        sep.len() > 0,
    ensures
        r@ == merge_unique(existing@, incoming@, sep@),
{
    let e = trim_chars(existing);
    let n = trim_chars(incoming);
    if e.len() == 0 {
        return n;
    }
    if n.len() == 0 {
        return e;
    }
    if chars_eq(&e, &n) {
        return e;
    }
    let mut parts = split_str_exec(&e, sep);
    let mut more = split_str_exec(&n, sep);
    let ghost a = vecs_view(parts@);
    let ghost b = vecs_view(more@);
    parts.append(&mut more);
    assert(vecs_view(parts@) =~= a + b);
    let u = unique_trimmed_exec(&parts);
    join_chars(&u, sep)
}

/// Two descriptions merged: if either is empty or holds the other, the larger;
/// else both, on two lines.
pub open spec fn merge_descriptions(a: Seq<char>, b: Seq<char>) -> Seq<char> {
    if a.len() == 0 {
        b
    } else if b.len() == 0 {
        a
    } else if contains_seq(a, b) {
        a
    } else if contains_seq(b, a) {
        b
    } else {
        a + seq!['\n'] + b
    }
}

fn merge_description(a: &Vec<char>, b: &Vec<char>) -> (r: Vec<char>)
    ensures
        r@ == merge_descriptions(a@, b@),
{
    if a.len() == 0 {
        return b.clone();
    }
    if b.len() == 0 {
        return a.clone();
    }
    if contains_chars(a, b) {
        return a.clone();
    }
    if contains_chars(b, a) {
        return b.clone();
    }
    let mut r = a.clone();
    r.push('\n');
    append_chars(&mut r, b);
    r
}

// ---------------------------------------------------------------- skills

/// `skills` holds `candidate`, comparing trimmed texts without ASCII case; an
/// empty candidate is never held.
pub open spec fn contains_skill(skills: Seq<Seq<char>>, candidate: Seq<char>) -> bool {
    let c = trim(candidate);
    c.len() > 0 && exists|i: int| 0 <= i < skills.len() && lower(trim(#[trigger] skills[i])) == lower(c)
}

fn contains_skill_exec(skills: &Vec<Vec<char>>, candidate: &Vec<char>) -> (r: bool)
    ensures
        r == contains_skill(vecs_view(skills@), candidate@),
{
    let c = trim_chars(candidate);
    if c.len() == 0 {
        return false;
    }
    let cl = ascii_lower(&c);
    let mut i: usize = 0;
    while i < skills.len()
        invariant
            i <= skills.len(),
            cl@ == lower(c@),
            c@ == trim(candidate@),
            c@.len() > 0,
            forall|k: int| 0 <= k < i ==> lower(trim(#[trigger] vecs_view(skills@)[k])) != lower(c@),
        decreases skills.len() - i,
    {
        let s = ascii_lower(&trim_chars(&skills[i]));
        if chars_eq(&s, &cl) {
            assert(lower(trim(vecs_view(skills@)[i as int])) == lower(c@));
            return true;
        }
        i += 1;
    }
    false
}

/// The skills trimmed, empty ones dropped, each kept once (ignoring ASCII
/// case) at its first place.
pub open spec fn dedup_skills(skills: Seq<Seq<char>>) -> Seq<Seq<char>>
    decreases skills.len(),
{
    if skills.len() == 0 {
        Seq::empty()
    } else {
        let r = dedup_skills(skills.drop_last());
        let s = trim(skills.last());
        if s.len() == 0 || contains_skill(r, s) {
            r
        } else {
            r.push(s)
        }
    }
}

fn dedup_skill_list(skills: &Vec<Vec<char>>) -> (r: Vec<Vec<char>>)
    ensures
        vecs_view(r@) == dedup_skills(vecs_view(skills@)),
{
    let mut out: Vec<Vec<char>> = Vec::new();
    let mut i: usize = 0;
    assert(vecs_view(skills@).take(0) =~= Seq::<Seq<char>>::empty());
    while i < skills.len()
        invariant
            i <= skills.len(),
            vecs_view(out@) == dedup_skills(vecs_view(skills@).take(i as int)),
        decreases skills.len() - i,
    {
        proof {
            assert(vecs_view(skills@).take(i + 1).drop_last() =~= vecs_view(skills@).take(i as int));
        }
        let s = trim_chars(&skills[i]);
        if s.len() > 0 && !contains_skill_exec(&out, &s) {
            let ghost before = vecs_view(out@);
            out.push(s);
            assert(vecs_view(out@) =~= before.push(vecs_view(out@).last()));
        }
        i += 1;
    }
    assert(vecs_view(skills@).take(skills.len() as int) =~= vecs_view(skills@));
    out
}

/// `[name]` when `found`, else nothing.
pub open spec fn skill_if(found: bool, name: Seq<char>) -> Seq<Seq<char>> {
    if found {
        seq![name]
    } else {
        Seq::empty()
    }
}

/// The alias, ASCII-lowercased, occurs in `t`.
pub open spec fn alias_in(t: Seq<char>, alias: Seq<char>) -> bool {
    contains_seq(t, lower(alias))
}

/// Dictionary entries one to five.
pub open spec fn inferred_a(t: Seq<char>) -> Seq<Seq<char>> {
    skill_if(alias_in(t, "java"@), "Java"@) + skill_if(
        alias_in(t, "golang"@) || alias_in(t, "go语言"@) || alias_in(t, "go 开发"@),
        "Golang"@,
    ) + skill_if(alias_in(t, "python"@), "Python"@) + skill_if(
        alias_in(t, "javascript"@),
        "JavaScript"@,
    ) + skill_if(alias_in(t, "typescript"@), "TypeScript"@)
}

/// Dictionary entries six to ten.
pub open spec fn inferred_b(t: Seq<char>) -> Seq<Seq<char>> {
    skill_if(alias_in(t, "vue"@), "Vue"@) + skill_if(alias_in(t, "react"@), "React"@) + skill_if(
        alias_in(t, "node.js"@) || alias_in(t, "nodejs"@),
        "Node.js"@,
    ) + skill_if(alias_in(t, "springboot"@) || alias_in(t, "spring boot"@), "SpringBoot"@)
        + skill_if(alias_in(t, "springcloud"@) || alias_in(t, "spring cloud"@), "SpringCloud"@)
}

/// Dictionary entries eleven to fifteen.
pub open spec fn inferred_c(t: Seq<char>) -> Seq<Seq<char>> {
    skill_if(alias_in(t, "mybatisplus"@) || alias_in(t, "mybatis-plus"@), "MyBatisPlus"@)
        + skill_if(alias_in(t, "mysql"@), "MySQL"@) + skill_if(alias_in(t, "redis"@), "Redis"@)
        + skill_if(alias_in(t, "kafka"@), "Kafka"@) + skill_if(
        alias_in(t, "elasticsearch"@),
        "Elasticsearch"@,
    )
}

/// Dictionary entries sixteen to twenty.
pub open spec fn inferred_d(t: Seq<char>) -> Seq<Seq<char>> {
    skill_if(alias_in(t, "docker"@), "Docker"@) + skill_if(
        alias_in(t, "k8s"@) || alias_in(t, "kubernetes"@),
        "K8S"@,
    ) + skill_if(alias_in(t, "netty"@), "Netty"@) + skill_if(
        alias_in(t, "c#"@) || alias_in(t, "csharp"@) || alias_in(t, ".net"@),
        "C#"@,
    ) + skill_if(alias_in(t, "c++"@), "C++"@)
}

/// The skills named by their aliases in a lowercase text, in dictionary order.
pub open spec fn inferred_skills(t: Seq<char>) -> Seq<Seq<char>> {
    inferred_a(t) + inferred_b(t) + inferred_c(t) + inferred_d(t)
}

fn alias_found(t: &Vec<char>, alias: &str) -> (r: bool)
    ensures
        r == alias_in(t@, alias@),
{
    let a = ascii_lower(&str_chars(alias));
    contains_chars(t, &a)
}

fn push_skill_if(out: &mut Vec<Vec<char>>, found: bool, name: &str)
    ensures
        vecs_view(final(out)@) == vecs_view(old(out)@) + skill_if(found, name@),
{
    let ghost before = vecs_view(out@);
    if found {
        out.push(str_chars(name));
        assert(vecs_view(out@) =~= before + seq![name@]);
    } else {
        assert(vecs_view(out@) =~= before + Seq::<Seq<char>>::empty());
    }
}

fn push_inferred_a(out: &mut Vec<Vec<char>>, t: &Vec<char>)
    ensures
        vecs_view(final(out)@) == vecs_view(old(out)@) + inferred_a(t@),
{
    let ghost s0 = vecs_view(out@);
    push_skill_if(out, alias_found(t, "java"), "Java");
    let b = alias_found(t, "golang") || alias_found(t, "go语言") || alias_found(t, "go 开发");
    push_skill_if(out, b, "Golang");
    push_skill_if(out, alias_found(t, "python"), "Python");
    push_skill_if(out, alias_found(t, "javascript"), "JavaScript");
    push_skill_if(out, alias_found(t, "typescript"), "TypeScript");
    assert(vecs_view(out@) =~= s0 + inferred_a(t@));
}

fn push_inferred_b(out: &mut Vec<Vec<char>>, t: &Vec<char>)
    ensures
        vecs_view(final(out)@) == vecs_view(old(out)@) + inferred_b(t@),
{
    let ghost s0 = vecs_view(out@);
    push_skill_if(out, alias_found(t, "vue"), "Vue");
    push_skill_if(out, alias_found(t, "react"), "React");
    let b = alias_found(t, "node.js") || alias_found(t, "nodejs");
    push_skill_if(out, b, "Node.js");
    let b = alias_found(t, "springboot") || alias_found(t, "spring boot");
    push_skill_if(out, b, "SpringBoot");
    let b = alias_found(t, "springcloud") || alias_found(t, "spring cloud");
    push_skill_if(out, b, "SpringCloud");
    assert(vecs_view(out@) =~= s0 + inferred_b(t@));
}

fn push_inferred_c(out: &mut Vec<Vec<char>>, t: &Vec<char>)
    ensures
        vecs_view(final(out)@) == vecs_view(old(out)@) + inferred_c(t@),
{
    let ghost s0 = vecs_view(out@);
    let b = alias_found(t, "mybatisplus") || alias_found(t, "mybatis-plus");
    push_skill_if(out, b, "MyBatisPlus");
    push_skill_if(out, alias_found(t, "mysql"), "MySQL");
    push_skill_if(out, alias_found(t, "redis"), "Redis");
    push_skill_if(out, alias_found(t, "kafka"), "Kafka");
    push_skill_if(out, alias_found(t, "elasticsearch"), "Elasticsearch");
    assert(vecs_view(out@) =~= s0 + inferred_c(t@));
}

fn push_inferred_d(out: &mut Vec<Vec<char>>, t: &Vec<char>)
    ensures
        vecs_view(final(out)@) == vecs_view(old(out)@) + inferred_d(t@),
{
    let ghost s0 = vecs_view(out@);
    push_skill_if(out, alias_found(t, "docker"), "Docker");
    let b = alias_found(t, "k8s") || alias_found(t, "kubernetes");
    push_skill_if(out, b, "K8S");
    push_skill_if(out, alias_found(t, "netty"), "Netty");
    let b = alias_found(t, "c#") || alias_found(t, "csharp") || alias_found(t, ".net");
    push_skill_if(out, b, "C#");
    push_skill_if(out, alias_found(t, "c++"), "C++");
    assert(vecs_view(out@) =~= s0 + inferred_d(t@));
}

fn infer_skills_from_text(t: &Vec<char>) -> (r: Vec<Vec<char>>)
    ensures
        vecs_view(r@) == inferred_skills(t@),
{
    let mut out: Vec<Vec<char>> = Vec::new();
    push_inferred_a(&mut out, t);
    push_inferred_b(&mut out, t);
    push_inferred_c(&mut out, t);
    push_inferred_d(&mut out, t);
    assert(vecs_view(out@) =~= inferred_skills(t@));
    out
}

// ---------------------------------------------------------------- periods

/// Runs of white space.
pub const WS_RUN_PATTERN: &'static str = r"\s+";

/// A bare duration at the end of a period, such as `8 个月` or `2年3个月`.
pub const DURATION_PATTERN: &'static str = r"\s*(\d+\s*年(\s*\d+\s*个?月)?|\d+\s*个?月(\s*\d+\s*天)?)\s*$";

/// A privacy placeholder with four digits.
pub const PLACEHOLDER_PATTERN: &'static str = r"__RM_PRIV_\d{4}__";

/// `s` cut before the first `c`, then trimmed; `s` itself when `c` does not occur.
pub open spec fn cut_before(s: Seq<char>, c: char) -> Seq<char> {
    match first_match(s, seq![c], 0) {
        Some(i) => trim(s.subrange(0, i)),
        None => s,
    }
}

fn cut_before_exec(s: &Vec<char>, c: char) -> (r: Vec<char>)
    ensures
        r@ == cut_before(s@, c),
{
    let mut p: Vec<char> = Vec::new();
    p.push(c);
    assert(p@ =~= seq![c]);
    let found = find_from(s, &p, 0);
    proof {
        lemma_first_match(s@, p@, 0);
    }
    match found {
        Some(i) => trim_chars(&slice_chars(s, 0, i)),
        None => s.clone(),
    }
}

/// A work period cleaned: trimmed, no-break spaces made spaces, anything from
/// an opening parenthesis on dropped, white space runs made one space, and a
/// bare duration at the end dropped.
pub open spec fn period_normalized(raw: Seq<char>) -> Seq<char> {
    let s0 = replace_all(trim(raw), seq!['\u{A0}'], seq![' ']);
    let s1 = cut_before(cut_before(s0, '（'), '(');
    let s2 = match regex_replaced(WS_RUN_PATTERN@, s1, seq![' '], false) {
        Some(x) => x,
        None => s1,
    };
    match regex_replaced(DURATION_PATTERN@, s2, Seq::empty(), true) {
        Some(x) => trim(x),
        None => s2,
    }
}

fn normalize_period(raw: &Vec<char>) -> (r: Vec<char>)
    ensures
        r@ == period_normalized(raw@),
{
    let mut nbsp: Vec<char> = Vec::new();
    nbsp.push('\u{A0}');
    let mut sp: Vec<char> = Vec::new();
    sp.push(' ');
    assert(nbsp@ =~= seq!['\u{A0}']);
    assert(sp@ =~= seq![' ']);
    let s0 = replace_chars(&trim_chars(raw), &nbsp, &sp);
    let s1 = cut_before_exec(&cut_before_exec(&s0, '（'), '(');
    let s2 = match regex_replace(WS_RUN_PATTERN, &s1, &sp, false) {
        Some(x) => x,
        None => s1,
    };
    let empty: Vec<char> = Vec::new();
    assert(empty@ =~= Seq::<char>::empty());
    match regex_replace(DURATION_PATTERN, &s2, &empty, true) {
        Some(x) => trim_chars(&x),
        None => s2,
    }
}

/// A name with leftover placeholders removed; empty when nothing else is left
/// or when it starts like a placeholder.
pub open spec fn placeholders_stripped(raw: Seq<char>) -> Seq<char> {
    let s = trim(raw);
    if s.len() == 0 {
        Seq::empty()
    } else {
        match regex_replaced(PLACEHOLDER_PATTERN@, s, Seq::empty(), false) {
            Some(c) if trim(c).len() > 0 => trim(c),
            _ => if starts_with(s, "__RM_PRIV_"@) {
                Seq::empty()
            } else {
                s
            },
        }
    }
}

fn strip_remaining_priv_placeholders(raw: &Vec<char>) -> (r: Vec<char>)
    ensures
        r@ == placeholders_stripped(raw@),
{
    let s = trim_chars(raw);
    if s.len() == 0 {
        return Vec::new();
    }
    let empty: Vec<char> = Vec::new();
    assert(empty@ =~= Seq::<char>::empty());
    match regex_replace(PLACEHOLDER_PATTERN, &s, &empty, false) {
        Some(c) => {
            let t = trim_chars(&c);
            if t.len() > 0 {
                return t;
            }
        },
        None => {},
    }
    let prefix = str_chars("__RM_PRIV_");
    if starts_with_chars(&s, &prefix) {
        Vec::new()
    } else {
        s
    }
}

// ---------------------------------------------------------------- names

/// Employment-status words that get glued to names.
pub open spec fn status_word(k: int) -> Seq<char> {
    if k == 0 {
        "在职"@
    } else if k == 1 {
        "离职"@
    } else if k == 2 {
        "待业"@
    } else if k == 3 {
        "应届"@
    } else if k == 4 {
        "已离职"@
    } else {
        "找工作"@
    }
}

fn status_word_exec(k: usize) -> (r: &'static str)
    requires
        k < 6,
    ensures
        r@ == status_word(k as int),
{
    if k == 0 {
        "在职"
    } else if k == 1 {
        "离职"
    } else if k == 2 {
        "待业"
    } else if k == 3 {
        "应届"
    } else if k == 4 {
        "已离职"
    } else {
        "找工作"
    }
}

/// `s` cut before the first occurrence of `q`; `s` itself when `q` does not occur.
pub open spec fn cut_at(s: Seq<char>, q: Seq<char>) -> Seq<char> {
    match first_match(s, q, 0) {
        Some(i) => s.subrange(0, i),
        None => s,
    }
}

fn cut_at_exec(s: &Vec<char>, q: &Vec<char>) -> (r: Vec<char>)
    ensures
        r@ == cut_at(s@, q@),
{
    let found = find_from(s, q, 0);
    proof {
        lemma_first_match(s@, q@, 0);
    }
    match found {
        Some(i) => slice_chars(s, 0, i),
        None => s.clone(),
    }
}

/// One status word removed from a name: wrapped in brackets anywhere; from a
/// separator before it to the end; glued to the end.
pub open spec fn status_step(s: Seq<char>, p: Seq<char>) -> Seq<char> {
    let e = Seq::<char>::empty();
    let a = replace_all(
        replace_all(
            replace_all(replace_all(s, "（"@ + p + "）"@, e), "("@ + p + ")"@, e),
            "【"@ + p + "】"@,
            e,
        ),
        "["@ + p + "]"@,
        e,
    );
    let b = cut_at(
        cut_at(
            cut_at(
                cut_at(cut_at(cut_at(a, " - "@ + p), " · "@ + p), " | "@ + p),
                "，"@ + p,
            ),
            ","@ + p,
        ),
        " "@ + p,
    );
    if ends_with(b, p) && b != p {
        trim_end(b.subrange(0, b.len() - p.len()))
    } else {
        b
    }
}

/// The status words removed from a name, one after another.
pub open spec fn strip_status(s: Seq<char>) -> Seq<char> {
    status_step(
        status_step(
            status_step(
                status_step(status_step(status_step(s, status_word(0)), status_word(1)), status_word(2)),
                status_word(3),
            ),
            status_word(4),
        ),
        status_word(5),
    )
}

fn wrapped(l: &str, p: &Vec<char>, r: &str) -> (w: Vec<char>)
    ensures
        w@ == l@ + p@ + r@,
{
    let mut w = str_chars(l);
    append_chars(&mut w, p);
    let rc = str_chars(r);
    append_chars(&mut w, &rc);
    w
}

fn status_step_exec(s: &Vec<char>, p: &Vec<char>) -> (r: Vec<char>)
    ensures
        r@ == status_step(s@, p@),
{
    let e: Vec<char> = Vec::new();
    assert(e@ =~= Seq::<char>::empty());
    let a = replace_chars(s, &wrapped("（", p, "）"), &e);
    let a = replace_chars(&a, &wrapped("(", p, ")"), &e);
    let a = replace_chars(&a, &wrapped("【", p, "】"), &e);
    let a = replace_chars(&a, &wrapped("[", p, "]"), &e);
    let b = cut_at_exec(&a, &wrapped(" - ", p, ""));
    let b = cut_at_exec(&b, &wrapped(" · ", p, ""));
    let b = cut_at_exec(&b, &wrapped(" | ", p, ""));
    let b = cut_at_exec(&b, &wrapped("，", p, ""));
    let b = cut_at_exec(&b, &wrapped(",", p, ""));
    let b = cut_at_exec(&b, &wrapped(" ", p, ""));
    proof {
        reveal_strlit("");
        assert(" - "@ + p@ + ""@ =~= " - "@ + p@);
        assert(" · "@ + p@ + ""@ =~= " · "@ + p@);
        assert(" | "@ + p@ + ""@ =~= " | "@ + p@);
        assert("，"@ + p@ + ""@ =~= "，"@ + p@);
        assert(","@ + p@ + ""@ =~= ","@ + p@);
        assert(" "@ + p@ + ""@ =~= " "@ + p@);
    }
    if ends_with_chars(&b, p) && !chars_eq(&b, p) {
        trim_end_chars(&slice_chars(&b, 0, b.len() - p.len()))
    } else {
        b
    }
}

fn strip_status_exec(s: &Vec<char>) -> (r: Vec<char>)
    ensures
        r@ == strip_status(s@),
{
    let mut cur = s.clone();
    assert(cur@ == s@);
    let mut k: usize = 0;
    while k < 6
        invariant
            k <= 6,
            k == 0 ==> cur@ == s@,
            k == 1 ==> cur@ == status_step(s@, status_word(0)),
            k == 2 ==> cur@ == status_step(status_step(s@, status_word(0)), status_word(1)),
            k == 3 ==> cur@ == status_step(
                status_step(status_step(s@, status_word(0)), status_word(1)),
                status_word(2),
            ),
            k == 4 ==> cur@ == status_step(
                status_step(
                    status_step(status_step(s@, status_word(0)), status_word(1)),
                    status_word(2),
                ),
                status_word(3),
            ),
            k == 5 ==> cur@ == status_step(
                status_step(
                    status_step(
                        status_step(status_step(s@, status_word(0)), status_word(1)),
                        status_word(2),
                    ),
                    status_word(3),
                ),
                status_word(4),
            ),
            k == 6 ==> cur@ == strip_status(s@),
        decreases 6 - k,
    {
        let p = str_chars(status_word_exec(k));
        cur = status_step_exec(&cur, &p);
        k += 1;
    }
    cur
}

/// Chars counted as phone-number material in a name.
pub open spec fn is_phoneish(c: char) -> bool {
    is_ascii_digit(c) || c == '-' || c == ' ' || c == '(' || c == ')'
}

pub open spec fn count_phoneish(s: Seq<char>) -> nat
    decreases s.len(),
{
    if s.len() == 0 {
        0
    } else {
        count_phoneish(s.drop_last()) + if is_phoneish(s.last()) {
            1nat
        } else {
            0nat
        }
    }
}

pub open spec fn count_ascii(s: Seq<char>) -> nat
    decreases s.len(),
{
    if s.len() == 0 {
        0
    } else {
        count_ascii(s.drop_last()) + if (s.last() as u32) < 128 {
            1nat
        } else {
            0nat
        }
    }
}

pub open spec fn count_alpha(s: Seq<char>) -> nat
    decreases s.len(),
{
    if s.len() == 0 {
        0
    } else {
        count_alpha(s.drop_last()) + if is_ascii_alpha(s.last()) {
            1nat
        } else {
            0nat
        }
    }
}

pub open spec fn has_upper(s: Seq<char>) -> bool {
    exists|i: int| 0 <= i < s.len() && 'A' <= #[trigger] s[i] && s[i] <= 'Z'
}

pub open spec fn has_name_cjk(s: Seq<char>) -> bool {
    exists|i: int| 0 <= i < s.len() && is_name_cjk(#[trigger] s[i])
}

/// The three counts and the two flags of a name, in one pass.
fn name_counts(s: &Vec<char>) -> (r: (usize, usize, usize, bool, bool))
    ensures
        r.0 == count_phoneish(s@),
        r.1 == count_ascii(s@),
        r.2 == count_alpha(s@),
        r.3 == has_upper(s@),
        r.4 == has_name_cjk(s@),
        r.0 <= s.len(),
        r.1 <= s.len(),
        r.2 <= s.len(),
{
    let mut ph: usize = 0;
    let mut asc: usize = 0;
    let mut al: usize = 0;
    let mut up = false;
    let mut cj = false;
    let mut i: usize = 0;
    assert(s@.take(0) =~= Seq::<char>::empty());
    while i < s.len()
        invariant
            i <= s.len(),
            ph == count_phoneish(s@.take(i as int)),
            asc == count_ascii(s@.take(i as int)),
            al == count_alpha(s@.take(i as int)),
            ph <= i && asc <= i && al <= i,
            up == exists|j: int| 0 <= j < i && 'A' <= #[trigger] s@[j] && s@[j] <= 'Z',
            cj == exists|j: int| 0 <= j < i && is_name_cjk(#[trigger] s@[j]),
        decreases s.len() - i,
    {
        let c = s[i];
        assert(s@.take(i + 1).drop_last() =~= s@.take(i as int));
        assert(s@.take(i + 1).last() == c);
        if ascii_digit(c) || c == '-' || c == ' ' || c == '(' || c == ')' {
            ph += 1;
        }
        if (c as u32) < 128 {
            asc += 1;
        }
        if ascii_alpha(c) {
            al += 1;
        }
        if 'A' <= c && c <= 'Z' {
            up = true;
        }
        if name_cjk(c) {
            cj = true;
        }
        i += 1;
    }
    assert(s@.take(s.len() as int) =~= s@);
    (ph, asc, al, up, cj)
}

/// Mostly ASCII, no CJK name char, and few letters or no capital: not a name.
pub open spec fn garbled_ascii(t: Seq<char>) -> bool {
    let n = if t.len() == 0 {
        1
    } else {
        t.len()
    };
    10 * count_ascii(t) > 9 * n && !has_name_cjk(t) && (2 * count_alpha(t) < n || !has_upper(t))
}

/// The trailing words dropped from a name, in the order they are tried.
pub open spec fn name_suffix(k: int) -> Seq<char> {
    if k == 0 {
        " 性别"@
    } else if k == 1 {
        "性别"@
    } else if k == 2 {
        " Sex"@
    } else if k == 3 {
        " Gender"@
    } else if k == 4 {
        " 男"@
    } else if k == 5 {
        " 女"@
    } else if k == 6 {
        " Male"@
    } else if k == 7 {
        " Female"@
    } else if k == 8 {
        " 年龄"@
    } else if k == 9 {
        " 年纪"@
    } else if k == 10 {
        " 姓名"@
    } else if k == 11 {
        " 名字"@
    } else if k == 12 {
        " Name"@
    } else if k == 13 {
        " 电话"@
    } else if k == 14 {
        " 手机"@
    } else if k == 15 {
        " 联系方式"@
    } else if k == 16 {
        " 邮箱"@
    } else if k == 17 {
        " 先生"@
    } else if k == 18 {
        " 女士"@
    } else if k == 19 {
        " 小姐"@
    } else if k == 20 {
        " 评价"@
    } else if k == 21 {
        " 备注"@
    } else if k == 22 {
        " 说明"@
    } else if k == 23 {
        " 简历"@
    } else if k == 24 {
        " 个人简历"@
    } else if k == 25 {
        " 在线"@
    } else if k == 26 {
        " 离线"@
    } else {
        " 的简历"@
    }
}

fn name_suffix_exec(k: usize) -> (r: &'static str)
    requires
        k < 28,
    ensures
        r@ == name_suffix(k as int),
{
    if k == 0 {
        " 性别"
    } else if k == 1 {
        "性别"
    } else if k == 2 {
        " Sex"
    } else if k == 3 {
        " Gender"
    } else if k == 4 {
        " 男"
    } else if k == 5 {
        " 女"
    } else if k == 6 {
        " Male"
    } else if k == 7 {
        " Female"
    } else if k == 8 {
        " 年龄"
    } else if k == 9 {
        " 年纪"
    } else if k == 10 {
        " 姓名"
    } else if k == 11 {
        " 名字"
    } else if k == 12 {
        " Name"
    } else if k == 13 {
        " 电话"
    } else if k == 14 {
        " 手机"
    } else if k == 15 {
        " 联系方式"
    } else if k == 16 {
        " 邮箱"
    } else if k == 17 {
        " 先生"
    } else if k == 18 {
        " 女士"
    } else if k == 19 {
        " 小姐"
    } else if k == 20 {
        " 评价"
    } else if k == 21 {
        " 备注"
    } else if k == 22 {
        " 说明"
    } else if k == 23 {
        " 简历"
    } else if k == 24 {
        " 个人简历"
    } else if k == 25 {
        " 在线"
    } else if k == 26 {
        " 离线"
    } else {
        " 的简历"
    }
}

pub proof fn lemma_name_suffix_nonempty(k: int)
    requires
        0 <= k < 28,
    ensures
        name_suffix(k).len() > 0,
{
    reveal_strlit(" 性别");
    reveal_strlit("性别");
    reveal_strlit(" Sex");
    reveal_strlit(" Gender");
    reveal_strlit(" 男");
    reveal_strlit(" 女");
    reveal_strlit(" Male");
    reveal_strlit(" Female");
    reveal_strlit(" 年龄");
    reveal_strlit(" 年纪");
    reveal_strlit(" 姓名");
    reveal_strlit(" 名字");
    reveal_strlit(" Name");
    reveal_strlit(" 电话");
    reveal_strlit(" 手机");
    reveal_strlit(" 联系方式");
    reveal_strlit(" 邮箱");
    reveal_strlit(" 先生");
    reveal_strlit(" 女士");
    reveal_strlit(" 小姐");
    reveal_strlit(" 评价");
    reveal_strlit(" 备注");
    reveal_strlit(" 说明");
    reveal_strlit(" 简历");
    reveal_strlit(" 个人简历");
    reveal_strlit(" 在线");
    reveal_strlit(" 离线");
    reveal_strlit(" 的简历");
}

/// The first suffix, from the `k`-th on, that `t` ends with.
pub open spec fn first_suffix(t: Seq<char>, k: int) -> Option<int>
    decreases 28 - k,
{
    if k < 0 || k >= 28 {
        None
    } else if ends_with(t, name_suffix(k)) {
        Some(k)
    } else {
        first_suffix(t, k + 1)
    }
}

pub proof fn lemma_first_suffix(t: Seq<char>, k: int)
    requires
        0 <= k,
    ensures
        first_suffix(t, k) matches Some(j) ==> k <= j < 28 && ends_with(t, name_suffix(j)),
    decreases 28 - k,
{
    if k < 28 && !ends_with(t, name_suffix(k)) {
        lemma_first_suffix(t, k + 1);
    }
}

/// Trailing label words dropped from a name, repeatedly, until none is left.
pub open spec fn strip_suffixes(s: Seq<char>) -> Seq<char>
    decreases s.len(),
{
    let t = trim_end(s);
    match first_suffix(t, 0) {
        Some(k) => {
            proof {
                lemma_first_suffix(t, 0);
                lemma_name_suffix_nonempty(k);
                lemma_trim_end_len(s);
                lemma_trim_end_len(t.subrange(0, t.len() - name_suffix(k).len()));
            }
            strip_suffixes(trim_end(t.subrange(0, t.len() - name_suffix(k).len())))
        },
        None => s,
    }
}

fn find_suffix(t: &Vec<char>) -> (r: Option<usize>)
    ensures
        r matches Some(k) ==> k < 28 && first_suffix(t@, 0) == Some(k as int),
        r is None ==> first_suffix(t@, 0) is None,
{
    let mut k: usize = 0;
    while k < 28
        invariant
            k <= 28,
            first_suffix(t@, 0) == first_suffix(t@, k as int),
        decreases 28 - k,
    {
        let suf = str_chars(name_suffix_exec(k));
        if ends_with_chars(t, &suf) {
            return Some(k);
        }
        k += 1;
    }
    None
}

fn strip_suffixes_exec(s: &Vec<char>) -> (r: Vec<char>)
    ensures
        r@ == strip_suffixes(s@),
{
    let mut cur = s.clone();
    assert(cur@ == s@);
    loop
        invariant
            strip_suffixes(cur@) == strip_suffixes(s@),
        decreases cur.len(),
    {
        let t = trim_end_chars(&cur);
        match find_suffix(&t) {
            None => {
                return cur;
            },
            Some(k) => {
                proof {
                    lemma_first_suffix(t@, 0);
                    lemma_name_suffix_nonempty(k as int);
                    lemma_trim_end_len(cur@);
                }
                let suf = str_chars(name_suffix_exec(k));
                let next = trim_end_chars(&slice_chars(&t, 0, t.len() - suf.len()));
                cur = next;
            },
        }
    }
}

fn eq_lit(a: &Vec<char>, s: &str) -> (r: bool)
    ensures
        r == (a@ == s@),
{
    let b = str_chars(s);
    chars_eq(a, &b)
}

/// A single word that names a gender.
pub open spec fn is_gender_word(t: Seq<char>) -> bool {
    t == "男"@ || t == "女"@ || t == "Male"@ || t == "Female"@
}

/// A candidate name cleaned of what models glue to it. Empty when it holds an
/// `@` (an e-mail address), when more than three fifths of it is phone-number
/// material, when it is only a gender word, or when it is mostly ASCII with no
/// CJK name char and either under half letters or no capital. Otherwise status
/// words and trailing label words are removed and white space runs become one
/// space.
pub open spec fn display_name(raw: Seq<char>) -> Seq<char> {
    let s0 = trim(raw);
    if s0.len() == 0 {
        s0
    } else if contains_seq(s0, seq!['@']) {
        Seq::empty()
    } else {
        let s1 = strip_status(s0);
        let n1 = if s1.len() == 0 {
            1
        } else {
            s1.len()
        };
        if 5 * count_phoneish(s1) > 3 * n1 {
            Seq::empty()
        } else if is_gender_word(trim(s1)) {
            Seq::empty()
        } else if garbled_ascii(trim(s1)) {
            Seq::empty()
        } else {
            let s2 = strip_suffixes(s1);
            match regex_replaced(WS_RUN_PATTERN@, trim(s2), seq![' '], false) {
                Some(x) => x,
                None => s2,
            }
        }
    }
}

fn normalize_display_name(raw: &Vec<char>) -> (r: Vec<char>)
    ensures
        r@ == display_name(raw@),
{
    let s0 = trim_chars(raw);
    if s0.len() == 0 {
        return s0;
    }
    let mut at: Vec<char> = Vec::new();
    at.push('@');
    assert(at@ =~= seq!['@']);
    if contains_chars(&s0, &at) {
        return Vec::new();
    }
    let s1 = strip_status_exec(&s0);
    let (ph, _a, _b, _c, _d) = name_counts(&s1);
    let n1: usize = if s1.len() == 0 {
        1
    } else {
        s1.len()
    };
    if (ph as u128) * 5 > (n1 as u128) * 3 {
        return Vec::new();
    }
    let t = trim_chars(&s1);
    if eq_lit(&t, "男") || eq_lit(&t, "女") || eq_lit(&t, "Male") || eq_lit(&t, "Female") {
        return Vec::new();
    }
    let (_p, asc, al, up, cj) = name_counts(&t);
    let n: usize = if t.len() == 0 {
        1
    } else {
        t.len()
    };
    if (asc as u128) * 10 > (n as u128) * 9 && !cj && ((al as u128) * 2 < (n as u128) || !up) {
        return Vec::new();
    }
    let s2 = strip_suffixes_exec(&s1);
    let mut sp: Vec<char> = Vec::new();
    sp.push(' ');
    assert(sp@ =~= seq![' ']);
    match regex_replace(WS_RUN_PATTERN, &trim_chars(&s2), &sp, false) {
        Some(x) => x,
        None => s2,
    }
}

// ---------------------------------------------------------------- ages

/// Chars allowed after the year of a birth date.
pub open spec fn is_date_char(c: char) -> bool {
    is_ascii_digit(c) || c == '.' || c == '-' || c == '/' || c == '年' || c == '月' || c == '日'
        || c == ' '
}

/// The year of a birth date written as `YYYY`, `YYYY.MM`, `YYYY-MM`,
/// `YYYY/MM` or `YYYY年MM月DD日`.
pub open spec fn birth_year_like(s: Seq<char>) -> Option<int> {
    let t = trim(s);
    if t.len() < 4 || !all_digits(t.take(4)) {
        None
    } else {
        let rest = t.skip(4);
        if rest.len() == 0 || (forall|i: int| 0 <= i < rest.len() ==> is_date_char(#[trigger] rest[i])) {
            Some(digits_value(t.take(4)) as int)
        } else {
            None
        }
    }
}

/// Ten to the power `i`, for `i` up to four.
pub open spec fn ten_pow(i: int) -> int {
    if i <= 0 {
        1
    } else if i == 1 {
        10
    } else if i == 2 {
        100
    } else if i == 3 {
        1000
    } else {
        10000
    }
}

fn extract_birth_year_like(s: &Vec<char>) -> (r: Option<i32>)
    ensures
        r matches Some(y) ==> birth_year_like(s@) == Some(y as int),
        r is None ==> birth_year_like(s@) is None,
{
    let t = trim_chars(s);
    if t.len() < 4 {
        return None;
    }
    let mut y: i32 = 0;
    let mut i: usize = 0;
    assert(t@.take(0) =~= Seq::<char>::empty());
    while i < 4
        invariant
            i <= 4 <= t.len(),
            t@ == trim(s@),
            all_digits(t@.take(i as int)),
            y == digits_value(t@.take(i as int)),
            0 <= y < ten_pow(i as int),
        decreases 4 - i,
    {
        let c = t[i];
        assert(t@.take(i + 1).drop_last() =~= t@.take(i as int));
        if !ascii_digit(c) {
            assert(t@.take(4)[i as int] == c);
            return None;
        }
        y = y * 10 + (((c as u32) - ('0' as u32)) as i32);
        i += 1;
        assert(all_digits(t@.take(i as int)));
    }
    let mut j: usize = 4;
    while j < t.len()
        invariant
            4 <= j <= t.len(),
            t@ == trim(s@),
            all_digits(t@.take(4)),
            y == digits_value(t@.take(4)),
            forall|k: int| 0 <= k < j - 4 ==> is_date_char(#[trigger] t@.skip(4)[k]),
        decreases t.len() - j,
    {
        let c = t[j];
        assert(t@.skip(4)[j - 4] == c);
        if !(ascii_digit(c) || c == '.' || c == '-' || c == '/' || c == '年' || c == '月' || c == '日'
            || c == ' ') {
            return None;
        }
        j += 1;
    }
    Some(y)
}

/// An age as given, or worked out from a birth year in `1900..=now_year`: an
/// age in `16..=80` is kept; text with `岁` is kept; anything else is kept as
/// trimmed.
pub open spec fn age_normalized(raw: Seq<char>, now_year: int) -> Seq<char> {
    let s = trim(raw);
    if s.len() == 0 {
        s
    } else if contains_seq(s, seq!['岁']) {
        s
    } else {
        let by_number: Option<Seq<char>> = match parse_i32(s) {
            Some(n) => if 16 <= n <= 80 {
                Some(decimal(n as nat))
            } else if 1900 <= n <= now_year {
                Some(decimal((now_year - n) as nat))
            } else {
                None
            },
            None => None,
        };
        match by_number {
            Some(x) => x,
            None => match birth_year_like(s) {
                Some(y) => if 1900 <= y <= now_year {
                    decimal((now_year - y) as nat)
                } else {
                    s
                },
                None => s,
            },
        }
    }
}

fn normalize_age(raw: &Vec<char>, now_year: i32) -> (r: Vec<char>)
    ensures
        r@ == age_normalized(raw@, now_year as int),
{
    let s = trim_chars(raw);
    if s.len() == 0 {
        return s;
    }
    let mut sui: Vec<char> = Vec::new();
    sui.push('岁');
    assert(sui@ =~= seq!['岁']);
    if contains_chars(&s, &sui) {
        return s;
    }
    match parse_i32_chars(&s) {
        Some(n) => {
            if 16 <= n && n <= 80 {
                return usize_decimal(n as usize);
            }
            if 1900 <= n && n <= now_year {
                return usize_decimal((now_year - n) as usize);
            }
        },
        None => {},
    }
    match extract_birth_year_like(&s) {
        Some(y) => {
            if 1900 <= y && y <= now_year {
                return usize_decimal((now_year - y) as usize);
            }
            s
        },
        None => s,
    }
}

// ---------------------------------------------------------------- work entries

fn trim_string(s: &String) -> (r: String)
    ensures
        r@ == trim(s@),
{
    chars_to_string(&trim_chars(&str_chars(s.as_str())))
}

/// A work entry with trimmed fields and a cleaned period.
pub open spec fn work_item_normalized(w: WorkItemV) -> WorkItemV {
    WorkItemV {
        company: trim(w.company),
        position: trim(w.position),
        period: period_normalized(w.period),
        description: trim(w.description),
    }
}

fn normalize_work_item(item: WorkItem) -> (r: WorkItem)
    ensures
        r@ == work_item_normalized(item@),
{
    WorkItem {
        company: trim_string(&item.company),
        position: trim_string(&item.position),
        period: chars_to_string(&normalize_period(&str_chars(item.period.as_str()))),
        description: trim_string(&item.description),
    }
}

/// The first entry, from the `j`-th on, of company `c`.
pub open spec fn first_company(m: Seq<WorkItemV>, c: Seq<char>, j: int) -> Option<int>
    decreases m.len() - j,
{
    if j < 0 || j >= m.len() {
        None
    } else if m[j].company == c {
        Some(j)
    } else {
        first_company(m, c, j + 1)
    }
}

/// Entry `item` folded into entry `e` of the same company: positions and
/// periods merged as sets of parts, descriptions merged.
pub open spec fn merged_entry(e: WorkItemV, item: WorkItemV) -> WorkItemV {
    WorkItemV {
        company: e.company,
        position: merge_unique(e.position, item.position, " / "@),
        period: merge_unique(e.period, item.period, "；"@),
        description: merge_descriptions(e.description, item.description),
    }
}

/// `item` folded into the first entry of its company, or added at the end.
pub open spec fn merge_work(m: Seq<WorkItemV>, item: WorkItemV) -> Seq<WorkItemV> {
    match first_company(m, item.company, 0) {
        Some(j) => m.update(j, merged_entry(m[j], item)),
        None => m.push(item),
    }
}

/// The entries folded in order, one entry per company.
pub open spec fn merged_work(items: Seq<WorkItemV>) -> Seq<WorkItemV>
    decreases items.len(),
{
    if items.len() == 0 {
        Seq::empty()
    } else {
        merge_work(merged_work(items.drop_last()), items.last())
    }
}

pub open spec fn empty_work() -> WorkItemV {
    WorkItemV {
        company: Seq::empty(),
        position: Seq::empty(),
        period: Seq::empty(),
        description: Seq::empty(),
    }
}

/// Work entries ordered by the number of their keys, cleaned, merged per
/// company and keyed afresh from `"1"`; one empty entry when there are none.
pub open spec fn work_normalized(m: Seq<(usize, WorkItemV)>) -> Seq<(Seq<char>, WorkItemV)> {
    let items = sort_by_index(m).map_values(|p: (usize, WorkItemV)| work_item_normalized(p.1));
    let merged = merged_work(items);
    if merged.len() == 0 {
        seq![("1"@, empty_work())]
    } else {
        renumbered(merged)
    }
}

pub open spec fn work_views(v: Seq<WorkItem>) -> Seq<WorkItemV> {
    v.map_values(|w: WorkItem| w@)
}

fn merge_into(merged: &mut Vec<WorkItem>, item: WorkItem)
    ensures
        work_views(final(merged)@) == merge_work(work_views(old(merged)@), item@),
{
    let ghost mv = work_views(merged@);
    let mut j: usize = 0;
    while j < merged.len() && !(merged[j].company == item.company)
        invariant
            j <= merged.len(),
            mv == work_views(merged@),
            first_company(mv, item@.company, 0) == first_company(mv, item@.company, j as int),
        decreases merged.len() - j,
    {
        j += 1;
    }
    if j < merged.len() {
        proof {
            reveal_strlit(" / ");
            reveal_strlit("；");
        }
        let e = merged.remove(j);
        let pos = merge_unique_text(
            &str_chars(e.position.as_str()),
            &str_chars(item.position.as_str()),
            &str_chars(" / "),
        );
        let per = merge_unique_text(
            &str_chars(e.period.as_str()),
            &str_chars(item.period.as_str()),
            &str_chars("；"),
        );
        let desc = merge_description(
            &str_chars(e.description.as_str()),
            &str_chars(item.description.as_str()),
        );
        let ne = WorkItem {
            company: e.company,
            position: chars_to_string(&pos),
            period: chars_to_string(&per),
            description: chars_to_string(&desc),
        };
        let ghost nev = ne@;
        merged.insert(j, ne);
        assert(work_views(merged@) =~= mv.update(j as int, nev));
    } else {
        let ghost iv = item@;
        merged.push(item);
        assert(work_views(merged@) =~= mv.push(iv));
    }
}

fn normalize_work_experience(m: Vec<(String, WorkItem)>) -> (r: Vec<(String, WorkItem)>)
    ensures
        keyed_view(r@) == work_normalized(indexed(m@)),
        keys_ascending(keyed_view(r@)),
{
    let sorted = sort_entries(m);
    let ghost sv = numbered_view(sorted@);
    let ghost items = sv.map_values(|p: (usize, WorkItemV)| work_item_normalized(p.1));
    assert(sv.len() == sorted.len());
    let mut sorted = sorted;
    let mut merged: Vec<WorkItem> = Vec::new();
    let mut i: usize = 0;
    assert(items.take(0) =~= Seq::<WorkItemV>::empty());
    while sorted.len() > 0
        invariant
            i + sorted.len() == sv.len(),
            sv.len() <= usize::MAX,
            items == sv.map_values(|p: (usize, WorkItemV)| work_item_normalized(p.1)),
            numbered_view(sorted@) == sv.skip(i as int),
            work_views(merged@) == merged_work(items.take(i as int)),
        decreases sorted.len(),
    {
        let ghost bs = sorted@;
        assert(numbered_view(sorted@)[0] == (bs[0].0, bs[0].1@));
        assert(sv.skip(i as int)[0] == sv[i as int]);
        let (_n, w) = sorted.remove(0);
        assert(sorted@ =~= bs.skip(1));
        assert(numbered_view(sorted@) =~= numbered_view(bs).skip(1));
        let item = normalize_work_item(w);
        assert(item@ == items[i as int]);
        merge_into(&mut merged, item);
        assert(items.take(i + 1).drop_last() =~= items.take(i as int));
        assert(numbered_view(sorted@) =~= sv.skip(i + 1));
        i += 1;
    }
    assert(items.take(i as int) =~= items);
    if merged.len() == 0 {
        let mut out: Vec<(String, WorkItem)> = Vec::new();
        let e = WorkItem {
            company: String::new(),
            position: String::new(),
            period: String::new(),
            description: String::new(),
        };
        out.push((chars_to_string(&str_chars("1")), e));
        assert(keyed_view(out@) =~= seq![("1"@, empty_work())]);
        assert(keys_ascending(keyed_view(out@)));
        return out;
    }
    assert(merged@.map_values(|x: WorkItem| x@) =~= work_views(merged@));
    renumber(merged)
}

// ---------------------------------------------------------------- basic information

/// The texts trimmed, empty ones dropped.
pub open spec fn trimmed_nonempty(v: Seq<Seq<char>>) -> Seq<Seq<char>>
    decreases v.len(),
{
    if v.len() == 0 {
        Seq::empty()
    } else {
        let r = trimmed_nonempty(v.drop_last());
        let t = trim(v.last());
        if t.len() == 0 {
            r
        } else {
            r.push(t)
        }
    }
}

fn trimmed_nonempty_exec(v: &Vec<String>) -> (r: Vec<Vec<char>>)
    ensures
        vecs_view(r@) == trimmed_nonempty(strings_view(v@)),
{
    let mut out: Vec<Vec<char>> = Vec::new();
    let mut i: usize = 0;
    assert(strings_view(v@).take(0) =~= Seq::<Seq<char>>::empty());
    while i < v.len()
        invariant
            i <= v.len(),
            vecs_view(out@) == trimmed_nonempty(strings_view(v@).take(i as int)),
        decreases v.len() - i,
    {
        proof {
            assert(strings_view(v@).take(i + 1).drop_last() =~= strings_view(v@).take(i as int));
        }
        let t = trim_chars(&str_chars(v[i].as_str()));
        if t.len() > 0 {
            let ghost before = vecs_view(out@);
            out.push(t);
            assert(vecs_view(out@) =~= before.push(vecs_view(out@).last()));
        }
        i += 1;
    }
    assert(strings_view(v@).take(v.len() as int) =~= strings_view(v@));
    out
}

pub open spec fn education_trimmed(e: EducationItemV) -> EducationItemV {
    EducationItemV {
        school: trim(e.school),
        major: trim(e.major),
        degree: trim(e.degree),
        period: trim(e.period),
    }
}

pub open spec fn empty_education() -> EducationItemV {
    EducationItemV {
        school: Seq::empty(),
        major: Seq::empty(),
        degree: Seq::empty(),
        period: Seq::empty(),
    }
}

/// The basic information cleaned: one empty education entry when there is
/// none, else every entry trimmed; the name cleaned and rid of placeholders;
/// the age normalized against `now_year`; contact and gender trimmed; skills
/// trimmed and deduplicated; certificates trimmed, empty ones dropped.
pub open spec fn basic_normalized(b: BasicInfoV, now_year: int) -> BasicInfoV {
    BasicInfoV {
        name: placeholders_stripped(display_name(b.name)),
        age: age_normalized(b.age, now_year),
        contact: trim(b.contact),
        gender: trim(b.gender),
        education: if b.education.len() == 0 {
            seq![empty_education()]
        } else {
            b.education.map_values(|e: EducationItemV| education_trimmed(e))
        },
        skills: dedup_skills(trimmed_nonempty(b.skills)),
        certificates: trimmed_nonempty(b.certificates),
    }
}

fn normalize_basic(b: BasicInfo, now_year: i32) -> (r: BasicInfo)
    ensures
        r@ == basic_normalized(b@, now_year as int),
{
    let ghost bv = b@;
    let BasicInfo { name, age, contact, gender, education, skills, certificates } = b;
    let mut edu: Vec<EducationItem> = Vec::new();
    if education.len() == 0 {
        edu.push(
            EducationItem {
                school: String::new(),
                major: String::new(),
                degree: String::new(),
                period: String::new(),
            },
        );
        assert(edu@.map_values(|e: EducationItem| e@) =~= seq![empty_education()]);
    } else {
        let mut i: usize = 0;
        while i < education.len()
            invariant
                i <= education.len(),
                edu@.map_values(|e: EducationItem| e@) =~= education@.take(i as int).map_values(
                    |e: EducationItem| education_trimmed(e@),
                ),
            decreases education.len() - i,
        {
            let e = EducationItem {
                school: trim_string(&education[i].school),
                major: trim_string(&education[i].major),
                degree: trim_string(&education[i].degree),
                period: trim_string(&education[i].period),
            };
            let ghost before = edu@;
            edu.push(e);
            assert(edu@.map_values(|e: EducationItem| e@) =~= before.map_values(|e: EducationItem| e@).push(
                education_trimmed(education@[i as int]@),
            ));
            assert(education@.take(i + 1).map_values(|e: EducationItem| education_trimmed(e@))
                =~= education@.take(i as int).map_values(|e: EducationItem| education_trimmed(e@)).push(
                education_trimmed(education@[i as int]@),
            ));
            i += 1;
        }
        assert(education@.take(education.len() as int) =~= education@);
        assert(edu@.map_values(|e: EducationItem| e@) =~= bv.education.map_values(
            |e: EducationItemV| education_trimmed(e),
        ));
    }
    let nm = strip_remaining_priv_placeholders(&normalize_display_name(&str_chars(name.as_str())));
    let ag = normalize_age(&str_chars(age.as_str()), now_year);
    let sk = dedup_skill_list(&trimmed_nonempty_exec(&skills));
    let ce = trimmed_nonempty_exec(&certificates);
    let r = BasicInfo {
        name: chars_to_string(&nm),
        age: chars_to_string(&ag),
        contact: trim_string(&contact),
        gender: trim_string(&gender),
        education: edu,
        skills: to_strings(&sk),
        certificates: to_strings(&ce),
    };
    assert(r@.education == basic_normalized(bv, now_year as int).education);
    r
}

// ---------------------------------------------------------------- skills from texts

/// Position and description of each work entry.
pub open spec fn work_texts(ws: Seq<(Seq<char>, WorkItemV)>) -> Seq<Seq<char>>
    decreases ws.len(),
{
    if ws.len() == 0 {
        Seq::empty()
    } else {
        work_texts(ws.drop_last()) + seq![ws.last().1.position, ws.last().1.description]
    }
}

/// Name, description and achievements of each project entry.
pub open spec fn project_texts(ps: Seq<(Seq<char>, ProjectItemV)>) -> Seq<Seq<char>>
    decreases ps.len(),
{
    if ps.len() == 0 {
        Seq::empty()
    } else {
        project_texts(ps.drop_last()) + seq![
            ps.last().1.project_name,
            ps.last().1.project_description,
            ps.last().1.project_achievements,
        ]
    }
}

/// `skills` added one by one to `merged`, each unless already held.
pub open spec fn add_missing(merged: Seq<Seq<char>>, skills: Seq<Seq<char>>) -> Seq<Seq<char>>
    decreases skills.len(),
{
    if skills.len() == 0 {
        merged
    } else {
        let r = add_missing(merged, skills.drop_last());
        if contains_skill(r, skills.last()) {
            r
        } else {
            r.push(skills.last())
        }
    }
}

/// The text skills are inferred from: the work and project texts, one per
/// line, lowercased.
pub open spec fn skill_corpus(work: Seq<(Seq<char>, WorkItemV)>, project: Seq<(Seq<char>, ProjectItemV)>) -> Seq<
    char,
> {
    lower(join_with(work_texts(work) + project_texts(project), seq!['\n']))
}

/// The explicit skills deduplicated, then the skills named in the work and
/// project texts that are not yet held.
pub open spec fn merged_skills(
    explicit: Seq<Seq<char>>,
    work: Seq<(Seq<char>, WorkItemV)>,
    project: Seq<(Seq<char>, ProjectItemV)>,
) -> Seq<Seq<char>> {
    add_missing(dedup_skills(explicit), inferred_skills(skill_corpus(work, project)))
}

/// `x` is held in `skills`, ignoring ASCII case and surrounding white space.
pub open spec fn skill_held(skills: Seq<Seq<char>>, x: Seq<char>) -> bool {
    exists|j: int| 0 <= j < skills.len() && lower(trim(#[trigger] skills[j])) == lower(trim(x))
}

proof fn lemma_work_texts_at(ws: Seq<(Seq<char>, WorkItemV)>)
    ensures
        work_texts(ws).len() == 2 * ws.len(),
        forall|i: int|
            0 <= i < ws.len() ==> work_texts(ws)[2 * i] == (#[trigger] ws[i]).1.position
                && work_texts(ws)[2 * i + 1] == ws[i].1.description,
    decreases ws.len(),
{
    if ws.len() > 0 {
        lemma_work_texts_at(ws.drop_last());
        assert forall|i: int| 0 <= i < ws.len() - 1 implies ws.drop_last()[i] == (#[trigger] ws[i]) by {}
    }
}

proof fn lemma_project_texts_at(ps: Seq<(Seq<char>, ProjectItemV)>)
    ensures
        project_texts(ps).len() == 3 * ps.len(),
        forall|i: int|
            0 <= i < ps.len() ==> project_texts(ps)[3 * i] == (#[trigger] ps[i]).1.project_name
                && project_texts(ps)[3 * i + 1] == ps[i].1.project_description
                && project_texts(ps)[3 * i + 2] == ps[i].1.project_achievements,
    decreases ps.len(),
{
    if ps.len() > 0 {
        lemma_project_texts_at(ps.drop_last());
        assert forall|i: int| 0 <= i < ps.len() - 1 implies ps.drop_last()[i] == (#[trigger] ps[i]) by {}
    }
}

/// The skill corpus holds, lowercased, the position and description of every
/// work entry and the name, description and achievements of every project.
pub proof fn law_skill_corpus_holds_entry_texts(work: Seq<(Seq<char>, WorkItemV)>, project: Seq<(Seq<char>, ProjectItemV)>)
    ensures
        forall|i: int|
            0 <= i < work.len() ==> contains_seq(skill_corpus(work, project), lower((#[trigger] work[i]).1.position))
                && contains_seq(skill_corpus(work, project), lower(work[i].1.description)),
        forall|i: int|
            0 <= i < project.len() ==> contains_seq(
                skill_corpus(work, project),
                lower((#[trigger] project[i]).1.project_name),
            ) && contains_seq(skill_corpus(work, project), lower(project[i].1.project_description))
                && contains_seq(skill_corpus(work, project), lower(project[i].1.project_achievements)),
{
    let wt = work_texts(work);
    let pt = project_texts(project);
    let parts = wt + pt;
    let sep = seq!['\n'];
    lemma_work_texts_at(work);
    lemma_project_texts_at(project);
    assert forall|k: int| 0 <= k < parts.len() implies contains_seq(
        skill_corpus(work, project),
        lower(#[trigger] parts[k]),
    ) by {
        lemma_join_with_holds_parts(parts, sep, k);
        lemma_lower_contains(join_with(parts, sep), parts[k]);
    }
    assert forall|i: int| 0 <= i < work.len() implies contains_seq(
        skill_corpus(work, project),
        lower((#[trigger] work[i]).1.position),
    ) && contains_seq(skill_corpus(work, project), lower(work[i].1.description)) by {
        assert(parts[2 * i] == wt[2 * i] && parts[2 * i + 1] == wt[2 * i + 1]);
        assert(contains_seq(skill_corpus(work, project), lower(parts[2 * i])));
        assert(contains_seq(skill_corpus(work, project), lower(parts[2 * i + 1])));
    }
    assert forall|i: int| 0 <= i < project.len() implies contains_seq(
        skill_corpus(work, project),
        lower((#[trigger] project[i]).1.project_name),
    ) && contains_seq(skill_corpus(work, project), lower(project[i].1.project_description))
        && contains_seq(skill_corpus(work, project), lower(project[i].1.project_achievements)) by {
        let o = wt.len() as int;
        assert(parts[o + 3 * i] == pt[3 * i]);
        assert(parts[o + 3 * i + 1] == pt[3 * i + 1]);
        assert(parts[o + 3 * i + 2] == pt[3 * i + 2]);
        assert(contains_seq(skill_corpus(work, project), lower(parts[o + 3 * i])));
        assert(contains_seq(skill_corpus(work, project), lower(parts[o + 3 * i + 1])));
        assert(contains_seq(skill_corpus(work, project), lower(parts[o + 3 * i + 2])));
    }
}

proof fn lemma_add_missing_holds(m: Seq<Seq<char>>, skills: Seq<Seq<char>>)
    ensures
        forall|k: int| 0 <= k < skills.len() ==> skill_held(add_missing(m, skills), #[trigger] skills[k]),
        forall|k: int| 0 <= k < m.len() ==> add_missing(m, skills)[k] == #[trigger] m[k],
        add_missing(m, skills).len() >= m.len(),
    decreases skills.len(),
{
    if skills.len() > 0 {
        lemma_add_missing_holds(m, skills.drop_last());
        let r = add_missing(m, skills.drop_last());
        let x = skills.last();
        let res = add_missing(m, skills);
        assert forall|k: int| 0 <= k < skills.len() implies skill_held(res, #[trigger] skills[k]) by {
            if k < skills.len() - 1 {
                assert(skills.drop_last()[k] == skills[k]);
                assert(skill_held(r, skills.drop_last()[k]));
                let j = choose|j: int| 0 <= j < r.len() && lower(trim(#[trigger] r[j])) == lower(trim(skills[k]));
                assert(res[j] == r[j]);
            } else if contains_skill(r, x) {
                let j = choose|j: int| 0 <= j < r.len() && lower(trim(#[trigger] r[j])) == lower(trim(x));
                assert(res[j] == r[j]);
            } else {
                assert(res[r.len() as int] == x);
            }
        }
    }
}

proof fn lemma_concat_contains_mono(a: Seq<Seq<char>>, b: Seq<Seq<char>>, a2: Seq<Seq<char>>, b2: Seq<Seq<char>>)
    requires
        forall|x: Seq<char>| a.contains(x) ==> a2.contains(x),
        forall|x: Seq<char>| b.contains(x) ==> b2.contains(x),
    ensures
        forall|x: Seq<char>| (a + b).contains(x) ==> (a2 + b2).contains(x),
{
    assert forall|x: Seq<char>| (a + b).contains(x) implies (a2 + b2).contains(x) by {
        let k = choose|k: int| 0 <= k < (a + b).len() && (a + b)[k] == x;
        if k < a.len() {
            assert(a[k] == x);
            assert(a.contains(x));
            let j = choose|j: int| 0 <= j < a2.len() && a2[j] == x;
            assert((a2 + b2)[j] == x);
        } else {
            assert(b[k - a.len()] == x);
            assert(b.contains(x));
            let j = choose|j: int| 0 <= j < b2.len() && b2[j] == x;
            assert((a2 + b2)[a2.len() + j] == x);
        }
    }
}

proof fn lemma_skill_if_mono(f1: bool, f2: bool, n: Seq<char>)
    requires
        f1 ==> f2,
    ensures
        forall|x: Seq<char>| skill_if(f1, n).contains(x) ==> skill_if(f2, n).contains(x),
{
    assert forall|x: Seq<char>| skill_if(f1, n).contains(x) implies skill_if(f2, n).contains(x) by {
        assert(skill_if(f2, n)[0] == n);
    }
}

#[verifier::spinoff_prover]
proof fn lemma_inferred_a_mono(t1: Seq<char>, t2: Seq<char>)
    requires
        forall|a: Seq<char>| #[trigger] alias_in(t1, a) ==> alias_in(t2, a),
    ensures
        forall|x: Seq<char>| inferred_a(t1).contains(x) ==> inferred_a(t2).contains(x),
{
    lemma_skill_if_mono(alias_in(t1, "java"@), alias_in(t2, "java"@), "Java"@);
    lemma_skill_if_mono(
        alias_in(t1, "golang"@) || alias_in(t1, "go语言"@) || alias_in(t1, "go 开发"@),
        alias_in(t2, "golang"@) || alias_in(t2, "go语言"@) || alias_in(t2, "go 开发"@),
        "Golang"@,
    );
    lemma_skill_if_mono(alias_in(t1, "python"@), alias_in(t2, "python"@), "Python"@);
    lemma_skill_if_mono(alias_in(t1, "javascript"@), alias_in(t2, "javascript"@), "JavaScript"@);
    lemma_skill_if_mono(alias_in(t1, "typescript"@), alias_in(t2, "typescript"@), "TypeScript"@);
    let a1 = skill_if(alias_in(t1, "java"@), "Java"@);
    let a2 = skill_if(alias_in(t2, "java"@), "Java"@);
    let g1 = skill_if(alias_in(t1, "golang"@) || alias_in(t1, "go语言"@) || alias_in(t1, "go 开发"@), "Golang"@);
    let g2 = skill_if(alias_in(t2, "golang"@) || alias_in(t2, "go语言"@) || alias_in(t2, "go 开发"@), "Golang"@);
    let p1 = skill_if(alias_in(t1, "python"@), "Python"@);
    let p2 = skill_if(alias_in(t2, "python"@), "Python"@);
    let j1 = skill_if(alias_in(t1, "javascript"@), "JavaScript"@);
    let j2 = skill_if(alias_in(t2, "javascript"@), "JavaScript"@);
    let s1 = skill_if(alias_in(t1, "typescript"@), "TypeScript"@);
    let s2 = skill_if(alias_in(t2, "typescript"@), "TypeScript"@);
    lemma_concat_contains_mono(a1, g1, a2, g2);
    lemma_concat_contains_mono(a1 + g1, p1, a2 + g2, p2);
    lemma_concat_contains_mono(a1 + g1 + p1, j1, a2 + g2 + p2, j2);
    lemma_concat_contains_mono(a1 + g1 + p1 + j1, s1, a2 + g2 + p2 + j2, s2);
    assert(inferred_a(t1) == a1 + g1 + p1 + j1 + s1);
    assert(inferred_a(t2) == a2 + g2 + p2 + j2 + s2);
}

#[verifier::spinoff_prover]
proof fn lemma_inferred_b_mono(t1: Seq<char>, t2: Seq<char>)
    requires
        forall|a: Seq<char>| #[trigger] alias_in(t1, a) ==> alias_in(t2, a),
    ensures
        forall|x: Seq<char>| inferred_b(t1).contains(x) ==> inferred_b(t2).contains(x),
{
    let v1 = skill_if(alias_in(t1, "vue"@), "Vue"@);
    let v2 = skill_if(alias_in(t2, "vue"@), "Vue"@);
    let r1 = skill_if(alias_in(t1, "react"@), "React"@);
    let r2 = skill_if(alias_in(t2, "react"@), "React"@);
    let n1 = skill_if(alias_in(t1, "node.js"@) || alias_in(t1, "nodejs"@), "Node.js"@);
    let n2 = skill_if(alias_in(t2, "node.js"@) || alias_in(t2, "nodejs"@), "Node.js"@);
    let b1 = skill_if(alias_in(t1, "springboot"@) || alias_in(t1, "spring boot"@), "SpringBoot"@);
    let b2 = skill_if(alias_in(t2, "springboot"@) || alias_in(t2, "spring boot"@), "SpringBoot"@);
    let c1 = skill_if(alias_in(t1, "springcloud"@) || alias_in(t1, "spring cloud"@), "SpringCloud"@);
    let c2 = skill_if(alias_in(t2, "springcloud"@) || alias_in(t2, "spring cloud"@), "SpringCloud"@);
    lemma_skill_if_mono(alias_in(t1, "vue"@), alias_in(t2, "vue"@), "Vue"@);
    lemma_skill_if_mono(alias_in(t1, "react"@), alias_in(t2, "react"@), "React"@);
    lemma_skill_if_mono(alias_in(t1, "node.js"@) || alias_in(t1, "nodejs"@), alias_in(t2, "node.js"@) || alias_in(t2, "nodejs"@), "Node.js"@);
    lemma_skill_if_mono(alias_in(t1, "springboot"@) || alias_in(t1, "spring boot"@), alias_in(t2, "springboot"@) || alias_in(t2, "spring boot"@), "SpringBoot"@);
    lemma_skill_if_mono(alias_in(t1, "springcloud"@) || alias_in(t1, "spring cloud"@), alias_in(t2, "springcloud"@) || alias_in(t2, "spring cloud"@), "SpringCloud"@);
    lemma_concat_contains_mono(v1, r1, v2, r2);
    lemma_concat_contains_mono(v1 + r1, n1, v2 + r2, n2);
    lemma_concat_contains_mono(v1 + r1 + n1, b1, v2 + r2 + n2, b2);
    lemma_concat_contains_mono(v1 + r1 + n1 + b1, c1, v2 + r2 + n2 + b2, c2);
    assert(inferred_b(t1) == v1 + r1 + n1 + b1 + c1);
    assert(inferred_b(t2) == v2 + r2 + n2 + b2 + c2);
}

#[verifier::spinoff_prover]
proof fn lemma_inferred_c_mono(t1: Seq<char>, t2: Seq<char>)
    requires
        forall|a: Seq<char>| #[trigger] alias_in(t1, a) ==> alias_in(t2, a),
    ensures
        forall|x: Seq<char>| inferred_c(t1).contains(x) ==> inferred_c(t2).contains(x),
{
    let m1 = skill_if(alias_in(t1, "mybatisplus"@) || alias_in(t1, "mybatis-plus"@), "MyBatisPlus"@);
    let m2 = skill_if(alias_in(t2, "mybatisplus"@) || alias_in(t2, "mybatis-plus"@), "MyBatisPlus"@);
    let q1 = skill_if(alias_in(t1, "mysql"@), "MySQL"@);
    let q2 = skill_if(alias_in(t2, "mysql"@), "MySQL"@);
    let d1 = skill_if(alias_in(t1, "redis"@), "Redis"@);
    let d2 = skill_if(alias_in(t2, "redis"@), "Redis"@);
    let k1 = skill_if(alias_in(t1, "kafka"@), "Kafka"@);
    let k2 = skill_if(alias_in(t2, "kafka"@), "Kafka"@);
    let e1 = skill_if(alias_in(t1, "elasticsearch"@), "Elasticsearch"@);
    let e2 = skill_if(alias_in(t2, "elasticsearch"@), "Elasticsearch"@);
    lemma_skill_if_mono(alias_in(t1, "mybatisplus"@) || alias_in(t1, "mybatis-plus"@), alias_in(t2, "mybatisplus"@) || alias_in(t2, "mybatis-plus"@), "MyBatisPlus"@);
    lemma_skill_if_mono(alias_in(t1, "mysql"@), alias_in(t2, "mysql"@), "MySQL"@);
    lemma_skill_if_mono(alias_in(t1, "redis"@), alias_in(t2, "redis"@), "Redis"@);
    lemma_skill_if_mono(alias_in(t1, "kafka"@), alias_in(t2, "kafka"@), "Kafka"@);
    lemma_skill_if_mono(alias_in(t1, "elasticsearch"@), alias_in(t2, "elasticsearch"@), "Elasticsearch"@);
    lemma_concat_contains_mono(m1, q1, m2, q2);
    lemma_concat_contains_mono(m1 + q1, d1, m2 + q2, d2);
    lemma_concat_contains_mono(m1 + q1 + d1, k1, m2 + q2 + d2, k2);
    lemma_concat_contains_mono(m1 + q1 + d1 + k1, e1, m2 + q2 + d2 + k2, e2);
    assert(inferred_c(t1) == m1 + q1 + d1 + k1 + e1);
    assert(inferred_c(t2) == m2 + q2 + d2 + k2 + e2);
}

#[verifier::spinoff_prover]
proof fn lemma_inferred_d_mono(t1: Seq<char>, t2: Seq<char>)
    requires
        forall|a: Seq<char>| #[trigger] alias_in(t1, a) ==> alias_in(t2, a),
    ensures
        forall|x: Seq<char>| inferred_d(t1).contains(x) ==> inferred_d(t2).contains(x),
{
    let o1 = skill_if(alias_in(t1, "docker"@), "Docker"@);
    let o2 = skill_if(alias_in(t2, "docker"@), "Docker"@);
    let h1 = skill_if(alias_in(t1, "k8s"@) || alias_in(t1, "kubernetes"@), "K8S"@);
    let h2 = skill_if(alias_in(t2, "k8s"@) || alias_in(t2, "kubernetes"@), "K8S"@);
    let y1 = skill_if(alias_in(t1, "netty"@), "Netty"@);
    let y2 = skill_if(alias_in(t2, "netty"@), "Netty"@);
    let x1 = skill_if(alias_in(t1, "c#"@) || alias_in(t1, "csharp"@) || alias_in(t1, ".net"@), "C#"@);
    let x2 = skill_if(alias_in(t2, "c#"@) || alias_in(t2, "csharp"@) || alias_in(t2, ".net"@), "C#"@);
    let z1 = skill_if(alias_in(t1, "c++"@), "C++"@);
    let z2 = skill_if(alias_in(t2, "c++"@), "C++"@);
    lemma_skill_if_mono(alias_in(t1, "docker"@), alias_in(t2, "docker"@), "Docker"@);
    lemma_skill_if_mono(alias_in(t1, "k8s"@) || alias_in(t1, "kubernetes"@), alias_in(t2, "k8s"@) || alias_in(t2, "kubernetes"@), "K8S"@);
    lemma_skill_if_mono(alias_in(t1, "netty"@), alias_in(t2, "netty"@), "Netty"@);
    lemma_skill_if_mono(alias_in(t1, "c#"@) || alias_in(t1, "csharp"@) || alias_in(t1, ".net"@), alias_in(t2, "c#"@) || alias_in(t2, "csharp"@) || alias_in(t2, ".net"@), "C#"@);
    lemma_skill_if_mono(alias_in(t1, "c++"@), alias_in(t2, "c++"@), "C++"@);
    lemma_concat_contains_mono(o1, h1, o2, h2);
    lemma_concat_contains_mono(o1 + h1, y1, o2 + h2, y2);
    lemma_concat_contains_mono(o1 + h1 + y1, x1, o2 + h2 + y2, x2);
    lemma_concat_contains_mono(o1 + h1 + y1 + x1, z1, o2 + h2 + y2 + x2, z2);
    assert(inferred_d(t1) == o1 + h1 + y1 + x1 + z1);
    assert(inferred_d(t2) == o2 + h2 + y2 + x2 + z2);
}

/// A text inside another names no skill the other does not.
proof fn lemma_inferred_mono(t1: Seq<char>, t2: Seq<char>)
    requires
        contains_seq(t2, t1),
    ensures
        forall|x: Seq<char>| inferred_skills(t1).contains(x) ==> inferred_skills(t2).contains(x),
{
    assert forall|a: Seq<char>| #[trigger] alias_in(t1, a) implies alias_in(t2, a) by {
        lemma_contains_transitive(t2, t1, lower(a));
    }
    lemma_inferred_a_mono(t1, t2);
    lemma_inferred_b_mono(t1, t2);
    lemma_inferred_c_mono(t1, t2);
    lemma_inferred_d_mono(t1, t2);
    lemma_concat_contains_mono(inferred_a(t1), inferred_b(t1), inferred_a(t2), inferred_b(t2));
    lemma_concat_contains_mono(
        inferred_a(t1) + inferred_b(t1),
        inferred_c(t1),
        inferred_a(t2) + inferred_b(t2),
        inferred_c(t2),
    );
    lemma_concat_contains_mono(
        inferred_a(t1) + inferred_b(t1) + inferred_c(t1),
        inferred_d(t1),
        inferred_a(t2) + inferred_b(t2) + inferred_c(t2),
        inferred_d(t2),
    );
}

/// Every dictionary skill named (by one of its aliases, ignoring ASCII case)
/// in the position or description of a work entry, or in the name,
/// description or achievements of a project, is among the merged skills
/// (ignoring case and surrounding white space).
pub proof fn law_skills_named_in_entries_are_kept(
    explicit: Seq<Seq<char>>,
    work: Seq<(Seq<char>, WorkItemV)>,
    project: Seq<(Seq<char>, ProjectItemV)>,
)
    ensures
        forall|i: int, x: Seq<char>|
            0 <= i < work.len() && (inferred_skills(lower((#[trigger] work[i]).1.position)).contains(x)
                || inferred_skills(lower(work[i].1.description)).contains(x)) ==> #[trigger] skill_held(
                merged_skills(explicit, work, project),
                x,
            ),
        forall|i: int, x: Seq<char>|
            0 <= i < project.len() && (inferred_skills(lower((#[trigger] project[i]).1.project_name)).contains(
                x,
            ) || inferred_skills(lower(project[i].1.project_description)).contains(x)
                || inferred_skills(lower(project[i].1.project_achievements)).contains(x))
                ==> #[trigger] skill_held(merged_skills(explicit, work, project), x),
{
    let corpus = skill_corpus(work, project);
    let inf = inferred_skills(corpus);
    let merged = merged_skills(explicit, work, project);
    law_skill_corpus_holds_entry_texts(work, project);
    lemma_add_missing_holds(dedup_skills(explicit), inf);
    assert forall|x: Seq<char>| inf.contains(x) implies skill_held(merged, x) by {
        let k = choose|k: int| 0 <= k < inf.len() && inf[k] == x;
        assert(skill_held(merged, inf[k]));
    }
    assert forall|i: int, x: Seq<char>|
        0 <= i < work.len() && (inferred_skills(lower((#[trigger] work[i]).1.position)).contains(x)
            || inferred_skills(lower(work[i].1.description)).contains(x)) implies #[trigger] skill_held(merged, x) by {
        lemma_inferred_mono(lower(work[i].1.position), corpus);
        lemma_inferred_mono(lower(work[i].1.description), corpus);
    }
    assert forall|i: int, x: Seq<char>|
        0 <= i < project.len() && (inferred_skills(lower((#[trigger] project[i]).1.project_name)).contains(x)
            || inferred_skills(lower(project[i].1.project_description)).contains(x)
            || inferred_skills(lower(project[i].1.project_achievements)).contains(x)) implies #[trigger] skill_held(
        merged,
        x,
    ) by {
        lemma_inferred_mono(lower(project[i].1.project_name), corpus);
        lemma_inferred_mono(lower(project[i].1.project_description), corpus);
        lemma_inferred_mono(lower(project[i].1.project_achievements), corpus);
    }
}


fn merge_skill_sources(
    explicit: &Vec<String>,
    work: &Vec<(String, WorkItem)>,
    project: &Vec<(String, ProjectItem)>,
) -> (r: Vec<String>)
    ensures
        strings_view(r@) == merged_skills(
            strings_view(explicit@),
            keyed_view(work@),
            keyed_view(project@),
        ),
{
    let mut ex: Vec<Vec<char>> = Vec::new();
    push_texts(&mut ex, explicit);
    assert(vecs_view(ex@) =~= strings_view(explicit@));
    let mut merged = dedup_skill_list(&ex);
    let mut parts: Vec<Vec<char>> = Vec::new();
    let mut i: usize = 0;
    assert(keyed_view(work@).take(0) =~= Seq::<(Seq<char>, WorkItemV)>::empty());
    while i < work.len()
        invariant
            i <= work.len(),
            vecs_view(parts@) == work_texts(keyed_view(work@).take(i as int)),
        decreases work.len() - i,
    {
        push_text(&mut parts, &work[i].1.position);
        push_text(&mut parts, &work[i].1.description);
        assert(keyed_view(work@).take(i + 1).drop_last() =~= keyed_view(work@).take(i as int));
        i += 1;
        assert(vecs_view(parts@) =~= work_texts(keyed_view(work@).take(i as int)));
    }
    assert(keyed_view(work@).take(work.len() as int) =~= keyed_view(work@));
    let ghost wpart = vecs_view(parts@);
    let mut i: usize = 0;
    assert(keyed_view(project@).take(0) =~= Seq::<(Seq<char>, ProjectItemV)>::empty());
    while i < project.len()
        invariant
            i <= project.len(),
            vecs_view(parts@) == wpart + project_texts(keyed_view(project@).take(i as int)),
        decreases project.len() - i,
    {
        push_text(&mut parts, &project[i].1.project_name);
        push_text(&mut parts, &project[i].1.project_description);
        push_text(&mut parts, &project[i].1.project_achievements);
        assert(keyed_view(project@).take(i + 1).drop_last() =~= keyed_view(project@).take(i as int));
        i += 1;
        assert(vecs_view(parts@) =~= wpart + project_texts(keyed_view(project@).take(i as int)));
    }
    assert(keyed_view(project@).take(project.len() as int) =~= keyed_view(project@));
    let mut nl: Vec<char> = Vec::new();
    nl.push('\n');
    assert(nl@ =~= seq!['\n']);
    let corpus = ascii_lower(&join_chars(&parts, &nl));
    let found = infer_skills_from_text(&corpus);
    let ghost base = vecs_view(merged@);
    let mut k: usize = 0;
    assert(vecs_view(found@).take(0) =~= Seq::<Seq<char>>::empty());
    while k < found.len()
        invariant
            k <= found.len(),
            vecs_view(merged@) == add_missing(base, vecs_view(found@).take(k as int)),
        decreases found.len() - k,
    {
        proof {
            assert(vecs_view(found@).take(k + 1).drop_last() =~= vecs_view(found@).take(k as int));
        }
        if !contains_skill_exec(&merged, &found[k]) {
            let x = found[k].clone();
            assert(x@ == found@[k as int]@);
            let ghost before = vecs_view(merged@);
            merged.push(x);
            assert(vecs_view(merged@) =~= before.push(found@[k as int]@));
        }
        k += 1;
    }
    assert(vecs_view(found@).take(found.len() as int) =~= vecs_view(found@));
    to_strings(&merged)
}

// ---------------------------------------------------------------- resume

pub open spec fn empty_project() -> ProjectItemV {
    ProjectItemV {
        project_name: Seq::empty(),
        project_description: Seq::empty(),
        project_achievements: Seq::empty(),
    }
}

/// A resume normalized against the year `now_year`: work entries cleaned,
/// merged per company and keyed afresh; project entries keyed afresh; basic
/// information cleaned; skills completed from the work and project texts.
pub open spec fn resume_normalized(r: ResumeDataV, now_year: int) -> ResumeDataV {
    let work = work_normalized(indexed_keys(r.work_experience));
    let project = indexed_normalized(indexed_keys(r.project_experience), empty_project());
    let b = basic_normalized(r.basic_info, now_year);
    ResumeDataV {
        basic_info: BasicInfoV {
            name: b.name,
            age: b.age,
            contact: b.contact,
            gender: b.gender,
            education: b.education,
            skills: merged_skills(b.skills, work, project),
            certificates: b.certificates,
        },
        work_experience: work,
        project_experience: project,
    }
}

/// Normalizes a resume against the year `now_year`, as `resume_normalized`
/// states it.
pub fn normalize_resume_at(r: ResumeData, now_year: i32) -> (out: ResumeData)
    ensures
        out@ == resume_normalized(r@, now_year as int),
        keys_ascending(out@.work_experience),
        keys_ascending(out@.project_experience),
{
    let ghost rv = r@;
    let ResumeData { basic_info, work_experience, project_experience } = r;
    proof {
        lemma_indexed_keys(work_experience@);
        lemma_indexed_keys(project_experience@);
    }
    let work = normalize_work_experience(work_experience);
    let empty = ProjectItem {
        project_name: String::new(),
        project_description: String::new(),
        project_achievements: String::new(),
    };
    let project = normalize_indexed_map(project_experience, empty);
    let b = normalize_basic(basic_info, now_year);
    let BasicInfo { name, age, contact, gender, education, skills, certificates } = b;
    let merged = merge_skill_sources(&skills, &work, &project);
    let out = ResumeData {
        basic_info: BasicInfo { name, age, contact, gender, education, skills: merged, certificates },
        work_experience: work,
        project_experience: project,
    };
    assert(out@.work_experience == keyed_view(out.work_experience@));
    assert(out@.project_experience == keyed_view(out.project_experience@));
    out
}

/// Calls `time::OffsetDateTime::now_utc` and reads its year. The year depends
/// on the clock; the crate keeps every year within plus or minus 999 999.
#[verifier::external_body]
fn current_year() -> (y: i32)
    ensures
        -999_999 <= y <= 999_999,
{
    time::OffsetDateTime::now_utc().year()
}

/// Normalizes a resume against the current year (see `normalize_resume_at`).
pub fn normalize_resume(r: ResumeData) -> (out: ResumeData)
    ensures
        exists|y: int| -999_999 <= y <= 999_999 && out@ == #[trigger] resume_normalized(r@, y),
        keys_ascending(out@.work_experience),
        keys_ascending(out@.project_experience),
{
    let y = current_year();
    normalize_resume_at(r, y)
}

// ---------------------------------------------------------------- laws of normalization

proof fn lemma_first_company(m: Seq<WorkItemV>, c: Seq<char>, j: int)
    requires
        0 <= j,
    ensures
        first_company(m, c, j) matches Some(x) ==> j <= x < m.len() && m[x].company == c,
        first_company(m, c, j) is None ==> forall|k: int| j <= k < m.len() ==> (#[trigger] m[k]).company != c,
    decreases m.len() - j,
{
    if j < m.len() && m[j].company != c {
        lemma_first_company(m, c, j + 1);
    }
}

/// Companies pairwise different.
pub open spec fn distinct_companies(m: Seq<WorkItemV>) -> bool {
    forall|i: int, j: int| 0 <= i < j < m.len() ==> (#[trigger] m[i]).company != (#[trigger] m[j]).company
}

proof fn lemma_merged_distinct(items: Seq<WorkItemV>)
    ensures
        distinct_companies(merged_work(items)),
    decreases items.len(),
{
    if items.len() > 0 {
        let m = merged_work(items.drop_last());
        let item = items.last();
        lemma_merged_distinct(items.drop_last());
        lemma_first_company(m, item.company, 0);
        let r = merge_work(m, item);
        match first_company(m, item.company, 0) {
            Some(x) => {
                assert forall|i: int, j: int| 0 <= i < j < r.len() implies (#[trigger] r[i]).company
                    != (#[trigger] r[j]).company by {
                    assert(r[i].company == m[i].company);
                    assert(r[j].company == m[j].company);
                }
            },
            None => {
                assert forall|i: int, j: int| 0 <= i < j < r.len() implies (#[trigger] r[i]).company
                    != (#[trigger] r[j]).company by {
                    if j < m.len() {
                        assert(r[i] == m[i] && r[j] == m[j]);
                    } else {
                        assert(r[i] == m[i]);
                    }
                }
            },
        }
    }
}

/// A normalized resume has at least one work and one project entry, each
/// section keyed `"1"` to `"n"`, and no two work entries of one company.
pub proof fn law_normalized_sections(r: ResumeDataV, now_year: int)
    ensures
        resume_normalized(r, now_year).work_experience.len() >= 1,
        keyed_by_position(resume_normalized(r, now_year).work_experience),
        resume_normalized(r, now_year).project_experience.len() >= 1,
        keyed_by_position(resume_normalized(r, now_year).project_experience),
        forall|i: int, j: int|
            0 <= i < j < resume_normalized(r, now_year).work_experience.len() ==> (#[trigger] lookup(
                resume_normalized(r, now_year).work_experience,
                position_key(i),
            )).unwrap().company != (#[trigger] lookup(
                resume_normalized(r, now_year).work_experience,
                position_key(j),
            )).unwrap().company,
{
    let m = indexed_keys(r.work_experience);
    let items = sort_by_index(m).map_values(|p: (usize, WorkItemV)| work_item_normalized(p.1));
    let merged = merged_work(items);
    let w = resume_normalized(r, now_year).work_experience;
    law_indexed_normalized_keys(indexed_keys(r.project_experience), empty_project());
    if merged.len() == 0 {
        law_indexed_normalized_keys(Seq::<(usize, WorkItemV)>::empty(), empty_work());
        assert(w == indexed_normalized(Seq::<(usize, WorkItemV)>::empty(), empty_work()));
    } else {
        lemma_renumbered_keyed(merged);
        law_renumbered_keys(merged);
        lemma_merged_distinct(items);
        assert forall|i: int, j: int| 0 <= i < j < w.len() implies (#[trigger] lookup(w, position_key(i))).unwrap().company
            != (#[trigger] lookup(w, position_key(j))).unwrap().company by {
            assert(lookup(w, position_key(i)) == Some(merged[i]));
            assert(lookup(w, position_key(j)) == Some(merged[j]));
        }
    }
}

} // verus!
