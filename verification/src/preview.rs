//! The built-in HTML preview of a resume, shown when no JSON Resume theme
//! can render one.

use crate::json_resume::{blank, blank_exec, by_rank, project_by_rank, work_by_rank, PdfExportOptions};
use crate::reindex::keyed_view;
use crate::schema::{EducationItem, EducationItemV, ProjectItem, ProjectItemV, ResumeData, ResumeDataV, WorkItem, WorkItemV};
use crate::text::{append_chars, chars_to_string, str_chars};
use vstd::prelude::*;

verus! {

/// The page up to the candidate's name: the document head with its styles,
/// the header bar and the opening of the content.
pub const PREVIEW_HEAD: &'static str = "<!doctype html><html lang=\"zh-CN\"><head><meta charset=\"utf-8\"><style>\n*{margin:0;padding:0;box-sizing:border-box}\nbody{font-family:\"Microsoft YaHei\",sans-serif;color:#333;max-width:800px;margin:0 auto;line-height:1.8;position:relative;padding-top:60px;padding-bottom:40px}\n.header{position:fixed;top:0;left:50%;transform:translateX(-50%);width:800px;height:44px;background:#1e3a5f;color:#fff;display:flex;align-items:center;justify-content:space-between;padding:0 24px;font-size:14px;z-index:100}\n.header-left{font-weight:bold;letter-spacing:4px;font-size:16px}\n.header-right{font-size:12px;opacity:0.85}\n.content{padding:20px 24px 0}\n.footer{position:fixed;bottom:0;left:50%;transform:translateX(-50%);width:800px;height:32px;background:#f0f2f5;color:#999;display:flex;align-items:center;justify-content:space-between;padding:0 24px;font-size:11px;z-index:100;border-top:1px solid #e0e0e0}\nh1{font-size:28px;border-bottom:2px solid #2563eb;padding-bottom:8px}\nh2{font-size:18px;color:#2563eb;margin-top:24px}\n.item{margin:8px 0}\n.muted{color:#888;font-size:13px}\n.tag{display:inline-block;border:1px solid #ccc;padding:2px 10px;border-radius:12px;margin:4px;font-size:12px}\n.tags{margin:8px 0}\n.watermark{position:fixed;top:50%;left:50%;transform:translate(-50%,-50%) rotate(-30deg);font-size:120px;color:rgba(0,0,0,0.04);pointer-events:none;z-index:50;white-space:nowrap;font-weight:bold}\n@media print{\n  .header{position:fixed;top:0}\n  .footer{position:fixed;bottom:0}\n  body{-webkit-print-color-adjust:exact;print-color-adjust:exact}\n  @page{margin-top:50px;margin-bottom:35px}\n}\n</style></head><body>\n<div class=\"header\"><span class=\"header-left\">大瀚</span><span class=\"header-right\">人才简历</span></div>\n<div class=\"content\">\n<h1>";

/// The page after the last section: the footer, the watermark and the end
/// of the document.
pub const PREVIEW_TAIL: &'static str = "\n</div>\n<div class=\"footer\"><span>大瀚</span><span>第 1 页</span></div>\n<div class=\"watermark\">大瀚</div>\n</body></html>";

/// A char as HTML text: `&`, `<` and `>` as entities.
pub open spec fn escaped_char(c: char) -> Seq<char> {
    if c == '&' {
        "&amp;"@
    } else if c == '<' {
        "&lt;"@
    } else if c == '>' {
        "&gt;"@
    } else {
        seq![c]
    }
}

/// A text as HTML text.
pub open spec fn escaped(s: Seq<char>) -> Seq<char>
    decreases s.len(),
{
    if s.len() == 0 {
        Seq::empty()
    } else {
        escaped(s.drop_last()) + escaped_char(s.last())
    }
}

fn push_escaped(out: &mut Vec<char>, s: &String)
    ensures
        final(out)@ == old(out)@ + escaped(s@),
{
    let cs = str_chars(s.as_str());
    let ghost o0 = out@;
    let mut i: usize = 0;
    assert(cs@.take(0) =~= Seq::<char>::empty());
    assert(o0 + escaped(Seq::<char>::empty()) =~= o0);
    while i < cs.len()
        invariant
            i <= cs.len(),
            cs@ == s@,
            out@ == o0 + escaped(cs@.take(i as int)),
        decreases cs.len() - i,
    {
        let c = cs[i];
        let ghost before = out@;
        if c == '&' {
            append_chars(out, &str_chars("&amp;"));
        } else if c == '<' {
            append_chars(out, &str_chars("&lt;"));
        } else if c == '>' {
            append_chars(out, &str_chars("&gt;"));
        } else {
            out.push(c);
        }
        assert(out@ == before + escaped_char(c));
        assert(cs@.take(i + 1).drop_last() =~= cs@.take(i as int));
        assert(out@ =~= o0 + escaped(cs@.take(i + 1)));
        i += 1;
    }
    assert(cs@.take(i as int) =~= s@);
}

/// A text with `&`, `<` and `>` written as HTML entities.
pub fn esc_html(s: &str) -> (r: String)
    ensures
        r@ == escaped(s@),
{
    let mut out: Vec<char> = Vec::new();
    let owned = s.to_string();
    push_escaped(&mut out, &owned);
    assert(out@ =~= escaped(s@));
    chars_to_string(&out)
}

fn push_lit(out: &mut Vec<char>, lit: &str)
    ensures
        final(out)@ == old(out)@ + lit@,
{
    append_chars(out, &str_chars(lit));
}

fn push_text(out: &mut Vec<char>, s: &String)
    ensures
        final(out)@ == old(out)@ + s@,
{
    append_chars(out, &str_chars(s.as_str()));
}

// ---------------------------------------------------------------- sections

pub open spec fn edu_piece(e: EducationItemV) -> Seq<char> {
    "<div class='item'><b>"@ + escaped(e.school) + "</b> / "@ + escaped(e.degree) + " / "@ + escaped(
        e.major,
    ) + "</div>"@
}

/// The education entries with a school, each as a line.
pub open spec fn edu_html(s: Seq<EducationItemV>) -> Seq<char>
    decreases s.len(),
{
    if s.len() == 0 {
        Seq::empty()
    } else if blank(s.last().school) {
        edu_html(s.drop_last())
    } else {
        edu_html(s.drop_last()) + edu_piece(s.last())
    }
}

pub open spec fn work_piece(w: WorkItemV) -> Seq<char> {
    "<div class='item'><b>"@ + escaped(w.company) + "</b> — "@ + escaped(w.position)
        + " <span class='muted'>"@ + escaped(w.period) + "</span><br>"@ + escaped(w.description)
        + "</div>"@
}

/// The work entries with a company or a position, each as a block.
pub open spec fn work_html(s: Seq<WorkItemV>) -> Seq<char>
    decreases s.len(),
{
    if s.len() == 0 {
        Seq::empty()
    } else if blank(s.last().company) && blank(s.last().position) {
        work_html(s.drop_last())
    } else {
        work_html(s.drop_last()) + work_piece(s.last())
    }
}

pub open spec fn project_piece(p: ProjectItemV) -> Seq<char> {
    "<div class='item'><b>"@ + escaped(p.project_name) + "</b><br>"@ + escaped(p.project_description)
        + "<br><span class='muted'>项目成果："@ + escaped(p.project_achievements) + "</span></div>"@
}

/// The project entries with a name, each as a block.
pub open spec fn project_html(s: Seq<ProjectItemV>) -> Seq<char>
    decreases s.len(),
{
    if s.len() == 0 {
        Seq::empty()
    } else if blank(s.last().project_name) {
        project_html(s.drop_last())
    } else {
        project_html(s.drop_last()) + project_piece(s.last())
    }
}

pub open spec fn tags(s: Seq<Seq<char>>) -> Seq<char>
    decreases s.len(),
{
    if s.len() == 0 {
        Seq::empty()
    } else {
        tags(s.drop_last()) + "<span class='tag'>"@ + escaped(s.last()) + "</span>"@
    }
}

/// The skills as tags, when they are shown and there are any.
pub open spec fn skills_html(shown: bool, s: Seq<Seq<char>>) -> Seq<char> {
    if shown && s.len() > 0 {
        "<div class='tags'>"@ + tags(s) + "</div>"@
    } else {
        Seq::empty()
    }
}

/// The preview page of a resume under the given options. The name falls
/// back to `候选人` when it is hidden or blank; hidden basic fields are
/// empty; work and project entries come in the order of their key numbers.
pub open spec fn preview_html(
    r: ResumeDataV,
    include_name: bool,
    include_gender: bool,
    include_age: bool,
    include_contact: bool,
    include_skills: bool,
) -> Seq<char> {
    let b = r.basic_info;
    let name = if include_name && !blank(b.name) {
        b.name
    } else {
        "候选人"@
    };
    let gender = if include_gender {
        b.gender
    } else {
        Seq::empty()
    };
    let age = if include_age {
        b.age
    } else {
        Seq::empty()
    };
    let contact = if include_contact {
        b.contact
    } else {
        Seq::empty()
    };
    PREVIEW_HEAD@ + name + "</h1>\n<p>"@ + gender + " | "@ + age + " | "@ + contact
        + "</p>\n<h2>教育背景</h2>"@ + edu_html(b.education) + "\n<h2>工作经历</h2>"@ + work_html(
        by_rank(r.work_experience),
    ) + "\n<h2>项目经历</h2>"@ + project_html(by_rank(r.project_experience)) + "\n<h2>技能特长</h2>"@
        + skills_html(include_skills, b.skills) + PREVIEW_TAIL@
}

fn edu_section(items: &Vec<EducationItem>) -> (r: Vec<char>)
    ensures
        r@ == edu_html(items@.map_values(|e: EducationItem| e@)),
{
    let ghost iv = items@.map_values(|e: EducationItem| e@);
    let mut out: Vec<char> = Vec::new();
    let mut i: usize = 0;
    assert(iv.take(0) =~= Seq::<EducationItemV>::empty());
    while i < items.len()
        invariant
            i <= items.len(),
            iv == items@.map_values(|e: EducationItem| e@),
            out@ == edu_html(iv.take(i as int)),
        decreases items.len() - i,
    {
        let e = &items[i];
        assert(iv.take(i + 1).drop_last() =~= iv.take(i as int));
        assert(iv.take(i + 1).last() == e@);
        if !blank_exec(&e.school) {
            let ghost o0 = out@;
            push_lit(&mut out, "<div class='item'><b>");
            push_escaped(&mut out, &e.school);
            push_lit(&mut out, "</b> / ");
            push_escaped(&mut out, &e.degree);
            push_lit(&mut out, " / ");
            push_escaped(&mut out, &e.major);
            push_lit(&mut out, "</div>");
            assert(out@ =~= o0 + edu_piece(e@));
        }
        i += 1;
    }
    assert(iv.take(i as int) =~= iv);
    out
}

fn work_section(items: &Vec<WorkItem>) -> (r: Vec<char>)
    ensures
        r@ == work_html(items@.map_values(|w: WorkItem| w@)),
{
    let ghost iv = items@.map_values(|w: WorkItem| w@);
    let mut out: Vec<char> = Vec::new();
    let mut i: usize = 0;
    assert(iv.take(0) =~= Seq::<WorkItemV>::empty());
    while i < items.len()
        invariant
            i <= items.len(),
            iv == items@.map_values(|w: WorkItem| w@),
            out@ == work_html(iv.take(i as int)),
        decreases items.len() - i,
    {
        let w = &items[i];
        assert(iv.take(i + 1).drop_last() =~= iv.take(i as int));
        assert(iv.take(i + 1).last() == w@);
        if !blank_exec(&w.company) || !blank_exec(&w.position) {
            let ghost o0 = out@;
            push_lit(&mut out, "<div class='item'><b>");
            push_escaped(&mut out, &w.company);
            push_lit(&mut out, "</b> — ");
            push_escaped(&mut out, &w.position);
            push_lit(&mut out, " <span class='muted'>");
            push_escaped(&mut out, &w.period);
            push_lit(&mut out, "</span><br>");
            push_escaped(&mut out, &w.description);
            push_lit(&mut out, "</div>");
            assert(out@ =~= o0 + work_piece(w@));
        }
        i += 1;
    }
    assert(iv.take(i as int) =~= iv);
    out
}

fn project_section(items: &Vec<ProjectItem>) -> (r: Vec<char>)
    ensures
        r@ == project_html(items@.map_values(|p: ProjectItem| p@)),
{
    let ghost iv = items@.map_values(|p: ProjectItem| p@);
    let mut out: Vec<char> = Vec::new();
    let mut i: usize = 0;
    assert(iv.take(0) =~= Seq::<ProjectItemV>::empty());
    while i < items.len()
        invariant
            i <= items.len(),
            iv == items@.map_values(|p: ProjectItem| p@),
            out@ == project_html(iv.take(i as int)),
        decreases items.len() - i,
    {
        let p = &items[i];
        assert(iv.take(i + 1).drop_last() =~= iv.take(i as int));
        assert(iv.take(i + 1).last() == p@);
        if !blank_exec(&p.project_name) {
            let ghost o0 = out@;
            push_lit(&mut out, "<div class='item'><b>");
            push_escaped(&mut out, &p.project_name);
            push_lit(&mut out, "</b><br>");
            push_escaped(&mut out, &p.project_description);
            push_lit(&mut out, "<br><span class='muted'>项目成果：");
            push_escaped(&mut out, &p.project_achievements);
            push_lit(&mut out, "</span></div>");
            assert(out@ =~= o0 + project_piece(p@));
        }
        i += 1;
    }
    assert(iv.take(i as int) =~= iv);
    out
}

fn skills_section(shown: bool, skills: &Vec<String>) -> (r: Vec<char>)
    ensures
        r@ == skills_html(shown, skills@.map_values(|s: String| s@)),
{
    let ghost sv = skills@.map_values(|s: String| s@);
    let mut out: Vec<char> = Vec::new();
    if !shown || skills.len() == 0 {
        assert(out@ =~= skills_html(shown, sv));
        return out;
    }
    push_lit(&mut out, "<div class='tags'>");
    let ghost o0 = out@;
    let mut i: usize = 0;
    assert(sv.take(0) =~= Seq::<Seq<char>>::empty());
    assert(out@ =~= o0 + tags(sv.take(0)));
    while i < skills.len()
        invariant
            i <= skills.len(),
            sv == skills@.map_values(|s: String| s@),
            out@ == o0 + tags(sv.take(i as int)),
        decreases skills.len() - i,
    {
        let ghost before = out@;
        push_lit(&mut out, "<span class='tag'>");
        push_escaped(&mut out, &skills[i]);
        push_lit(&mut out, "</span>");
        assert(sv.take(i + 1).drop_last() =~= sv.take(i as int));
        assert(sv.take(i + 1).last() == skills@[i as int]@);
        assert(out@ =~= o0 + tags(sv.take(i + 1)));
        i += 1;
    }
    assert(sv.take(i as int) =~= sv);
    push_lit(&mut out, "</div>");
    assert(out@ =~= skills_html(shown, sv));
    out
}

/// The built-in preview page of a resume: the name (or `候选人`), the shown
/// basic fields, the education, work and project entries that carry their
/// leading text, and the skills as tags, with entry texts HTML-escaped.
pub fn builtin_preview_html(resume: &ResumeData, options: &PdfExportOptions) -> (r: String)
    ensures
        r@ == preview_html(
            resume@,
            options.include_name,
            options.include_gender,
            options.include_age,
            options.include_contact,
            options.include_skills,
        ),
{
    let b = &resume.basic_info;
    let work_items = work_by_rank(&resume.work_experience);
    let project_items = project_by_rank(&resume.project_experience);
    proof {
        assert(keyed_view(resume.work_experience@) =~= resume@.work_experience);
        assert(keyed_view(resume.project_experience@) =~= resume@.project_experience);
    }
    let edu = edu_section(&b.education);
    let work = work_section(&work_items);
    let projects = project_section(&project_items);
    let skills = skills_section(options.include_skills, &b.skills);
    let mut out: Vec<char> = Vec::new();
    push_lit(&mut out, PREVIEW_HEAD);
    if options.include_name && !blank_exec(&b.name) {
        push_text(&mut out, &b.name);
    } else {
        push_lit(&mut out, "候选人");
    }
    push_lit(&mut out, "</h1>\n<p>");
    if options.include_gender {
        push_text(&mut out, &b.gender);
    }
    push_lit(&mut out, " | ");
    if options.include_age {
        push_text(&mut out, &b.age);
    }
    push_lit(&mut out, " | ");
    if options.include_contact {
        push_text(&mut out, &b.contact);
    }
    push_lit(&mut out, "</p>\n<h2>教育背景</h2>");
    append_chars(&mut out, &edu);
    push_lit(&mut out, "\n<h2>工作经历</h2>");
    append_chars(&mut out, &work);
    push_lit(&mut out, "\n<h2>项目经历</h2>");
    append_chars(&mut out, &projects);
    push_lit(&mut out, "\n<h2>技能特长</h2>");
    append_chars(&mut out, &skills);
    push_lit(&mut out, PREVIEW_TAIL);
    assert(out@ =~= preview_html(
        resume@,
        options.include_name,
        options.include_gender,
        options.include_age,
        options.include_contact,
        options.include_skills,
    ));
    chars_to_string(&out)
}

/// HTML-escaped text holds no `<` or `>`, so no entry text can open or
/// close a tag of the preview page.
pub proof fn law_escaped_text_has_no_tags(s: Seq<char>)
    ensures
        !escaped(s).contains('<'),
        !escaped(s).contains('>'),
    decreases s.len(),
{
    reveal_strlit("&amp;");
    reveal_strlit("&lt;");
    reveal_strlit("&gt;");
    if s.len() > 0 {
        law_escaped_text_has_no_tags(s.drop_last());
        let a = escaped(s.drop_last());
        let b = escaped_char(s.last());
        assert forall|i: int| 0 <= i < b.len() implies b[i] != '<' && b[i] != '>' by {
            if s.last() == '&' {
                assert(b[i] == "&amp;"@[i]);
            } else if s.last() == '<' {
                assert(b[i] == "&lt;"@[i]);
            } else if s.last() == '>' {
                assert(b[i] == "&gt;"@[i]);
            }
        }
        assert forall|i: int| 0 <= i < (a + b).len() implies (a + b)[i] != '<' && (a + b)[i] != '>' by {
            if i < a.len() {
                assert((a + b)[i] == a[i]);
                assert(!a.contains('<') && !a.contains('>'));
            } else {
                assert((a + b)[i] == b[i - a.len()]);
            }
        }
    }
}

} // verus!
