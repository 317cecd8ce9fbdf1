use resume_manager::json_resume::PdfExportOptions;
use resume_manager::preview::{builtin_preview_html, esc_html, PREVIEW_HEAD, PREVIEW_TAIL};
use resume_manager::schema::{BasicInfo, EducationItem, ProjectItem, ResumeData, WorkItem};

fn work(company: &str, position: &str, period: &str, description: &str) -> WorkItem {
    WorkItem {
        company: company.to_string(),
        position: position.to_string(),
        period: period.to_string(),
        description: description.to_string(),
    }
}

fn project(name: &str, description: &str, achievements: &str) -> ProjectItem {
    ProjectItem {
        project_name: name.to_string(),
        project_description: description.to_string(),
        project_achievements: achievements.to_string(),
    }
}

fn edu(school: &str, major: &str, degree: &str) -> EducationItem {
    EducationItem {
        school: school.to_string(),
        major: major.to_string(),
        degree: degree.to_string(),
        period: "2010-2014".to_string(),
    }
}

fn sample() -> ResumeData {
    ResumeData {
        basic_info: BasicInfo {
            name: "张三".to_string(),
            age: "30".to_string(),
            contact: "138".to_string(),
            gender: "男".to_string(),
            education: vec![edu("清华<大学>", "计算机", "本科"), edu("  ", "x", "y")],
            skills: vec!["C&C++".to_string(), "Go".to_string()],
            certificates: vec![],
        },
        work_experience: vec![
            ("10".to_string(), work("丙", "架构师", "2020", "带团队")),
            ("2".to_string(), work("乙", "", "2018", "写代码")),
            ("3".to_string(), work(" ", "", "2017", "无名")),
        ],
        project_experience: vec![
            ("1".to_string(), project("平台", "微服务", "提速")),
            ("2".to_string(), project(" ", "隐藏", "")),
        ],
    }
}

fn body(html: &str) -> &str {
    assert!(html.starts_with(PREVIEW_HEAD));
    assert!(html.ends_with(PREVIEW_TAIL));
    &html[PREVIEW_HEAD.len()..html.len() - PREVIEW_TAIL.len()]
}

#[test]
fn esc_html_escapes_markup_chars() {
    assert_eq!(esc_html("a&b<c>d"), "a&amp;b&lt;c&gt;d");
    assert_eq!(esc_html("&lt;"), "&amp;lt;");
    assert_eq!(esc_html("中文"), "中文");
    assert_eq!(esc_html(""), "");
}

#[test]
fn builtin_preview_shows_all_sections() {
    let html = builtin_preview_html(&sample(), &PdfExportOptions::default());
    let expected = "张三</h1>\n<p>男 | 30 | 138</p>\n<h2>教育背景</h2>\
<div class='item'><b>清华&lt;大学&gt;</b> / 本科 / 计算机</div>\
\n<h2>工作经历</h2>\
<div class='item'><b>乙</b> —  <span class='muted'>2018</span><br>写代码</div>\
<div class='item'><b>丙</b> — 架构师 <span class='muted'>2020</span><br>带团队</div>\
\n<h2>项目经历</h2>\
<div class='item'><b>平台</b><br>微服务<br><span class='muted'>项目成果：提速</span></div>\
\n<h2>技能特长</h2>\
<div class='tags'><span class='tag'>C&amp;C++</span><span class='tag'>Go</span></div>";
    assert_eq!(body(&html), expected);
}

#[test]
fn builtin_preview_hides_fields() {
    let options = PdfExportOptions {
        include_name: false,
        include_gender: false,
        include_age: true,
        include_contact: false,
        include_skills: false,
        theme_dir: String::new(),
    };
    let html = builtin_preview_html(&sample(), &options);
    let b = body(&html);
    assert!(b.starts_with("候选人</h1>\n<p> | 30 | </p>"));
    assert!(b.ends_with("\n<h2>技能特长</h2>"));
}

#[test]
fn builtin_preview_blank_name_falls_back() {
    let mut r = sample();
    r.basic_info.name = "   ".to_string();
    r.basic_info.skills = vec![];
    let html = builtin_preview_html(&r, &PdfExportOptions::default());
    let b = body(&html);
    assert!(b.starts_with("候选人</h1>"));
    assert!(b.ends_with("\n<h2>技能特长</h2>"));
}

#[test]
fn escaped_text_has_no_tags() {
    let e = esc_html("<script>alert('x')</script> & <b>");
    assert!(!e.contains('<'));
    assert!(!e.contains('>'));
    assert_eq!(e, "&lt;script&gt;alert('x')&lt;/script&gt; &amp; &lt;b&gt;");
}
