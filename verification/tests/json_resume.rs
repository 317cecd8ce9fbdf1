use resume_manager::json_resume::{resume_data_to_json_resume, PdfExportOptions};
use resume_manager::schema::{BasicInfo, EducationItem, ProjectItem, ResumeData, WorkItem};

fn work(company: &str, position: &str, period: &str, description: &str) -> WorkItem {
    WorkItem {
        company: company.to_string(),
        position: position.to_string(),
        period: period.to_string(),
        description: description.to_string(),
    }
}

fn sample() -> ResumeData {
    ResumeData {
        basic_info: BasicInfo {
            name: "  张三 ".to_string(),
            age: "".to_string(),
            contact: "138 0000 0000".to_string(),
            gender: "男".to_string(),
            education: vec![
                EducationItem {
                    school: " 清华大学 ".to_string(),
                    major: "".to_string(),
                    degree: "本科".to_string(),
                    period: "2010-2014".to_string(),
                },
                EducationItem {
                    school: " ".to_string(),
                    major: "".to_string(),
                    degree: "".to_string(),
                    period: "".to_string(),
                },
            ],
            skills: vec!["  Rust   lang ".to_string(), "  ".to_string(), "Go".to_string()],
            certificates: vec!["  A  B ".to_string(), " ".to_string()],
        },
        work_experience: vec![
            ("10".to_string(), work("丙公司", "架构师", "2020-至今", "带团队")),
            ("2".to_string(), work("乙公司", " ", "2018-2020", "  写\n代码 ")),
            ("3".to_string(), work(" ", "", "", "")),
            ("x".to_string(), work("", "实习", "", "")),
        ],
        project_experience: vec![
            (
                "1".to_string(),
                ProjectItem {
                    project_name: "平台".to_string(),
                    project_description: " 微服务  改造 ".to_string(),
                    project_achievements: "".to_string(),
                },
            ),
            (
                "-1".to_string(),
                ProjectItem {
                    project_name: "".to_string(),
                    project_description: "".to_string(),
                    project_achievements: " 性能 提升 ".to_string(),
                },
            ),
        ],
    }
}

#[test]
fn work_entries_ordered_and_cleaned() {
    let d = resume_data_to_json_resume(&sample(), &PdfExportOptions::default());
    let names: Vec<&str> = d.work.iter().map(|w| w.name.as_str()).collect();
    assert_eq!(names, vec!["-", "乙公司", "丙公司"]);
    assert_eq!(d.work[0].position, "实习");
    assert_eq!(d.work[0].end_date, "-");
    assert_eq!(d.work[1].position, "-");
    assert_eq!(d.work[1].summary, "写 代码");
    assert_eq!(d.work[2].end_date, "2020-至今");
}

#[test]
fn education_blank_entries_dropped() {
    let d = resume_data_to_json_resume(&sample(), &PdfExportOptions::default());
    assert_eq!(d.education.len(), 1);
    assert_eq!(d.education[0].institution, "清华大学");
    assert_eq!(d.education[0].area, "-");
    assert_eq!(d.education[0].study_type, "本科");
    assert_eq!(d.education[0].end_date, "2010-2014");
}

#[test]
fn projects_and_highlights() {
    let d = resume_data_to_json_resume(&sample(), &PdfExportOptions::default());
    assert_eq!(d.projects.len(), 2);
    assert_eq!(d.projects[0].name, "-");
    assert_eq!(d.projects[0].highlights, vec!["性能 提升".to_string()]);
    assert_eq!(d.projects[1].name, "平台");
    assert_eq!(d.projects[1].description, "微服务 改造");
    assert!(d.projects[1].highlights.is_empty());
}

#[test]
fn skills_and_certificates() {
    let d = resume_data_to_json_resume(&sample(), &PdfExportOptions::default());
    assert_eq!(d.skills, vec!["Rust lang".to_string(), "Go".to_string()]);
    assert_eq!(d.certificates, vec!["A B".to_string(), "".to_string()]);
}

#[test]
fn basics_follow_options() {
    let all = resume_data_to_json_resume(&sample(), &PdfExportOptions::default());
    assert_eq!(all.basics.name, "张三");
    assert_eq!(all.basics.age, "-");
    assert_eq!(all.basics.gender, "男");
    assert_eq!(all.basics.phone, "138 0000 0000");
    let opts = PdfExportOptions {
        include_name: false,
        include_gender: true,
        include_age: false,
        include_contact: false,
        include_skills: false,
        theme_dir: String::new(),
    };
    let some = resume_data_to_json_resume(&sample(), &opts);
    assert_eq!(some.basics.name, "");
    assert_eq!(some.basics.age, "");
    assert_eq!(some.basics.phone, "");
    assert_eq!(some.basics.gender, "男");
    assert!(some.skills.is_empty());
}

#[test]
fn listed_fields_filled_law_example() {
    let d = resume_data_to_json_resume(&sample(), &PdfExportOptions::default());
    assert!(d.work.iter().all(|w| !w.name.is_empty() && !w.position.is_empty() && !w.end_date.is_empty()));
    assert!(d.projects.iter().all(|p| !p.name.is_empty()));
    assert!(d.work.len() <= 4);
}

#[test]
fn default_export_options() {
    let o = PdfExportOptions::default();
    assert!(o.include_name && o.include_gender && o.include_age && o.include_contact && o.include_skills);
    assert_eq!(o.theme_dir, "");
}
