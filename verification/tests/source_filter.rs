use resume_manager::llm::filter_resume_by_source_text;
use resume_manager::schema::{BasicInfo, ProjectItem, ResumeData, WorkItem};

fn work(company: &str, position: &str, period: &str, description: &str) -> WorkItem {
    WorkItem {
        company: company.to_string(),
        position: position.to_string(),
        period: period.to_string(),
        description: description.to_string(),
    }
}

fn project(name: &str, description: &str, achievements: &str) -> ProjectItem {
    ProjectItem {
        project_name: name.to_string(),
        project_description: description.to_string(),
        project_achievements: achievements.to_string(),
    }
}

fn resume(work: Vec<(&str, WorkItem)>, projects: Vec<(&str, ProjectItem)>) -> ResumeData {
    ResumeData {
        basic_info: BasicInfo {
            name: "张三".to_string(),
            age: "30".to_string(),
            contact: "138".to_string(),
            gender: "男".to_string(),
            education: vec![],
            skills: vec![],
            certificates: vec![],
        },
        work_experience: work.into_iter().map(|(k, v)| (k.to_string(), v)).collect(),
        project_experience: projects.into_iter().map(|(k, v)| (k.to_string(), v)).collect(),
    }
}

#[test]
fn source_filter_drops_unsupported_entries_and_renumbers() {
    let r = resume(
        vec![
            ("1", work("", "", "2019", "编造的经历内容")),
            ("2", work("", "", "2020", "负责支付系统的重构")),
        ],
        vec![
            ("1", project("", "无中生有的项目", "")),
            ("2", project("", "订单中心建设", "")),
        ],
    );
    let source = "工作经历：2020 负责支付系统的重构。项目：订单中心建设，成效显著。";
    let out = filter_resume_by_source_text(r, source);
    assert_eq!(out.basic_info.name, "张三");
    assert_eq!(out.work_experience.len(), 1);
    assert_eq!(out.work_experience[0].0, "1");
    assert_eq!(out.work_experience[0].1.description, "负责支付系统的重构");
    assert_eq!(out.project_experience.len(), 1);
    assert_eq!(out.project_experience[0].0, "1");
    assert_eq!(out.project_experience[0].1.project_description, "订单中心建设");
}

#[test]
fn source_filter_keeps_named_entries() {
    let r = resume(
        vec![
            ("1", work("甲公司", "", "", "原文没有的描述")),
            ("2", work("", "工程师", "", "同样没有")),
            ("3", work("", "", "", "也没有的内容")),
        ],
        vec![("1", project("平台", "", "")), ("2", project("", "不存在的项目描述", ""))],
    );
    let out = filter_resume_by_source_text(r, "完全无关的原文");
    let companies: Vec<&str> = out.work_experience.iter().map(|(_, w)| w.company.as_str()).collect();
    let positions: Vec<&str> = out.work_experience.iter().map(|(_, w)| w.position.as_str()).collect();
    assert_eq!(companies, vec!["甲公司", ""]);
    assert_eq!(positions, vec!["", "工程师"]);
    let names: Vec<&str> = out.project_experience.iter().map(|(_, p)| p.project_name.as_str()).collect();
    assert_eq!(names, vec!["平台"]);
}

#[test]
fn source_filter_never_empties_a_section() {
    let r = resume(
        vec![("5", work("", "", "", "原文找不到这段经历"))],
        vec![("7", project("", "原文找不到这个项目", ""))],
    );
    let out = filter_resume_by_source_text(r, "别的内容");
    assert_eq!(out.work_experience.len(), 1);
    assert_eq!(out.work_experience[0].0, "5");
    assert_eq!(out.project_experience.len(), 1);
    assert_eq!(out.project_experience[0].0, "7");
}
