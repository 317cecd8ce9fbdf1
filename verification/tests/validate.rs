use resume_manager::schema::{BasicInfo, EducationItem, ProjectItem, ResumeData, WorkItem};
use resume_manager::validate::{normalize_resume, normalize_resume_at};

fn basic(name: &str, age: &str) -> BasicInfo {
    BasicInfo {
        name: name.to_string(),
        age: age.to_string(),
        contact: " 138 ".to_string(),
        gender: " 男 ".to_string(),
        education: Vec::new(),
        skills: Vec::new(),
        certificates: vec![" PMP ".to_string(), "  ".to_string()],
    }
}

fn resume(name: &str, age: &str) -> ResumeData {
    ResumeData {
        basic_info: basic(name, age),
        work_experience: Vec::new(),
        project_experience: Vec::new(),
    }
}

fn work(company: &str, position: &str, period: &str, description: &str) -> WorkItem {
    WorkItem {
        company: company.to_string(),
        position: position.to_string(),
        period: period.to_string(),
        description: description.to_string(),
    }
}

fn project(name: &str) -> ProjectItem {
    ProjectItem {
        project_name: name.to_string(),
        project_description: String::new(),
        project_achievements: String::new(),
    }
}

fn name_of(raw: &str) -> String {
    normalize_resume_at(resume(raw, ""), 2024).basic_info.name
}

fn age_of(raw: &str) -> String {
    normalize_resume_at(resume("张三", raw), 2024).basic_info.age
}

#[test]
fn ages() {
    assert_eq!(age_of("25"), "25");
    assert_eq!(age_of("25岁"), "25岁");
    assert_eq!(age_of("1990"), "34");
    assert_eq!(age_of("1990.05"), "34");
    assert_eq!(age_of("1990年5月"), "34");
    assert_eq!(age_of("abc"), "abc");
    assert_eq!(age_of("  "), "");
    assert_eq!(age_of("2030"), "2030");
}

#[test]
fn names() {
    assert_eq!(name_of("张三(在职)"), "张三");
    assert_eq!(name_of("李四 - 离职"), "李四");
    assert_eq!(name_of("朱在职"), "朱");
    assert_eq!(name_of("john@x.com"), "");
    assert_eq!(name_of("138-0013-8000"), "");
    assert_eq!(name_of("男"), "");
    assert_eq!(name_of("abcd"), "");
    assert_eq!(name_of("John  Smith"), "John Smith");
    assert_eq!(name_of("王五 简历"), "王五");
    assert_eq!(name_of("王五 姓名 性别"), "王五");
    assert_eq!(name_of("__RM_PRIV_0001__"), "");
}

#[test]
fn basic_fields() {
    let r = normalize_resume_at(resume("张三", "28"), 2024);
    assert_eq!(r.basic_info.contact, "138");
    assert_eq!(r.basic_info.gender, "男");
    assert_eq!(r.basic_info.certificates, vec!["PMP".to_string()]);
    assert_eq!(r.basic_info.education.len(), 1);
    assert_eq!(r.basic_info.education[0].school, "");
    assert_eq!(r.work_experience.len(), 1);
    assert_eq!(r.work_experience[0].0, "1");
    assert_eq!(r.work_experience[0].1.company, "");
    assert_eq!(r.project_experience.len(), 1);
    assert_eq!(r.project_experience[0].0, "1");
}

#[test]
fn education_trimmed() {
    let mut r = resume("张三", "28");
    r.basic_info.education.push(EducationItem {
        school: " 北大 ".to_string(),
        major: " 计算机 ".to_string(),
        degree: " 本科 ".to_string(),
        period: " 2010-2014 ".to_string(),
    });
    let n = normalize_resume_at(r, 2024);
    assert_eq!(n.basic_info.education[0].school, "北大");
    assert_eq!(n.basic_info.education[0].period, "2010-2014");
}

#[test]
fn work_entries_merged_per_company() {
    let mut r = resume("张三", "28");
    r.work_experience = vec![
        ("1".to_string(), work(" A公司 ", "开发", "2019.01-2020.01 (12个月)", "x")),
        ("2".to_string(), work("A公司", "组长", "2020.02-2021.01", "y")),
        ("3".to_string(), work("B公司", "架构", "2015.01-2015.09  8 个月", "z")),
    ];
    let n = normalize_resume_at(r, 2024);
    assert_eq!(n.work_experience.len(), 2);
    assert_eq!(n.work_experience[0].0, "1");
    assert_eq!(n.work_experience[0].1.company, "A公司");
    assert_eq!(n.work_experience[0].1.position, "开发 / 组长");
    assert_eq!(n.work_experience[0].1.period, "2019.01-2020.01；2020.02-2021.01");
    assert_eq!(n.work_experience[0].1.description, "x\ny");
    assert_eq!(n.work_experience[1].0, "2");
    assert_eq!(n.work_experience[1].1.period, "2015.01-2015.09");
}

#[test]
fn entries_ordered_by_number() {
    let mut r = resume("张三", "28");
    r.work_experience = vec![
        ("10".to_string(), work("C", "", "", "")),
        ("2".to_string(), work("B", "", "", "")),
        ("x".to_string(), work("D", "", "", "")),
    ];
    let n = normalize_resume_at(r, 2024);
    let companies: Vec<String> = n.work_experience.iter().map(|p| p.1.company.clone()).collect();
    assert_eq!(companies, vec!["B", "C", "D"]);
}

#[test]
fn project_keys_in_string_order() {
    let mut r = resume("张三", "28");
    r.project_experience = (1..=11).map(|i| (format!("{}", i), project(&format!("p{}", i)))).collect();
    r.project_experience.sort_by(|a, b| a.0.cmp(&b.0));
    let n = normalize_resume_at(r, 2024);
    let keys: Vec<String> = n.project_experience.iter().map(|p| p.0.clone()).collect();
    assert_eq!(keys, vec!["1", "10", "11", "2", "3", "4", "5", "6", "7", "8", "9"]);
    assert_eq!(n.project_experience[1].1.project_name, "p10");
    assert_eq!(n.project_experience[3].1.project_name, "p2");
}

#[test]
fn skills_completed_from_texts() {
    let mut r = resume("张三", "28");
    r.basic_info.skills = vec![" java ".to_string(), "Java".to_string(), "".to_string()];
    r.work_experience = vec![("1".to_string(), work("A", "后端", "", "使用Java和Redis，部署于K8s"))];
    let n = normalize_resume_at(r, 2024);
    assert_eq!(
        n.basic_info.skills,
        vec!["java".to_string(), "Redis".to_string(), "K8S".to_string()]
    );
}

#[test]
fn current_year_normalization_keeps_text_fields() {
    let n = normalize_resume(resume(" 张三 ", "25"));
    assert_eq!(n.basic_info.name, "张三");
    assert_eq!(n.basic_info.age, "25");
}

#[test]
fn normalized_sections_keyed_by_position_with_distinct_companies() {
    let mut r = resume("张三", "28");
    r.work_experience = (0..11)
        .map(|i| (format!("{}", i + 1), work(&format!("公司{}", i % 10), "", "", "")))
        .collect();
    let n = normalize_resume_at(r, 2024);
    assert_eq!(n.work_experience.len(), 10);
    for i in 0..n.work_experience.len() {
        let key = (i + 1).to_string();
        assert!(n.work_experience.iter().any(|(k, _)| *k == key));
    }
    let mut companies: Vec<&str> = n.work_experience.iter().map(|(_, w)| w.company.as_str()).collect();
    companies.sort();
    companies.dedup();
    assert_eq!(companies.len(), 10);
    assert_eq!(n.project_experience.len(), 1);
    assert_eq!(n.project_experience[0].0, "1");
    assert_eq!(n.project_experience[0].1.project_name, "");
}

#[test]
fn normalized_empty_work_has_one_entry() {
    let n = normalize_resume_at(resume("张三", "28"), 2024);
    assert_eq!(n.work_experience.len(), 1);
    assert_eq!(n.work_experience[0].0, "1");
    assert_eq!(n.work_experience[0].1.company, "");
}
