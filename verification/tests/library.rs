use resume_manager::library::{
    extract_primary_position, extract_skills, extract_top_degree, fallback_identity_key,
    identity_key, parse_period_start, parsed_records_to_replace, parsed_result_record,
    merge_resume_data, plan_resume_save, work_months,
};
use resume_manager::schema::{BasicInfo, EducationItem, ParsedResultRecord, ResumeData, WorkItem};

fn work(position: &str, period: &str) -> WorkItem {
    WorkItem {
        company: "公司".to_string(),
        position: position.to_string(),
        period: period.to_string(),
        description: String::new(),
    }
}

fn edu(degree: &str) -> EducationItem {
    EducationItem {
        school: "某大学".to_string(),
        major: "计算机".to_string(),
        degree: degree.to_string(),
        period: String::new(),
    }
}

fn person(name: &str, age: &str, contact: &str) -> ResumeData {
    ResumeData {
        basic_info: BasicInfo {
            name: name.to_string(),
            age: age.to_string(),
            contact: contact.to_string(),
            gender: String::new(),
            education: vec![edu("本科"), edu(" 硕士 "), edu("")],
            skills: vec![" Rust ".to_string(), "Go".to_string(), "Rust".to_string(), " ".to_string()],
            certificates: Vec::new(),
        },
        work_experience: vec![
            ("1".to_string(), work("  ", "2020.01-至今")),
            ("2".to_string(), work(" 后端工程师 ", "2019.03-2020.01")),
        ],
        project_experience: Vec::new(),
    }
}

fn parsed(id: &str, resume_id: Option<&str>, name: &str, age: &str, contact: &str, source: &str) -> ParsedResultRecord {
    ParsedResultRecord {
        id: id.to_string(),
        created_at: String::new(),
        imported_date: String::new(),
        resume_id: resume_id.map(|s| s.to_string()),
        source_file: source.to_string(),
        candidate_name: name.to_string(),
        age: age.to_string(),
        contact: contact.to_string(),
        position: String::new(),
        degree: String::new(),
        work_years: String::new(),
        skills: Vec::new(),
        json_path: String::new(),
        jd_screening_json_path: String::new(),
    }
}

#[test]
fn identity_keys() {
    assert_eq!(identity_key(" Zhang ", " 28 ", "tel: 138-0013-8000"), Some("zhang|28|13800138000".to_string()));
    assert_eq!(identity_key("张三", "", "13800138000"), None);
    assert_eq!(fallback_identity_key(" Zhang ", " CV.PDF "), Some("zhang|cv.pdf".to_string()));
    assert_eq!(fallback_identity_key(" ", ""), None);
}

#[test]
fn period_starts() {
    assert_eq!(parse_period_start("2019.03-2021.05"), Some((2019, 3)));
    assert_eq!(parse_period_start("工作 1990年"), Some((1990, 1)));
    assert_eq!(parse_period_start("3000-2019.13"), Some((2019, 1)));
    assert_eq!(parse_period_start("abc"), None);
    assert_eq!(parse_period_start("至今"), None);
}

#[test]
fn months_of_work() {
    let d = person("张三", "28", "13800138000");
    assert_eq!(work_months(&d, 2024, 6), Some(63));
    let mut none = person("张三", "28", "");
    none.work_experience = vec![("1".to_string(), work("x", "至今"))];
    assert_eq!(work_months(&none, 2024, 6), None);
}

#[test]
fn record_fields_from_resume() {
    let d = person(" 张三 ", " 28 ", " 13800138000 ");
    assert_eq!(extract_primary_position(&d), "后端工程师");
    assert_eq!(extract_top_degree(&d), "硕士");
    assert_eq!(extract_skills(&d), vec!["Rust".to_string(), "Go".to_string()]);
    let r = parsed_result_record(
        "parsed-1".to_string(),
        "100".to_string(),
        "2024-06-01".to_string(),
        "cv.pdf".to_string(),
        "  ".to_string(),
        &d,
        "5.3年".to_string(),
    );
    assert_eq!(r.resume_id, None);
    assert_eq!(r.candidate_name, "张三");
    assert_eq!(r.age, "28");
    assert_eq!(r.contact, "13800138000");
    assert_eq!(r.position, "后端工程师");
    assert_eq!(r.degree, "硕士");
    assert_eq!(r.work_years, "5.3年");
    assert_eq!(r.json_path, "");
    let with_id = parsed_result_record(
        "p".to_string(),
        String::new(),
        String::new(),
        String::new(),
        "r-1".to_string(),
        &d,
        String::new(),
    );
    assert_eq!(with_id.resume_id, Some("r-1".to_string()));
}

#[test]
fn earlier_parses_replaced() {
    let d = person(" 张三 ", "28", "13800138000");
    let existing = vec![
        parsed("a", Some("r-1"), "李四", "", "", "x.pdf"),
        parsed("b", None, "张三", "28", "+86 13800138000", "y.pdf"),
        parsed("c", None, "张三", "", "", "cv.pdf"),
        parsed("d", None, "王五", "30", "13900000000", "z.pdf"),
    ];
    assert_eq!(parsed_records_to_replace(&existing, "cv.pdf", "r-1", &d), vec![0, 1, 2]);
    assert_eq!(parsed_records_to_replace(&existing, "other.pdf", " ", &d), vec![1]);
}

#[test]
fn same_person_replaced_on_save() {
    let older = person("张三", "28", "138 0013 8000");
    let newer = person(" 张三 ", "28", "13800138000");
    let mut stranger = person("李四", "30", "13900000000");
    stranger.basic_info.education = Vec::new();
    let existing = vec![
        ("id-old".to_string(), "old.pdf".to_string(), older),
        ("id-other".to_string(), "other.pdf".to_string(), stranger),
    ];
    let (ids, _saved) = plan_resume_save(&existing, "new.pdf", newer);
    assert_eq!(ids, vec!["id-old".to_string()]);
}

#[test]
fn merge_compares_fields_as_tuples() {
    let mut older = person("张三", "30", "138");
    older.basic_info.education = vec![EducationItem {
        school: "a|b".to_string(),
        major: String::new(),
        degree: String::new(),
        period: String::new(),
    }];
    older.work_experience = vec![(
        "1".to_string(),
        WorkItem { company: "x|y".to_string(), position: String::new(), period: String::new(), description: String::new() },
    )];
    let mut newer = person("张三", "30", "138");
    newer.basic_info.education = vec![EducationItem {
        school: "a".to_string(),
        major: "b|".to_string(),
        degree: String::new(),
        period: String::new(),
    }];
    newer.work_experience = vec![(
        "1".to_string(),
        WorkItem { company: "x".to_string(), position: "y|".to_string(), period: String::new(), description: String::new() },
    )];
    let m = merge_resume_data(&older, &newer);
    assert_eq!(m.basic_info.education.len(), 2);
    assert_eq!(m.work_experience.len(), 2);
    let mut same = person("张三", "30", "138");
    same.basic_info.education = vec![EducationItem {
        school: " A|B ".to_string(),
        major: String::new(),
        degree: String::new(),
        period: String::new(),
    }];
    let m2 = merge_resume_data(&older, &same);
    assert_eq!(m2.basic_info.education.len(), 1);
}

#[test]
fn merged_work_listed_by_company_and_position_label() {
    let job = |company: &str, position: &str| WorkItem {
        company: company.to_string(),
        position: position.to_string(),
        period: String::new(),
        description: String::new(),
    };
    let mut older = person("张三", "30", "138");
    older.work_experience = vec![("1".to_string(), job("Tencent", "Dev")), ("2".to_string(), job("Alibaba", "PM"))];
    let mut newer = person("张三", "30", "138");
    newer.work_experience = vec![("1".to_string(), job("Tencent Music", "Dev")), ("2".to_string(), job(" tencent ", "dev"))];
    let m = merge_resume_data(&older, &newer);
    let listed: Vec<(String, String)> = m
        .work_experience
        .iter()
        .map(|(k, w)| (k.clone(), w.company.clone()))
        .collect();
    assert_eq!(
        listed,
        vec![
            ("1".to_string(), "Alibaba".to_string()),
            ("2".to_string(), "Tencent Music".to_string()),
            ("3".to_string(), "Tencent".to_string()),
        ]
    );
}
