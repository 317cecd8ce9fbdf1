use resume_manager::repair::{repair_resume_value, Json};

fn s(t: &str) -> Json {
    Json::Str(t.to_string())
}

fn other(t: &str) -> Json {
    Json::Other(t.to_string())
}

fn obj(members: Vec<(&str, Json)>) -> Json {
    let mut m: Vec<(String, Json)> = members.into_iter().map(|(k, v)| (k.to_string(), v)).collect();
    m.sort_by(|a, b| a.0.cmp(&b.0));
    Json::Object(m, String::new())
}

fn arr(items: Vec<Json>) -> Json {
    Json::Array(items, String::new())
}

fn get<'a>(j: &'a Json, k: &str) -> Option<&'a Json> {
    match j {
        Json::Object(m, _) => m.iter().find(|(key, _)| key == k).map(|(_, v)| v),
        _ => None,
    }
}

fn field<'a>(j: &'a Json, k: &str) -> &'a Json {
    get(j, k).unwrap_or_else(|| panic!("missing member {}", k))
}

fn text(j: &Json) -> &str {
    match j {
        Json::Str(t) => t.as_str(),
        _ => panic!("not a string"),
    }
}

fn items(j: &Json) -> &Vec<Json> {
    match j {
        Json::Array(v, _) => v,
        _ => panic!("not an array"),
    }
}

fn keys(j: &Json) -> Vec<String> {
    match j {
        Json::Object(m, _) => m.iter().map(|(k, _)| k.clone()).collect(),
        _ => panic!("not an object"),
    }
}

#[test]
fn repair_leaves_non_object_alone() {
    let r = repair_resume_value(s("plain"));
    assert_eq!(text(&r), "plain");
    let r = repair_resume_value(other("42"));
    assert!(matches!(r, Json::Other(ref t) if t == "42"));
}

#[test]
fn repair_unwraps_and_renames_sections() {
    let inner = obj(vec![
        ("basic_info", obj(vec![("name", s("张三")), ("phone", s("13800000000"))])),
        ("work_experience", arr(vec![obj(vec![("company", s("甲公司"))])])),
    ]);
    let r = repair_resume_value(obj(vec![("resumeData", inner)]));
    assert!(get(&r, "resumeData").is_none());
    let basic = field(&r, "basicInfo");
    assert_eq!(text(field(basic, "name")), "张三");
    assert_eq!(text(field(basic, "contact")), "13800000000");
    assert!(get(basic, "phone").is_none());
    assert_eq!(text(field(basic, "age")), "");
    assert_eq!(text(field(basic, "gender")), "");
    assert!(items(field(basic, "skills")).is_empty());
    assert!(items(field(basic, "certificates")).is_empty());
    let edu = items(field(basic, "education"));
    assert_eq!(edu.len(), 1);
    for k in ["school", "major", "degree", "period"] {
        assert_eq!(text(field(&edu[0], k)), "");
    }
    // A section that is not an object is replaced by an empty one before
    // its entries are numbered, so an array of entries is dropped.
    assert!(keys(field(&r, "workExperience")).is_empty());
    assert!(keys(field(&r, "projectExperience")).is_empty());
}

#[test]
fn repair_turns_certificates_into_texts() {
    let basic = obj(vec![(
        "certificates",
        arr(vec![
            obj(vec![("name", s("PMP")), ("period", s("2020"))]),
            obj(vec![("name", s(" ")), ("period", s(""))]),
            obj(vec![("period", s(" 2019 "))]),
            s("   "),
            s("CET-6"),
            other("5"),
        ]),
    )]);
    let r = repair_resume_value(obj(vec![("basicInfo", basic)]));
    let certs: Vec<&str> = items(field(field(&r, "basicInfo"), "certificates")).iter().map(text).collect();
    assert_eq!(certs, vec!["PMP（2020）", "2019", "CET-6"]);
}

#[test]
fn repair_takes_basic_fields_from_top_level() {
    let r = repair_resume_value(obj(vec![
        ("basicInfo", obj(vec![("name", s("  ")), ("skills", arr(vec![]))])),
        ("name", s("李四")),
        ("age", other("30")),
        ("skills", arr(vec![s("Rust")])),
        ("education", obj(vec![("school", s("某大学"))])),
    ]));
    let basic = field(&r, "basicInfo");
    assert_eq!(text(field(basic, "name")), "李四");
    assert_eq!(text(field(basic, "age")), "30");
    let skills: Vec<&str> = items(field(basic, "skills")).iter().map(text).collect();
    assert_eq!(skills, vec!["Rust"]);
    let edu = items(field(basic, "education"));
    assert_eq!(edu.len(), 1);
    assert_eq!(text(field(&edu[0], "school")), "某大学");
    assert_eq!(text(field(&edu[0], "degree")), "");
}

#[test]
fn repair_moves_lists_out_of_basic_info() {
    let r = repair_resume_value(obj(vec![(
        "basicInfo",
        obj(vec![
            ("name", s("王五")),
            ("project_experience", arr(vec![s("做了一个系统")])),
            ("workExperience", obj(vec![("company", s("乙公司"))])),
        ]),
    )]));
    let basic = field(&r, "basicInfo");
    assert!(get(basic, "workExperience").is_none());
    assert!(get(basic, "project_experience").is_none());
    let work = field(&r, "workExperience");
    assert_eq!(keys(work), vec!["1".to_string()]);
    let first = field(work, "1");
    assert_eq!(text(field(first, "company")), "乙公司");
    for k in ["position", "period", "description"] {
        assert_eq!(text(field(first, k)), "");
    }
    assert!(keys(field(&r, "projectExperience")).is_empty());
}

#[test]
fn repair_keeps_numbered_entries_and_fills_them() {
    let r = repair_resume_value(obj(vec![
        (
            "workExperience",
            obj(vec![("10", obj(vec![("company", s("c9"))])), ("2", s("负责后端"))]),
        ),
        ("projectExperience", obj(vec![("2", obj(vec![("projectName", s("P"))])), ("x", other("1"))])),
    ]));
    let work = field(&r, "workExperience");
    assert_eq!(keys(work), vec!["10".to_string(), "2".to_string()]);
    assert_eq!(text(field(field(work, "10"), "company")), "c9");
    assert_eq!(text(field(field(work, "10"), "description")), "");
    assert_eq!(text(field(field(work, "2"), "description")), "负责后端");
    assert_eq!(text(field(field(work, "2"), "company")), "");
    let proj = field(&r, "projectExperience");
    assert_eq!(keys(proj), vec!["1".to_string()]);
    let inner = field(proj, "1");
    assert_eq!(keys(inner), vec![
        "2".to_string(),
        "projectAchievements".to_string(),
        "projectDescription".to_string(),
        "projectName".to_string(),
        "x".to_string(),
    ]);
}

#[test]
fn repair_makes_non_string_basic_fields_text() {
    let r = repair_resume_value(obj(vec![(
        "basicInfo",
        Json::Object(
            vec![("age".to_string(), other("28")), ("gender".to_string(), other("null"))],
            String::new(),
        ),
    )]));
    let basic = field(&r, "basicInfo");
    assert_eq!(text(field(basic, "age")), "28");
    assert_eq!(text(field(basic, "gender")), "null");
}
