use resume_manager::model_reply::HrScore;
use resume_manager::schema::{
    BasicInfo, JdScoreBreakdown, ParsedJdScoreRecord, ParsedResultRecord, ResumeData, ResumeRecord,
};
use resume_manager::screening::{
    apply_hr_score, candidate_dedupe_key, clamp_limit, delete_plan, final_ranking, found_ids,
    next_score_source, parsed_row_linked, rank_by_score, rerank_pool_size, ScoreSource,
};

fn breakdown(skill: i32) -> JdScoreBreakdown {
    JdScoreBreakdown {
        skill_score: skill,
        years_score: 0,
        degree_score: 0,
        work_score: 0,
        project_score: 0,
        rationale: String::new(),
    }
}

fn rec(id: &str, name: &str, score: i32) -> ParsedJdScoreRecord {
    ParsedJdScoreRecord {
        parsed_id: id.to_string(),
        resume_id: None,
        candidate_name: name.to_string(),
        source_file: format!("{}.pdf", id),
        age: String::new(),
        contact: String::new(),
        position: String::new(),
        degree: String::new(),
        work_years: String::new(),
        skills: Vec::new(),
        json_path: String::new(),
        jd_screening_json_path: String::new(),
        score,
        score_breakdown: breakdown(score),
        matched_keywords: Vec::new(),
        total_keywords: 0,
    }
}

fn ids(v: &[ParsedJdScoreRecord]) -> Vec<String> {
    v.iter().map(|r| r.parsed_id.clone()).collect()
}

#[test]
fn ranking_by_score_is_stable() {
    let r = rank_by_score(vec![rec("a", "A", 50), rec("b", "B", 80), rec("c", "C", 50), rec("d", "D", 90)]);
    assert_eq!(ids(&r), vec!["d", "b", "a", "c"]);
    let scores: Vec<i32> = r.iter().map(|x| x.score).collect();
    assert!(scores.windows(2).all(|w| w[0] >= w[1]));
}

#[test]
fn final_ranking_truncates() {
    let r = final_ranking(vec![rec("a", "A", 1), rec("b", "B", 3), rec("c", "C", 2)], 2);
    assert_eq!(ids(&r), vec!["b", "c"]);
    let all = final_ranking(vec![rec("a", "A", 1)], 5);
    assert_eq!(ids(&all), vec!["a"]);
}

#[test]
fn limits() {
    assert_eq!(clamp_limit(0), 10);
    assert_eq!(clamp_limit(-4), 10);
    assert_eq!(clamp_limit(37), 37);
    assert_eq!(clamp_limit(500), 200);
    assert_eq!(rerank_pool_size(0), 25);
    assert_eq!(rerank_pool_size(200), 200);
    assert_eq!(rerank_pool_size(201), 25);
    assert_eq!(rerank_pool_size(40), 40);
}

#[test]
fn dedupe_keys() {
    let mut x = rec("p1", " Li Lei ", 1);
    assert_eq!(candidate_dedupe_key(&x).iter().collect::<String>(), "li lei|p1.pdf");
    x.age = "30".to_string();
    x.contact = "+86 138-0013-8000".to_string();
    assert_eq!(candidate_dedupe_key(&x).iter().collect::<String>(), "li lei|30|13800138000");
    x.resume_id = Some("  r-9 ".to_string());
    assert_eq!(candidate_dedupe_key(&x).iter().collect::<String>(), "r-9");
}

#[test]
fn model_score_replaces_keyword_score() {
    let h = HrScore {
        total_score: 77,
        breakdown: breakdown(66),
        matched_keywords: vec!["rust".to_string()],
        total_keywords: 4,
    };
    let r = apply_hr_score(rec("a", "A", 20), Some(h));
    assert_eq!(r.score, 77);
    assert_eq!(r.score_breakdown.skill_score, 66);
    assert_eq!(r.matched_keywords, vec!["rust".to_string()]);
    assert_eq!(r.total_keywords, 4);
    let kept = apply_hr_score(rec("b", "B", 20), None);
    assert_eq!(kept.score, 20);
    assert_eq!(kept.score_breakdown.skill_score, 20);
    assert_eq!(kept.parsed_id, "b");
}

fn entry(id: &str, source: &str, name: &str) -> ResumeRecord {
    ResumeRecord {
        id: id.to_string(),
        created_at: String::new(),
        source_file: source.to_string(),
        file_name: String::new(),
        data: ResumeData {
            basic_info: BasicInfo {
                name: name.to_string(),
                age: String::new(),
                contact: String::new(),
                gender: String::new(),
                education: Vec::new(),
                skills: Vec::new(),
                certificates: Vec::new(),
            },
            work_experience: Vec::new(),
            project_experience: Vec::new(),
        },
    }
}

fn parsed_row(resume_id: Option<&str>, source: &str, name: &str) -> ParsedResultRecord {
    ParsedResultRecord {
        id: "p1".to_string(),
        created_at: String::new(),
        imported_date: String::new(),
        resume_id: resume_id.map(|s| s.to_string()),
        source_file: source.to_string(),
        candidate_name: name.to_string(),
        age: String::new(),
        contact: String::new(),
        position: String::new(),
        degree: String::new(),
        work_years: String::new(),
        skills: Vec::new(),
        json_path: String::new(),
        jd_screening_json_path: String::new(),
    }
}

#[test]
fn deletion_counts_ids_found_once() {
    let ids = vec![" r1 ".to_string(), "r2".to_string(), "".to_string(), "r1".to_string(), "x".to_string()];
    let plan = delete_plan(&ids);
    assert_eq!(plan, vec!["r1".to_string(), "r2".to_string(), "x".to_string()]);
    let library = vec!["r2".to_string(), "r1".to_string(), "r3".to_string()];
    assert_eq!(found_ids(&plan, &library), vec!["r1".to_string(), "r2".to_string()]);
    assert!(found_ids(&plan, &Vec::new()).is_empty());
}

#[test]
fn parsed_rows_linked_to_a_deleted_entry() {
    let target = entry("r1", " /a/张三.pdf ", " 张三 ");
    assert!(parsed_row_linked(&parsed_row(Some("r1"), "/b.pdf", "李四"), &target));
    assert!(parsed_row_linked(&parsed_row(None, "/a/张三.pdf", "张三"), &target));
    assert!(!parsed_row_linked(&parsed_row(None, "/a/张三.pdf", "李四"), &target));
    assert!(!parsed_row_linked(&parsed_row(Some("r2"), "/b.pdf", "张三"), &target));
    assert!(!parsed_row_linked(&parsed_row(None, " /a/张三.pdf ", "张三"), &target));
    let nameless = entry("r1", "/a/x.pdf", "  ");
    assert!(parsed_row_linked(&parsed_row(None, "/a/x.pdf", "王五"), &nameless));
}

#[test]
fn model_shown_index_then_resume() {
    assert_eq!(next_score_source(None, true, true), Some(ScoreSource::Index));
    assert_eq!(next_score_source(Some(ScoreSource::Index), true, true), Some(ScoreSource::Resume));
    assert_eq!(next_score_source(Some(ScoreSource::Resume), true, true), None);
    assert_eq!(next_score_source(None, false, true), Some(ScoreSource::Resume));
    assert_eq!(next_score_source(None, false, false), None);
    assert_eq!(next_score_source(Some(ScoreSource::Index), true, false), None);
}
