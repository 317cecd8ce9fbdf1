use resume_manager::jd::{
    degree_rank, extract_keywords_v1, keyword_found, score_degree, score_v1,
    structured_keyword_hits, ResumeStructuredForScore,
};
use resume_manager::schema::{BasicInfo, ResumeData};

fn chars(s: &str) -> Vec<char> {
    s.chars().collect()
}

fn resume_with_skills(skills: &[&str]) -> ResumeData {
    ResumeData {
        basic_info: BasicInfo {
            name: "张三".to_string(),
            age: "28".to_string(),
            contact: String::new(),
            gender: "男".to_string(),
            education: Vec::new(),
            skills: skills.iter().map(|s| s.to_string()).collect(),
            certificates: Vec::new(),
        },
        work_experience: Vec::new(),
        project_experience: Vec::new(),
    }
}

#[test]
fn degree_ranks() {
    assert_eq!(degree_rank("博士"), 4);
    assert_eq!(degree_rank(" PhD "), 4);
    assert_eq!(degree_rank("硕士研究生"), 3);
    assert_eq!(degree_rank("本科"), 2);
    assert_eq!(degree_rank("College"), 1);
    assert_eq!(degree_rank("高中"), 0);
}

#[test]
fn degree_scores() {
    assert_eq!(score_degree(0, 0), 100);
    assert_eq!(score_degree(3, 4), 100);
    assert_eq!(score_degree(3, 2), 70);
    assert_eq!(score_degree(3, 1), 40);
    assert_eq!(score_degree(4, 1), 20);
}

#[test]
fn keywords_are_sorted_and_distinct() {
    let k = extract_keywords_v1("Java, Python, java");
    assert_eq!(k, vec!["java".to_string(), "python".to_string()]);
}

#[test]
fn keywords_mix_tokens_and_chunks() {
    let k = extract_keywords_v1("熟悉Java，Spring Boot；3年以上经验");
    assert_eq!(
        k,
        vec![
            "3年以上经验".to_string(),
            "boot".to_string(),
            "spring".to_string(),
            "熟悉java".to_string()
        ]
    );
}

#[test]
fn keywords_capped_at_eighty() {
    let mut jd = String::new();
    for i in 0..100 {
        jd.push_str(&format!("kw{:03} ", i));
    }
    let k = extract_keywords_v1(&jd);
    assert_eq!(k.len(), 80);
    assert_eq!(k[0], "kw000");
    assert_eq!(k[79], "kw079");
}

#[test]
fn pure_digit_chunks_dropped() {
    let k = extract_keywords_v1("2024，数据");
    assert_eq!(k, vec!["数据".to_string()]);
}

#[test]
fn whole_word_matching() {
    assert!(keyword_found(&chars("i use java daily"), &chars("Java")));
    assert!(!keyword_found(&chars("javascript only"), &chars("java")));
    assert!(keyword_found(&chars("c++ and go"), &chars("c++")));
    assert!(!keyword_found(&chars("anything"), &chars("   ")));
}

#[test]
fn cjk_bigram_matching() {
    assert!(keyword_found(&chars("资深数据分析师"), &chars("数据分析")));
    // two of five bigrams: below three fifths
    assert!(!keyword_found(&chars("数据平台"), &chars("数据分析平台")));
    // exactly three of five bigrams
    assert!(keyword_found(&chars("数据分析"), &chars("数据分析平台")));
    assert!(keyword_found(&chars("负责数据"), &chars("数")));
}

#[test]
fn mixed_keyword_is_substring() {
    assert!(keyword_found(&chars("x++开发y"), &chars("++开发")));
    assert!(!keyword_found(&chars("x+开发"), &chars("++开发")));
}

#[test]
fn score_counts_weights() {
    let r = resume_with_skills(&["Java", "Spring"]);
    let s = score_v1(&r, "Java, Spring, Python");
    assert_eq!(s.total_keywords, 3);
    assert_eq!(s.matched_keywords, vec!["java".to_string(), "spring".to_string()]);
    assert_eq!(s.score, 6 + 5);
}

#[test]
fn score_default_weight() {
    let r = resume_with_skills(&["数据分析"]);
    let s = score_v1(&r, "数据分析");
    assert_eq!(s.matched_keywords, vec!["数据分析".to_string()]);
    assert_eq!(s.score, 2);
}

#[test]
fn structured_hits() {
    let resume = ResumeStructuredForScore {
        degree: "本科".to_string(),
        work_years: "3年".to_string(),
        skills: vec!["Java".to_string(), " Redis ".to_string()],
        work_text: "负责 Kafka 消息平台".to_string(),
        project_text: String::new(),
    };
    let req = vec!["java".to_string(), "JAVA".to_string(), "Go".to_string()];
    let pref = vec!["redis".to_string()];
    let work = vec!["kafka".to_string()];
    let proj: Vec<String> = Vec::new();
    let h = structured_keyword_hits(&req, &pref, &work, &proj, &resume);
    assert_eq!(h.required_total, 2);
    assert_eq!(h.required_hit, 1);
    assert_eq!(h.preferred_hit, 1);
    assert_eq!(h.work_hit, 1);
    assert_eq!(h.project_total, 0);
    assert_eq!(h.total_keywords, 4);
    assert_eq!(
        h.matched_keywords,
        vec!["java".to_string(), "kafka".to_string(), "redis".to_string()]
    );
}

#[test]
fn structured_hits_empty_counts_one() {
    let resume = ResumeStructuredForScore {
        degree: String::new(),
        work_years: String::new(),
        skills: Vec::new(),
        work_text: String::new(),
        project_text: String::new(),
    };
    let e: Vec<String> = Vec::new();
    let h = structured_keyword_hits(&e, &e, &e, &e, &resume);
    assert_eq!(h.total_keywords, 1);
    assert!(h.matched_keywords.is_empty());
}

#[test]
fn jd_keywords_distinct_and_sorted() {
    let kws = extract_keywords_v1("Java Java、Rust；熟悉 Rust 与 Java，熟悉分布式系统\n熟悉分布式系统");
    let mut sorted = kws.clone();
    sorted.sort();
    sorted.dedup();
    assert_eq!(kws, sorted);
    assert!(kws.contains(&"java".to_string()));
    assert!(kws.contains(&"熟悉分布式系统".to_string()));
}

#[test]
fn mixed_keyword_matched_as_substring() {
    let text: Vec<char> = "5年vc++开发经验".chars().collect();
    let kw: Vec<char> = "C++开发".chars().collect();
    assert!(keyword_found(&text, &kw));
    let kw_en: Vec<char> = "c++".chars().collect();
    assert!(!keyword_found(&text, &kw_en));
}

#[test]
fn cjk_bigrams_stay_inside_runs() {
    let text: Vec<char> = "数据，平台".chars().collect();
    let across: Vec<char> = "据平".chars().collect();
    assert!(!keyword_found(&text, &across));
    let inside: Vec<char> = "数据平台".chars().collect();
    assert!(keyword_found(&text, &inside));
}
