use resume_manager::model_reply::{
    hr_score_from_reply, match_score_from_reply, word_batch_step, word_extension, BatchCounts,
    BatchStep,
};

#[test]
fn hr_reply_read_and_bounded() {
    let reply = r#"{"totalScore": 120, "breakdown": {"skillScore": 80, "yearsScore": -5, "degreeScore": 100, "workScore": 60}, "rationale": "  good fit  ", "matchedKeywords": ["a", " ", "b", 3], "totalKeywords": 7}"#;
    let h = hr_score_from_reply(reply).ok().unwrap();
    assert_eq!(h.total_score, 100);
    assert_eq!(h.breakdown.skill_score, 80);
    assert_eq!(h.breakdown.years_score, 0);
    assert_eq!(h.breakdown.degree_score, 100);
    assert_eq!(h.breakdown.work_score, 60);
    assert_eq!(h.breakdown.project_score, 0);
    assert_eq!(h.breakdown.rationale, "good fit");
    assert_eq!(h.matched_keywords, vec!["a".to_string(), "b".to_string()]);
    assert_eq!(h.total_keywords, 7);
}

#[test]
fn hr_reply_defaults() {
    let h = hr_score_from_reply("{}").ok().unwrap();
    assert_eq!(h.total_score, 0);
    assert_eq!(h.breakdown.rationale, "");
    assert!(h.matched_keywords.is_empty());
    assert_eq!(h.total_keywords, 5);
}

#[test]
fn hr_reply_keeps_twelve_phrases() {
    let items: Vec<String> = (0..15).map(|i| format!("\"k{}\"", i)).collect();
    let reply = format!("{{\"matchedKeywords\": [{}]}}", items.join(","));
    let h = hr_score_from_reply(&reply).ok().unwrap();
    assert_eq!(h.matched_keywords.len(), 12);
    assert_eq!(h.matched_keywords[11], "k11");
}

#[test]
fn hr_reply_not_json() {
    let e = hr_score_from_reply("not json").err().unwrap();
    assert!(e.starts_with("HR 评估 JSON 解析失败："));
    assert!(e.len() > "HR 评估 JSON 解析失败：".len());
}

#[test]
fn match_reply_read() {
    let m = match_score_from_reply(r#"{"score": 55, "matchedKeywords": ["x", " ", 1, "y"]}"#).ok().unwrap();
    assert_eq!(m.score, 55);
    assert_eq!(m.matched_keywords, vec!["x".to_string(), " ".to_string(), "y".to_string()]);
    assert_eq!(m.total_keywords, 0);
    let low = match_score_from_reply(r#"{"score": -3, "totalKeywords": 9}"#).ok().unwrap();
    assert_eq!(low.score, 0);
    assert_eq!(low.total_keywords, 9);
    let e = match_score_from_reply("{").err().unwrap();
    assert!(e.starts_with("模型评分 JSON 解析失败："));
}

fn counts(c: u32, s: u32, f: u32) -> BatchCounts {
    BatchCounts { converted: c, skipped: s, failed: f }
}

#[test]
fn batch_lines() {
    match word_batch_step(counts(0, 0, 0), r#"  {"type":"done","converted":3,"skipped":1,"failed":2}  "#) {
        BatchStep::Continue(c) => assert_eq!((c.converted, c.skipped, c.failed), (3, 1, 2)),
        BatchStep::Fail(_) => panic!("done line expected to continue"),
    }
    match word_batch_step(counts(1, 1, 1), r#"{"type":"progress","current":1}"#) {
        BatchStep::Continue(c) => assert_eq!((c.converted, c.skipped, c.failed), (1, 1, 1)),
        BatchStep::Fail(_) => panic!("progress line expected to continue"),
    }
    match word_batch_step(counts(1, 0, 0), "garbage") {
        BatchStep::Continue(c) => assert_eq!(c.converted, 1),
        BatchStep::Fail(_) => panic!("non-JSON line expected to continue"),
    }
    match word_batch_step(counts(0, 0, 0), r#"{"type":"error","message":"no Word"}"#) {
        BatchStep::Fail(m) => assert_eq!(m, "no Word"),
        BatchStep::Continue(_) => panic!("error line expected to fail"),
    }
    match word_batch_step(counts(0, 0, 0), r#"{"type":"error"}"#) {
        BatchStep::Fail(m) => assert_eq!(m, "Word 启动失败"),
        BatchStep::Continue(_) => panic!("error line expected to fail"),
    }
}

#[test]
fn word_extensions() {
    assert!(word_extension("DOCX"));
    assert!(word_extension("doc"));
    assert!(!word_extension("pdf"));
    assert!(!word_extension(""));
}
