use resume_manager::progress::{
    batch_result, daily_stats_days, ranking_event, recent_calls_limit, screening_done_event,
    screening_finished_event, screening_start_event,
};

#[test]
fn screening_run_opens_and_closes() {
    let start = screening_start_event();
    assert_eq!((start.current, start.total, start.done), (0, 0, false));
    assert_eq!(start.message, "正在提取 JD 结构化要求…");
    let end = screening_finished_event(3);
    assert_eq!((end.current, end.total, end.done), (4, 4, true));
    assert_eq!(end.message, "筛选完成");
    let empty = screening_finished_event(0);
    assert_eq!((empty.current, empty.total, empty.done), (1, 1, true));
}

#[test]
fn screening_events() {
    let e = screening_done_event(3);
    assert_eq!((e.current, e.total, e.done), (1, 4, false));
    assert_eq!(e.message, "初筛完成，进入 HR 精排（3 人）");
    let r = ranking_event(0, 3, "张三");
    assert_eq!((r.current, r.total), (2, 4));
    assert_eq!(r.message, "HR 精排 1/3：张三");
    let last = ranking_event(2, 3, "李四");
    assert_eq!(last.current, 4);
    assert_eq!(last.message, "HR 精排 3/3：李四");
}

#[test]
fn batch_outcomes() {
    let ok = batch_result("a.pdf".to_string(), Ok(()));
    assert!(ok.success);
    assert_eq!(ok.current_progress, 100);
    assert_eq!(ok.error, None);
    let bad = batch_result("b.docx".to_string(), Err("解析失败".to_string()));
    assert!(!bad.success);
    assert_eq!(bad.error, Some("解析失败".to_string()));
    assert_eq!(bad.file_path, "b.docx");
}

#[test]
fn token_query_bounds() {
    assert_eq!(recent_calls_limit(0), 1);
    assert_eq!(recent_calls_limit(50), 50);
    assert_eq!(recent_calls_limit(9999), 500);
    assert_eq!(daily_stats_days(0), 1);
    assert_eq!(daily_stats_days(30), 30);
    assert_eq!(daily_stats_days(1000), 365);
}
