//! What long runs report as they go: the progress of a screening run, the
//! outcome of each file of a batch import, and the bounds of token-usage
//! queries.

use crate::llm::TokenUsageRecord;
use crate::numbers::{decimal, usize_decimal};
use crate::text::{append_chars, chars_to_string, str_chars};
use vstd::prelude::*;

verus! {

/// A step of a screening run.
pub struct JdFilterProgressEvent {
    pub current: u32,
    pub total: u32,
    pub message: String,
    pub done: bool,
}

/// The event that opens a screening run, before the requirements are read from
/// the job description: step 0 of 0, not done.
pub fn screening_start_event() -> (r: JdFilterProgressEvent)
    ensures
        r.current == 0,
        r.total == 0,
        r.message@ == "正在提取 JD 结构化要求…"@,
        !r.done,
{
    JdFilterProgressEvent { current: 0, total: 0, message: chars_to_string(&str_chars("正在提取 JD 结构化要求…")), done: false }
}

/// The event that closes a successful screening run of `n` ranked candidates:
/// the last step, `n + 1` of `n + 1`, done.
pub fn screening_finished_event(n: u32) -> (r: JdFilterProgressEvent)
    requires
        n < u32::MAX,
    ensures
        r.current == n + 1,
        r.total == n + 1,
        r.message@ == "筛选完成"@,
        r.done,
{
    JdFilterProgressEvent { current: n + 1, total: n + 1, message: chars_to_string(&str_chars("筛选完成")), done: true }
}

/// The event that ends the keyword screening: step 1, with the number of
/// candidates going on to the model ranking.
pub fn screening_done_event(n: u32) -> (r: JdFilterProgressEvent)
    requires
        n < u32::MAX,
    ensures
        r.current == 1,
        r.total == n + 1,
        r.message@ == "初筛完成，进入 HR 精排（"@ + decimal(n as nat) + " 人）"@,
        !r.done,
{
    let mut m = str_chars("初筛完成，进入 HR 精排（");
    append_chars(&mut m, &usize_decimal(n as usize));
    append_chars(&mut m, &str_chars(" 人）"));
    JdFilterProgressEvent { current: 1, total: n + 1, message: chars_to_string(&m), done: false }
}

/// The event for the model ranking of candidate `i` (from 0) of `n`: step
/// `i + 2`, with the candidate's name.
pub fn ranking_event(i: u32, n: u32, name: &str) -> (r: JdFilterProgressEvent)
    requires
        i < n < u32::MAX,
    ensures
        r.current == i + 2,
        r.total == n + 1,
        r.message@ == "HR 精排 "@ + decimal((i + 1) as nat) + "/"@ + decimal(n as nat) + "："@ + name@,
        !r.done,
{
    let mut m = str_chars("HR 精排 ");
    append_chars(&mut m, &usize_decimal((i + 1) as usize));
    append_chars(&mut m, &str_chars("/"));
    append_chars(&mut m, &usize_decimal(n as usize));
    append_chars(&mut m, &str_chars("："));
    append_chars(&mut m, &str_chars(name));
    JdFilterProgressEvent { current: i + 2, total: n + 1, message: chars_to_string(&m), done: false }
}

/// A file handed to a batch import, with its extracted text.
pub struct BatchParseItem {
    pub file_path: String,
    pub text: String,
}

/// The outcome of one file of a batch import.
pub struct BatchParseResult {
    pub file_path: String,
    pub success: bool,
    pub current_progress: u32,
    pub error: Option<String>,
}

/// The outcome of a file: successful when it was parsed and saved, else with
/// the error; each file is reported at full progress.
pub fn batch_result(file_path: String, outcome: Result<(), String>) -> (r: BatchParseResult)
    ensures
        r.file_path == file_path,
        r.current_progress == 100,
        r.success == outcome is Ok,
        match outcome {
            Ok(_) => r.error is None,
            Err(e) => r.error == Some(e),
        },
{
    match outcome {
        Ok(_) => BatchParseResult { file_path, success: true, current_progress: 100, error: None },
        Err(e) => BatchParseResult { file_path, success: false, current_progress: 100, error: Some(e) },
    }
}

/// Token use summed over all calls, per provider, and the latest calls.
pub struct TokenStats {
    pub total_prompt_tokens: i64,
    pub total_completion_tokens: i64,
    pub total_tokens: i64,
    pub call_count: i64,
    pub by_provider: Vec<ProviderTokenStat>,
    pub recent: Vec<TokenUsageRecord>,
}

pub struct ProviderTokenStat {
    pub provider: String,
    pub total_tokens: i64,
    pub call_count: i64,
}

pub struct DailyTokenStat {
    pub date: String,
    pub total_tokens: i64,
    pub prompt_tokens: i64,
    pub completion_tokens: i64,
    pub call_count: i64,
}

pub struct ModelTokenStat {
    pub model: String,
    pub provider: String,
    pub total_tokens: i64,
    pub prompt_tokens: i64,
    pub completion_tokens: i64,
    pub call_count: i64,
}

/// How many recent calls are listed: the request kept within 1..=500.
pub fn recent_calls_limit(limit: usize) -> (r: usize)
    ensures
        r == if limit < 1 {
            1
        } else if limit > 500 {
            500
        } else {
            limit
        },
{
    if limit < 1 {
        1
    } else if limit > 500 {
        500
    } else {
        limit
    }
}

/// How many days of daily totals are listed: the request kept within 1..=365.
pub fn daily_stats_days(days: usize) -> (r: usize)
    ensures
        r == if days < 1 {
            1
        } else if days > 365 {
            365
        } else {
            days
        },
{
    if days < 1 {
        1
    } else if days > 365 {
        365
    } else {
        days
    }
}

} // verus!
