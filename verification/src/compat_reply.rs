//! Talking to an OpenAI-compatible chat service: how thinking is switched off
//! per vendor, what a failed request is reported as, and what is taken from
//! the service's reply (the message text, or why there is none, and the
//! token counts). Sending the request is the caller's part.

use crate::json_read::{
    compact_json, json_compact_text, json_first_item_text, json_i64_field, json_member_text,
    json_object_member_text, json_str_field, read_first_item_text, read_i64_field,
    read_member_text, read_object_member_text, read_str_field,
};
use crate::llm::{check_json_syntax, json_syntax_error, vendor_display_name, OpenAiCompatVendor};
use crate::numbers::{decimal, usize_decimal};
use crate::text::{append_chars, chars_to_string, str_chars, trim, trim_chars};
use vstd::prelude::*;

verus! {

/// The name of a vendor in messages.
pub open spec fn vendor_name(v: OpenAiCompatVendor) -> Seq<char> {
    match v {
        OpenAiCompatVendor::LmStudio => "LM Studio"@,
        OpenAiCompatVendor::DeepSeek => "DeepSeek"@,
        OpenAiCompatVendor::DashScope => "DashScope"@,
        OpenAiCompatVendor::VolcArk => "火山方舟"@,
    }
}

fn vendor_name_exec(v: OpenAiCompatVendor) -> (r: Vec<char>)
    ensures
        r@ == vendor_name(v),
{
    str_chars(vendor_display_name(v))
}

/// How a request asks a vendor not to think before answering.
pub enum ThinkingSwitch {
    /// Nothing is added to the request.
    Unchanged,
    /// `"enable_thinking": false`.
    EnableThinkingOff,
    /// `"thinking": {"type": "disabled"}`.
    ThinkingDisabled,
}

/// DashScope takes `enable_thinking: false`, DeepSeek and Volcano Ark take
/// `thinking: disabled`; LM Studio, or a request that keeps thinking, takes
/// nothing.
pub fn thinking_switch(vendor: OpenAiCompatVendor, disable_thinking: bool) -> (r: ThinkingSwitch)
    ensures
        !disable_thinking ==> r is Unchanged,
        disable_thinking && vendor == OpenAiCompatVendor::DashScope ==> r is EnableThinkingOff,
        disable_thinking && (vendor == OpenAiCompatVendor::DeepSeek || vendor
            == OpenAiCompatVendor::VolcArk) ==> r is ThinkingDisabled,
        vendor == OpenAiCompatVendor::LmStudio ==> r is Unchanged,
{
    if !disable_thinking {
        return ThinkingSwitch::Unchanged;
    }
    match vendor {
        OpenAiCompatVendor::DashScope => ThinkingSwitch::EnableThinkingOff,
        OpenAiCompatVendor::DeepSeek | OpenAiCompatVendor::VolcArk => ThinkingSwitch::ThinkingDisabled,
        OpenAiCompatVendor::LmStudio => ThinkingSwitch::Unchanged,
    }
}

/// What a failed request is told to check, by vendor.
pub open spec fn error_hint(v: OpenAiCompatVendor, base_url: Seq<char>) -> Seq<char> {
    match v {
        OpenAiCompatVendor::LmStudio => "请确认已启动本地服务器且地址为："@ + base_url
            + "（OpenAI 兼容 /v1）；若偶发卡住，建议重试本批次。"@,
        OpenAiCompatVendor::DeepSeek => "请确认 llmApiKey / 环境变量 DEEPSEEK_API_KEY 正确，且可访问："@
            + base_url + "。"@,
        OpenAiCompatVendor::DashScope => "请确认 llmApiKey / 环境变量 DASHSCOPE_API_KEY 正确，且可访问："@
            + base_url + "（国际区可改 llamaCliPath 为国际 compatible-mode 地址）。"@,
        OpenAiCompatVendor::VolcArk => "请确认 llmApiKey / 环境变量 ARK_API_KEY 正确，且可访问："@
            + base_url + "（其他地域 endpoint 可改 llamaCliPath）。"@,
    }
}

/// The hint given with a failed request.
pub fn vendor_error_hint(v: OpenAiCompatVendor, base_url: &str) -> (r: String)
    ensures
        r@ == error_hint(v, base_url@),
{
    let (head, tail) = match v {
        OpenAiCompatVendor::LmStudio => ("请确认已启动本地服务器且地址为：", "（OpenAI 兼容 /v1）；若偶发卡住，建议重试本批次。"),
        OpenAiCompatVendor::DeepSeek => ("请确认 llmApiKey / 环境变量 DEEPSEEK_API_KEY 正确，且可访问：", "。"),
        OpenAiCompatVendor::DashScope => (
            "请确认 llmApiKey / 环境变量 DASHSCOPE_API_KEY 正确，且可访问：",
            "（国际区可改 llamaCliPath 为国际 compatible-mode 地址）。",
        ),
        OpenAiCompatVendor::VolcArk => ("请确认 llmApiKey / 环境变量 ARK_API_KEY 正确，且可访问：", "（其他地域 endpoint 可改 llamaCliPath）。"),
    };
    let mut s = str_chars(head);
    append_chars(&mut s, &str_chars(base_url));
    append_chars(&mut s, &str_chars(tail));
    chars_to_string(&s)
}

/// The message of a request that failed: with the HTTP status and the body
/// the service sent, or with the transport error.
pub open spec fn request_error(
    v: OpenAiCompatVendor,
    label: Seq<char>,
    attempts: nat,
    status: Option<(nat, Seq<char>)>,
    transport_error: Seq<char>,
    base_url: Seq<char>,
) -> Seq<char> {
    let detail = match status {
        Some((code, body)) => "status code "@ + decimal(code) + ": "@ + body,
        None => transport_error,
    };
    "调用 "@ + vendor_name(v) + " 失败（阶段："@ + label + "，已重试 "@ + decimal(attempts) + " 次）："@
        + detail + "。"@ + error_hint(v, base_url)
}

/// The message of a request that failed with an HTTP status (`status` with
/// the body), or without one (`transport_error`).
pub fn compat_request_error(
    v: OpenAiCompatVendor,
    label: &str,
    attempts: usize,
    status: Option<(u16, String)>,
    transport_error: &str,
    base_url: &str,
) -> (r: String)
    ensures
        r@ == request_error(
            v,
            label@,
            attempts as nat,
            match status {
                Some(p) => Some((p.0 as nat, p.1@)),
                None => None,
            },
            transport_error@,
            base_url@,
        ),
{
    let mut s = str_chars("调用 ");
    append_chars(&mut s, &vendor_name_exec(v));
    append_chars(&mut s, &str_chars(" 失败（阶段："));
    append_chars(&mut s, &str_chars(label));
    append_chars(&mut s, &str_chars("，已重试 "));
    append_chars(&mut s, &usize_decimal(attempts));
    append_chars(&mut s, &str_chars(" 次）："));
    match &status {
        Some((code, body)) => {
            append_chars(&mut s, &str_chars("status code "));
            let c: u16 = *code;
            append_chars(&mut s, &usize_decimal(c as usize));
            append_chars(&mut s, &str_chars(": "));
            append_chars(&mut s, &str_chars(body.as_str()));
        },
        None => append_chars(&mut s, &str_chars(transport_error)),
    }
    append_chars(&mut s, &str_chars("。"));
    append_chars(&mut s, &str_chars(vendor_error_hint(v, base_url).as_str()));
    chars_to_string(&s)
}

/// A text member, empty when absent.
pub open spec fn text_or_empty(o: Option<Seq<char>>) -> Seq<char> {
    match o {
        Some(s) => s,
        None => Seq::empty(),
    }
}

/// The reply text of a chat completion body, or why there is none: the
/// body is not JSON; the service reported an error; there is no first choice
/// or no message object; both the content and the reasoning are blank. The
/// content is preferred over the reasoning.
pub open spec fn reply_content(v: OpenAiCompatVendor, body: Seq<char>) -> Result<Seq<char>, Seq<char>> {
    let name = vendor_name(v);
    match json_syntax_error(body) {
        Some(e) => Err("解析 "@ + name + " 响应失败：Failed to read JSON: "@ + e),
        None => match json_member_text(body, "error"@) {
            Some(err) => Err(name + " 返回错误："@ + err),
            None => match json_first_item_text(body, "choices"@) {
                None => Err(name + " 响应缺少 choices[0]："@ + text_or_empty(json_compact_text(body))),
                Some(choice) => match json_object_member_text(choice, "message"@) {
                    None => Err(
                        name + " 响应缺少 choices[0].message："@ + text_or_empty(json_compact_text(body)),
                    ),
                    Some(m) => {
                        let content = text_or_empty(json_str_field(m, "content"@));
                        let reasoning = text_or_empty(json_str_field(m, "reasoning_content"@));
                        if trim(content).len() > 0 {
                            Ok(content)
                        } else if trim(reasoning).len() > 0 {
                            Ok(reasoning)
                        } else {
                            Err(
                                name + " 响应内容为空（content/reasoning_content 均为空，finish_reason="@
                                    + text_or_empty(json_str_field(choice, "finish_reason"@)) + "）"@,
                            )
                        }
                    },
                },
            },
        },
    }
}

fn text_or_empty_exec(o: Option<String>) -> (r: Vec<char>)
    ensures
        r@ == text_or_empty(
            match o {
                Some(s) => Some(s@),
                None => None,
            },
        ),
{
    match o {
        Some(s) => str_chars(s.as_str()),
        None => Vec::new(),
    }
}

fn joined(a: &Vec<char>, b: &str, c: &Vec<char>) -> (r: String)
    ensures
        r@ == a@ + b@ + c@,
{
    let mut s = a.clone();
    append_chars(&mut s, &str_chars(b));
    append_chars(&mut s, c);
    chars_to_string(&s)
}

/// The reply text of a chat completion body, as `reply_content` states it.
pub fn compat_reply_content(v: OpenAiCompatVendor, body: &str) -> (r: Result<String, String>)
    ensures
        match r {
            Ok(t) => reply_content(v, body@) == Ok::<Seq<char>, Seq<char>>(t@),
            Err(e) => reply_content(v, body@) == Err::<Seq<char>, Seq<char>>(e@),
        },
{
    let name = vendor_name_exec(v);
    match check_json_syntax(body) {
        Some(e) => {
            let mut s = str_chars("解析 ");
            append_chars(&mut s, &name);
            append_chars(&mut s, &str_chars(" 响应失败：Failed to read JSON: "));
            append_chars(&mut s, &str_chars(e.as_str()));
            return Err(chars_to_string(&s));
        },
        None => {},
    }
    assert(json_syntax_error(body@) is None);
    match read_member_text(body, "error") {
        Some(err) => {
            return Err(joined(&name, " 返回错误：", &str_chars(err.as_str())));
        },
        None => {},
    }
    assert(json_member_text(body@, "error"@) is None);
    let choice = match read_first_item_text(body, "choices") {
        Some(c) => c,
        None => {
            return Err(joined(&name, " 响应缺少 choices[0]：", &text_or_empty_exec(compact_json(body))));
        },
    };
    let m = match read_object_member_text(choice.as_str(), "message") {
        Some(m) => m,
        None => {
            return Err(
                joined(&name, " 响应缺少 choices[0].message：", &text_or_empty_exec(compact_json(body))),
            );
        },
    };
    let content = text_or_empty_exec(read_str_field(m.as_str(), "content"));
    let reasoning = text_or_empty_exec(read_str_field(m.as_str(), "reasoning_content"));
    assert(json_first_item_text(body@, "choices"@) == Some(choice@));
    assert(json_object_member_text(choice@, "message"@) == Some(m@));
    assert(content@ == text_or_empty(json_str_field(m@, "content"@)));
    assert(reasoning@ == text_or_empty(json_str_field(m@, "reasoning_content"@)));
    if trim_chars(&content).len() > 0 {
        Ok(chars_to_string(&content))
    } else if trim_chars(&reasoning).len() > 0 {
        Ok(chars_to_string(&reasoning))
    } else {
        let fin = text_or_empty_exec(read_str_field(choice.as_str(), "finish_reason"));
        let mut tail = fin.clone();
        append_chars(&mut tail, &str_chars("）"));
        let e = joined(&name, " 响应内容为空（content/reasoning_content 均为空，finish_reason=", &tail);
        assert(e@ =~= name@ + " 响应内容为空（content/reasoning_content 均为空，finish_reason="@ + fin@
            + "）"@);
        Err(e)
    }
}

/// A token count of the `usage` object of a reply, 0 when absent.
pub open spec fn usage_count(body: Seq<char>, key: Seq<char>) -> i64 {
    match json_member_text(body, "usage"@) {
        Some(u) => match json_i64_field(u, key) {
            Some(n) => n,
            None => 0,
        },
        None => 0,
    }
}

fn usage_count_exec(body: &str, key: &str) -> (r: i64)
    ensures
        r == usage_count(body@, key@),
{
    match read_member_text(body, "usage") {
        Some(u) => match read_i64_field(u.as_str(), key) {
            Some(n) => n,
            None => 0,
        },
        None => 0,
    }
}

/// The prompt, completion and total token counts a reply reports.
pub fn compat_reply_usage(body: &str) -> (r: (i64, i64, i64))
    ensures
        r == (
            usage_count(body@, "prompt_tokens"@),
            usage_count(body@, "completion_tokens"@),
            usage_count(body@, "total_tokens"@),
        ),
{
    (
        usage_count_exec(body, "prompt_tokens"),
        usage_count_exec(body, "completion_tokens"),
        usage_count_exec(body, "total_tokens"),
    )
}

/// The reply text of an Ollama generate body, or why there is none: the body
/// is not JSON, or it holds no `response` string.
pub open spec fn ollama_content(body: Seq<char>) -> Result<Seq<char>, Seq<char>> {
    match json_syntax_error(body) {
        Some(e) => Err("解析 Ollama 响应失败：Failed to read JSON: "@ + e),
        None => match json_str_field(body, "response"@) {
            Some(t) => Ok(t),
            None => Err("Ollama 响应缺少 response 字段："@ + text_or_empty(json_compact_text(body))),
        },
    }
}

pub fn ollama_reply_content(body: &str) -> (r: Result<String, String>)
    ensures
        match r {
            Ok(t) => ollama_content(body@) == Ok::<Seq<char>, Seq<char>>(t@),
            Err(e) => ollama_content(body@) == Err::<Seq<char>, Seq<char>>(e@),
        },
{
    match check_json_syntax(body) {
        Some(e) => {
            let mut s = str_chars("解析 Ollama 响应失败：Failed to read JSON: ");
            append_chars(&mut s, &str_chars(e.as_str()));
            return Err(chars_to_string(&s));
        },
        None => {},
    }
    match read_str_field(body, "response") {
        Some(t) => Ok(t),
        None => {
            let mut s = str_chars("Ollama 响应缺少 response 字段：");
            append_chars(&mut s, &text_or_empty_exec(compact_json(body)));
            Err(chars_to_string(&s))
        },
    }
}

/// The prompt and completion token counts an Ollama body reports (0 where
/// absent); none when the body is not JSON.
pub fn ollama_reply_usage(body: &str) -> (r: Option<(i64, i64)>)
    ensures
        r == (match json_syntax_error(body@) {
            Some(_) => None,
            None => Some(
                (
                    match json_i64_field(body@, "prompt_eval_count"@) {
                        Some(n) => n,
                        None => 0,
                    },
                    match json_i64_field(body@, "eval_count"@) {
                        Some(n) => n,
                        None => 0,
                    },
                ),
            ),
        }),
{
    if check_json_syntax(body).is_some() {
        return None;
    }
    let p = match read_i64_field(body, "prompt_eval_count") {
        Some(n) => n,
        None => 0,
    };
    let c = match read_i64_field(body, "eval_count") {
        Some(n) => n,
        None => 0,
    };
    Some((p, c))
}

/// A reply whose token use is not recorded: one that is not JSON, or that
/// carries a top-level `error` member.
pub fn reply_is_service_error(body: &str) -> (r: bool)
    ensures
        r == (json_syntax_error(body@) is Some || json_member_text(body@, "error"@) is Some),
{
    check_json_syntax(body).is_some() || read_member_text(body, "error").is_some()
}

} // verus!
