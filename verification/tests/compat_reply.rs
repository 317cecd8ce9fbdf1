use resume_manager::compat_reply::{
    compat_reply_content, compat_reply_usage, compat_request_error, ollama_reply_content, ollama_reply_usage,
    reply_is_service_error, thinking_switch,
    vendor_error_hint, ThinkingSwitch,
};
use resume_manager::llm::OpenAiCompatVendor;

#[test]
fn reply_content_taken() {
    let body = r#"{"choices":[{"message":{"content":"{\"a\":1}"},"finish_reason":"stop"}],"usage":{"prompt_tokens":10,"completion_tokens":5,"total_tokens":15}}"#;
    assert_eq!(compat_reply_content(OpenAiCompatVendor::DeepSeek, body), Ok("{\"a\":1}".to_string()));
    assert_eq!(compat_reply_usage(body), (10, 5, 15));
}

#[test]
fn reply_reasoning_fallback() {
    let body = r#"{"choices":[{"message":{"content":"  ","reasoning_content":"think"}}]}"#;
    assert_eq!(compat_reply_content(OpenAiCompatVendor::DashScope, body), Ok("think".to_string()));
    assert_eq!(compat_reply_usage(body), (0, 0, 0));
}

#[test]
fn reply_failures() {
    assert_eq!(
        compat_reply_content(OpenAiCompatVendor::DeepSeek, r#"{"error":{"code":401}}"#),
        Err("DeepSeek 返回错误：{\"code\":401}".to_string())
    );
    assert_eq!(
        compat_reply_content(OpenAiCompatVendor::VolcArk, r#"{"choices": []}"#),
        Err("火山方舟 响应缺少 choices[0]：{\"choices\":[]}".to_string())
    );
    assert_eq!(
        compat_reply_content(OpenAiCompatVendor::LmStudio, r#"{"choices":[{"message":"x"}]}"#),
        Err("LM Studio 响应缺少 choices[0].message：{\"choices\":[{\"message\":\"x\"}]}".to_string())
    );
    assert_eq!(
        compat_reply_content(OpenAiCompatVendor::DeepSeek, r#"{"choices":[{"message":{},"finish_reason":"length"}]}"#),
        Err("DeepSeek 响应内容为空（content/reasoning_content 均为空，finish_reason=length）".to_string())
    );
    let e = compat_reply_content(OpenAiCompatVendor::DeepSeek, "<html>").err().unwrap();
    assert!(e.starts_with("解析 DeepSeek 响应失败：Failed to read JSON: "));
}

#[test]
fn thinking_switches() {
    assert!(matches!(thinking_switch(OpenAiCompatVendor::DashScope, true), ThinkingSwitch::EnableThinkingOff));
    assert!(matches!(thinking_switch(OpenAiCompatVendor::DeepSeek, true), ThinkingSwitch::ThinkingDisabled));
    assert!(matches!(thinking_switch(OpenAiCompatVendor::VolcArk, true), ThinkingSwitch::ThinkingDisabled));
    assert!(matches!(thinking_switch(OpenAiCompatVendor::LmStudio, true), ThinkingSwitch::Unchanged));
    assert!(matches!(thinking_switch(OpenAiCompatVendor::DeepSeek, false), ThinkingSwitch::Unchanged));
}

#[test]
fn request_errors() {
    assert_eq!(
        vendor_error_hint(OpenAiCompatVendor::DeepSeek, "https://api.deepseek.com/v1"),
        "请确认 llmApiKey / 环境变量 DEEPSEEK_API_KEY 正确，且可访问：https://api.deepseek.com/v1。"
    );
    assert_eq!(
        compat_request_error(
            OpenAiCompatVendor::LmStudio,
            "resume_parse",
            2,
            Some((500, "boom".to_string())),
            "",
            "http://127.0.0.1:1234/v1",
        ),
        "调用 LM Studio 失败（阶段：resume_parse，已重试 2 次）：status code 500: boom。请确认已启动本地服务器且地址为：http://127.0.0.1:1234/v1（OpenAI 兼容 /v1）；若偶发卡住，建议重试本批次。"
    );
    assert_eq!(
        compat_request_error(OpenAiCompatVendor::VolcArk, "jd_score", 2, None, "timed out", "u"),
        "调用 火山方舟 失败（阶段：jd_score，已重试 2 次）：timed out。请确认 llmApiKey / 环境变量 ARK_API_KEY 正确，且可访问：u（其他地域 endpoint 可改 llamaCliPath）。"
    );
}

#[test]
fn service_errors_record_no_usage() {
    assert!(reply_is_service_error("not json"));
    assert!(reply_is_service_error(r#"{"error":{"message":"quota"}}"#));
    assert!(reply_is_service_error(r#"{"error":null}"#));
    assert!(!reply_is_service_error(r#"{"choices":[],"usage":{"total_tokens":3}}"#));
    assert!(!reply_is_service_error("[1,2]"));
}

#[test]
fn ollama_reply_text_and_usage() {
    let body = r#"{"response":"{\"a\":1}","prompt_eval_count":12,"eval_count":30}"#;
    assert_eq!(ollama_reply_content(body), Ok("{\"a\":1}".to_string()));
    assert_eq!(ollama_reply_usage(body), Some((12, 30)));
    assert_eq!(ollama_reply_usage(r#"{"response":"x"}"#), Some((0, 0)));
    assert_eq!(
        ollama_reply_content(r#"{"done": true}"#),
        Err("Ollama 响应缺少 response 字段：{\"done\":true}".to_string())
    );
    assert!(ollama_reply_content("oops").unwrap_err().starts_with("解析 Ollama 响应失败：Failed to read JSON: "));
    assert_eq!(ollama_reply_usage("oops"), None);
}
