use resume_manager::llm::{
    attempt_step, chat_endpoint, clip, drain_token_usage_log, extract_json_object,
    normalize_dashscope_base_url, normalize_deepseek_base_url, normalize_lmstudio_base_url,
    normalize_ollama_base_url, normalize_volc_ark_base_url, ollama_usage_record, provider_route,
    resolve_api_key, sanitize_json_control_chars_inside_strings, AttemptResult, AttemptStep,
    OpenAiCompatVendor, ProviderRoute, TokenUsageLog,
};

fn chars(s: &str) -> Vec<char> {
    s.chars().collect()
}

fn text(v: &[char]) -> String {
    v.iter().collect()
}

#[test]
fn base_urls() {
    assert_eq!(normalize_lmstudio_base_url(""), "http://127.0.0.1:1234/v1");
    assert_eq!(normalize_lmstudio_base_url("localhost:1234/"), "http://localhost:1234/v1");
    assert_eq!(normalize_lmstudio_base_url("C:/llama.EXE"), "http://127.0.0.1:1234/v1");
    assert_eq!(normalize_deepseek_base_url("https://api.deepseek.com/V1"), "https://api.deepseek.com/V1");
    assert_eq!(normalize_deepseek_base_url(" "), "https://api.deepseek.com/v1");
    assert_eq!(normalize_ollama_base_url("http://host:11434///"), "http://host:11434");
    assert_eq!(normalize_volc_ark_base_url(""), "https://ark.cn-beijing.volces.com/api/v3");
    assert_eq!(normalize_dashscope_base_url(""), "https://dashscope.aliyuncs.com/compatible-mode/v1");
    assert_eq!(normalize_dashscope_base_url("https://x.com/compatible-mode"), "https://x.com/compatible-mode/v1");
    assert_eq!(normalize_dashscope_base_url("x.com/"), "https://x.com/compatible-mode/v1");
    assert_eq!(chat_endpoint("http://h/v1//"), "http://h/v1/chat/completions");
}

#[test]
fn provider_routes() {
    assert!(matches!(provider_route(" DeepSeek "), ProviderRoute::Compat(OpenAiCompatVendor::DeepSeek)));
    assert!(matches!(provider_route("qwen"), ProviderRoute::Compat(OpenAiCompatVendor::DashScope)));
    assert!(matches!(provider_route("doubao"), ProviderRoute::Compat(OpenAiCompatVendor::VolcArk)));
    assert!(matches!(provider_route("lmstudio"), ProviderRoute::Compat(OpenAiCompatVendor::LmStudio)));
    assert!(matches!(provider_route("ollama"), ProviderRoute::Ollama));
    assert!(matches!(provider_route(""), ProviderRoute::Ollama));
}

#[test]
fn clipping() {
    assert_eq!(clip("简历解析", 2), "简历");
    assert_eq!(clip("ab", 5), "ab");
}

#[test]
fn json_object_extraction() {
    assert_eq!(
        extract_json_object(&chars("好的：```json\n{\"a\": [1, 2,],}\n```")).map(|v| text(&v)),
        Some("{\"a\": [1, 2]}".to_string())
    );
    assert_eq!(
        extract_json_object(&chars("<think>{no}</think> result {\"k\": 1}")).map(|v| text(&v)),
        Some("{\"k\": 1}".to_string())
    );
    assert_eq!(extract_json_object(&chars("no braces")), None);
    assert_eq!(extract_json_object(&chars("} {")), None);
}

#[test]
fn control_chars_in_strings() {
    let out = sanitize_json_control_chars_inside_strings(&chars("{\"a\": \"x\ny\\\"\tz\"}\n"));
    assert_eq!(text(&out), "{\"a\": \"x y\\\" z\"}\n");
}

#[test]
fn api_keys() {
    assert_eq!(resolve_api_key(" sk-1 ", &vec![Some("env".to_string())], "DeepSeek", "DEEPSEEK_API_KEY"), Ok("sk-1".to_string()));
    assert_eq!(resolve_api_key("", &vec![None, Some("  e2 ".to_string())], "DeepSeek", "DEEPSEEK_API_KEY"), Ok("e2".to_string()));
    assert_eq!(
        resolve_api_key(" ", &vec![Some(" ".to_string())], "DashScope", "DASHSCOPE_API_KEY"),
        Err("DashScope：请在 app-config.json 中配置 llmApiKey，或设置环境变量 DASHSCOPE_API_KEY".to_string())
    );
}

#[test]
fn attempts() {
    match attempt_step(1, 2, AttemptResult::RequestFailed("down".to_string())) {
        AttemptStep::Retry(e) => assert_eq!(e, "down"),
        _ => panic!("retry expected"),
    }
    match attempt_step(2, 2, AttemptResult::RequestFailed("down".to_string())) {
        AttemptStep::Fail(e) => assert_eq!(e, "down"),
        _ => panic!("fail expected"),
    }
    match attempt_step(1, 2, AttemptResult::Replied("答：{\"x\": 1,}".to_string())) {
        AttemptStep::Accept(s) => assert_eq!(s, "{\"x\": 1}"),
        _ => panic!("accept expected"),
    }
    match attempt_step(2, 2, AttemptResult::Replied("nothing".to_string())) {
        AttemptStep::Fail(e) => assert_eq!(e, "模型输出中未找到 JSON 对象。原始输出前800字符：nothing"),
        _ => panic!("fail expected"),
    }
    match attempt_step(1, 2, AttemptResult::Replied("{\"a\": }".to_string())) {
        AttemptStep::Retry(e) => assert!(e.starts_with("模型输出 JSON 语法错误：")),
        _ => panic!("retry expected"),
    }
}

#[test]
fn token_usage_log_drained() {
    let mut log = TokenUsageLog::new();
    log.push(ollama_usage_record("1".to_string(), " qwen ", "resume_parse", 10, 5));
    log.push(ollama_usage_record("2".to_string(), "qwen", "jd_score", 1, 2));
    let got = drain_token_usage_log(&mut log);
    assert_eq!(got.len(), 2);
    assert_eq!(got[0].model, "qwen");
    assert_eq!(got[0].provider, "ollama");
    assert_eq!(got[0].total_tokens, 15);
    assert_eq!(got[1].label, "jd_score");
    assert!(drain_token_usage_log(&mut log).is_empty());
}

#[test]
fn sanitize_twice_changes_nothing() {
    let raw = chars("{\"a\": \"x\ny\t\\\"z\u{1}\", \"b\":\n1}");
    let once = sanitize_json_control_chars_inside_strings(&raw);
    assert_eq!(once.len(), raw.len());
    assert_eq!(text(&once), "{\"a\": \"x y \\\"z \", \"b\":\n1}");
    let twice = sanitize_json_control_chars_inside_strings(&once);
    assert_eq!(twice, once);
}

#[test]
fn attempts_end_and_accept_clean_json() {
    match attempt_step(3, 3, AttemptResult::RequestFailed("timeout".to_string())) {
        AttemptStep::Fail(e) => assert_eq!(e, "timeout"),
        _ => panic!("the last attempt must not retry"),
    }
    match attempt_step(1, 3, AttemptResult::Replied("结果：{\"a\": \"x\ny\"}".to_string())) {
        AttemptStep::Accept(x) => {
            assert_eq!(x, "{\"a\": \"x y\"}");
            assert_eq!(text(&sanitize_json_control_chars_inside_strings(&chars(&x))), x);
        }
        _ => panic!("expected the reply to be accepted"),
    }
}
