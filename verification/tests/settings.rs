use resume_manager::settings::{
    is_http_url, normalize_settings, should_absolutize_llama_cli_path,
    should_absolutize_model_path, SettingsFields,
};

fn fields(provider: &str, threads: i32, cap: Option<u32>) -> SettingsFields {
    SettingsFields {
        llama_cli_path: "  http://127.0.0.1:11434 ".to_string(),
        model_path: " qwen2.5:3b ".to_string(),
        threads,
        llm_provider: provider.to_string(),
        llm_api_key: " sk-test ".to_string(),
        cloud_max_output_tokens: cap,
        disable_thinking: true,
    }
}

#[test]
fn settings_normalized() {
    let s = normalize_settings(&fields(" DeepSeek ", 8, Some(4096)));
    assert_eq!(s.llm_provider, "deepseek");
    assert_eq!(s.llama_cli_path, "http://127.0.0.1:11434");
    assert_eq!(s.model_path, "qwen2.5:3b");
    assert_eq!(s.llm_api_key, "sk-test");
    assert_eq!(s.threads, 8);
    assert_eq!(s.cloud_max_output_tokens, Some(4096));
    assert!(s.disable_thinking);
}

#[test]
fn settings_defaults_and_bounds() {
    let low = normalize_settings(&fields("  ", 0, Some(1000)));
    assert_eq!(low.llm_provider, "ollama");
    assert_eq!(low.threads, 1);
    assert_eq!(low.cloud_max_output_tokens, None);
    let high = normalize_settings(&fields("Ollama", 100, Some(100_000)));
    assert_eq!(high.llm_provider, "ollama");
    assert_eq!(high.threads, 64);
    assert_eq!(high.cloud_max_output_tokens, Some(65536));
    let edge = normalize_settings(&fields("x", 64, Some(2048)));
    assert_eq!(edge.threads, 64);
    assert_eq!(edge.cloud_max_output_tokens, Some(2048));
}

#[test]
fn normalizing_twice_changes_nothing() {
    let once = normalize_settings(&fields(" LMStudio ", -3, Some(70_000)));
    let twice = normalize_settings(&once);
    assert_eq!(once.llm_provider, twice.llm_provider);
    assert_eq!(once.model_path, twice.model_path);
    assert_eq!(once.llama_cli_path, twice.llama_cli_path);
    assert_eq!(once.llm_api_key, twice.llm_api_key);
    assert_eq!(once.threads, twice.threads);
    assert_eq!(once.cloud_max_output_tokens, twice.cloud_max_output_tokens);
}

#[test]
fn http_urls() {
    assert!(is_http_url(" HTTP://host"));
    assert!(is_http_url("https://x"));
    assert!(!is_http_url("ftp://x"));
    assert!(!is_http_url(""));
}

#[test]
fn configured_paths_resolved() {
    assert!(should_absolutize_llama_cli_path("bin/llama-cli"));
    assert!(should_absolutize_llama_cli_path(" LLAMA.EXE "));
    assert!(should_absolutize_llama_cli_path("tools\\llama"));
    assert!(!should_absolutize_llama_cli_path("http://127.0.0.1:11434/x/y"));
    assert!(!should_absolutize_llama_cli_path("llama"));
    assert!(!should_absolutize_llama_cli_path("   "));
    assert!(should_absolutize_model_path("models/Qwen.GGUF"));
    assert!(!should_absolutize_model_path("qwen2.5:3b"));
    assert!(!should_absolutize_model_path(""));
}
