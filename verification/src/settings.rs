//! The model settings kept in the configuration file: how they are normalized
//! before saving, and which configured paths are resolved against the
//! configuration's directory when loading. (The sampling temperature, a
//! floating-point value, is clamped by the caller.)

use crate::text::{
    ascii_lower, chars_to_string, contains_chars, contains_seq, ends_with, ends_with_chars,
    lemma_trim_idempotent, lower, lower_char, starts_with, starts_with_chars, str_chars, trim,
    trim_chars, trim_end, trim_start,
};
use vstd::prelude::*;

verus! {

/// The settings other than the temperature.
pub struct SettingsFields {
    pub llama_cli_path: String,
    pub model_path: String,
    pub threads: i32,
    pub llm_provider: String,
    pub llm_api_key: String,
    pub cloud_max_output_tokens: Option<u32>,
    pub disable_thinking: bool,
}

pub struct SettingsFieldsV {
    pub llama_cli_path: Seq<char>,
    pub model_path: Seq<char>,
    pub threads: i32,
    pub llm_provider: Seq<char>,
    pub llm_api_key: Seq<char>,
    pub cloud_max_output_tokens: Option<u32>,
    pub disable_thinking: bool,
}

impl View for SettingsFields {
    type V = SettingsFieldsV;

    open spec fn view(&self) -> SettingsFieldsV {
        SettingsFieldsV {
            llama_cli_path: self.llama_cli_path@,
            model_path: self.model_path@,
            threads: self.threads,
            llm_provider: self.llm_provider@,
            llm_api_key: self.llm_api_key@,
            cloud_max_output_tokens: self.cloud_max_output_tokens,
            disable_thinking: self.disable_thinking,
        }
    }
}

/// The fewest and most worker threads a local model may be given.
pub const MIN_THREADS: i32 = 1;

pub const MAX_THREADS: i32 = 64;

/// A cap on a cloud reply below this is dropped.
pub const MIN_CLOUD_OUTPUT_TOKENS: u32 = 2048;

/// A cap on a cloud reply above this is lowered to it.
pub const MAX_CLOUD_OUTPUT_TOKENS: u32 = 65536;

/// The provider name trimmed and in ASCII lower case, `ollama` when empty.
pub open spec fn normalized_provider(p: Seq<char>) -> Seq<char> {
    let v = lower(trim(p));
    if v.len() == 0 {
        "ollama"@
    } else {
        v
    }
}

pub open spec fn clamped_threads(t: i32) -> i32 {
    if t < MIN_THREADS {
        MIN_THREADS
    } else if t > MAX_THREADS {
        MAX_THREADS
    } else {
        t
    }
}

pub open spec fn normalized_output_cap(c: Option<u32>) -> Option<u32> {
    match c {
        Some(n) => if n < MIN_CLOUD_OUTPUT_TOKENS {
            None
        } else if n > MAX_CLOUD_OUTPUT_TOKENS {
            Some(MAX_CLOUD_OUTPUT_TOKENS)
        } else {
            Some(n)
        },
        None => None,
    }
}

/// The settings as they are saved.
pub open spec fn normalized_settings(s: SettingsFieldsV) -> SettingsFieldsV {
    SettingsFieldsV {
        llama_cli_path: trim(s.llama_cli_path),
        model_path: trim(s.model_path),
        threads: clamped_threads(s.threads),
        llm_provider: normalized_provider(s.llm_provider),
        llm_api_key: trim(s.llm_api_key),
        cloud_max_output_tokens: normalized_output_cap(s.cloud_max_output_tokens),
        disable_thinking: s.disable_thinking,
    }
}

fn trimmed(s: &String) -> (r: String)
    ensures
        r@ == trim(s@),
{
    chars_to_string(&trim_chars(&str_chars(s.as_str())))
}

/// Normalizes the settings before they are saved: provider lower-cased (and
/// `ollama` by default), paths and key trimmed, threads kept within 1..=64, a
/// cloud output cap below 2048 dropped and one above 65536 lowered.
pub fn normalize_settings(s: &SettingsFields) -> (r: SettingsFields)
    ensures
        r@ == normalized_settings(s@),
{
    let p = ascii_lower(&trim_chars(&str_chars(s.llm_provider.as_str())));
    let provider = if p.len() == 0 {
        "ollama".to_owned()
    } else {
        chars_to_string(&p)
    };
    let threads = if s.threads < MIN_THREADS {
        MIN_THREADS
    } else if s.threads > MAX_THREADS {
        MAX_THREADS
    } else {
        s.threads
    };
    let cap = match s.cloud_max_output_tokens {
        Some(n) => if n < MIN_CLOUD_OUTPUT_TOKENS {
            None
        } else if n > MAX_CLOUD_OUTPUT_TOKENS {
            Some(MAX_CLOUD_OUTPUT_TOKENS)
        } else {
            Some(n)
        },
        None => None,
    };
    SettingsFields {
        llama_cli_path: trimmed(&s.llama_cli_path),
        model_path: trimmed(&s.model_path),
        threads,
        llm_provider: provider,
        llm_api_key: trimmed(&s.llm_api_key),
        cloud_max_output_tokens: cap,
        disable_thinking: s.disable_thinking,
    }
}

/// The trimmed text starts with `http://` or `https://`, ignoring ASCII case.
pub open spec fn is_http_url_text(s: Seq<char>) -> bool {
    let v = lower(trim(s));
    starts_with(v, "http://"@) || starts_with(v, "https://"@)
}

pub fn is_http_url(s: &str) -> (r: bool)
    ensures
        r == is_http_url_text(s@),
{
    let v = ascii_lower(&trim_chars(&str_chars(s)));
    starts_with_chars(&v, &str_chars("http://")) || starts_with_chars(&v, &str_chars("https://"))
}

/// A configured program path is resolved against the configuration's
/// directory when it is not empty, not a URL, and looks like a file path (ends
/// in `.exe` or holds a path separator).
pub open spec fn absolutizes_cli_path(raw: Seq<char>) -> bool {
    let v = trim(raw);
    v.len() > 0 && !is_http_url_text(v) && (ends_with(lower(v), ".exe"@) || contains_seq(v, seq!['/'])
        || contains_seq(v, seq!['\\']))
}

pub fn should_absolutize_llama_cli_path(raw: &str) -> (r: bool)
    ensures
        r == absolutizes_cli_path(raw@),
{
    let v = trim_chars(&str_chars(raw));
    if v.len() == 0 || is_http_url(chars_to_string(&v).as_str()) {
        return false;
    }
    let mut slash: Vec<char> = Vec::new();
    slash.push('/');
    let mut back: Vec<char> = Vec::new();
    back.push('\\');
    let r = ends_with_chars(&ascii_lower(&v), &str_chars(".exe")) || contains_chars(&v, &slash)
        || contains_chars(&v, &back);
    assert(slash@ =~= seq!['/']);
    assert(back@ =~= seq!['\\']);
    r
}

/// A configured model is resolved against the configuration's directory only
/// when it names a `.gguf` file (model names of a server are left alone).
pub open spec fn absolutizes_model_path(raw: Seq<char>) -> bool {
    let v = trim(raw);
    v.len() > 0 && ends_with(lower(v), ".gguf"@)
}

pub fn should_absolutize_model_path(raw: &str) -> (r: bool)
    ensures
        r == absolutizes_model_path(raw@),
{
    let v = trim_chars(&str_chars(raw));
    v.len() > 0 && ends_with_chars(&ascii_lower(&v), &str_chars(".gguf"))
}

proof fn lemma_lower_keeps_trimmed(x: Seq<char>)
    requires
        trim(x) == x,
    ensures
        trim(lower(x)) == lower(x),
        lower(lower(x)) == lower(x),
{
    let l = lower(x);
    assert(lower(l) =~= l);
    lemma_trim_idempotent(x);
    if l.len() > 0 {
        assert(l[0] == lower_char(x[0]));
        assert(l.last() == lower_char(x.last()));
        assert(trim_start(l) == l);
        assert(trim_end(l) == l);
    }
}

/// Saving normalized settings again changes nothing: normalizing is
/// idempotent.
pub proof fn law_settings_normalization_idempotent(s: SettingsFieldsV)
    ensures
        normalized_settings(normalized_settings(s)) == normalized_settings(s),
{
    lemma_trim_idempotent(s.llama_cli_path);
    lemma_trim_idempotent(s.model_path);
    lemma_trim_idempotent(s.llm_api_key);
    lemma_trim_idempotent(s.llm_provider);
    lemma_lower_keeps_trimmed(trim(s.llm_provider));
    let v = lower(trim(s.llm_provider));
    if v.len() == 0 {
        reveal_strlit("ollama");
        let o = "ollama"@;
        assert(trim_start(o) == o);
        assert(trim_end(o) == o);
        assert(lower(o) =~= o);
    }
}

} // verus!
