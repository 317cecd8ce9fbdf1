//! Decisions around model calls: which provider a setting names, the base URL
//! and limits of each request, how a model reply is cleaned into one JSON
//! object, which parsed entries are kept, and the token usage log.

use crate::numbers::{decimal, usize_decimal};
use crate::reindex::{keyed_view, law_renumbered_keys, lemma_lookup_index, position_key, renumber, renumbered};
use crate::schema::{
    strings_view, JdScreeningIndex, JdScreeningIndexV, ProjectItem, ProjectItemV, ResumeData,
    ResumeDataV, WorkItem, WorkItemV,
};
use crate::search::{regex_group1_replaced, regex_replace_group1};
use crate::strset::take_at_most;
use crate::text::{
    append_chars, ascii_lower, chars_eq, chars_to_string, contains_chars, contains_seq, ends_with,
    ends_with_chars, find_from, first_match, is_whitespace, is_ws, join_chars, join_with,
    last_match, lemma_first_match, lower, match_at, matches_at, rfind_chars, slice_chars,
    starts_with, starts_with_chars, str_chars, strip_both, strip_both_chars, trim, trim_chars,
    vecs_view,
};
use vstd::prelude::*;

verus! {

// ---------------------------------------------------------------- providers

/// A provider setting as compared: trimmed and ASCII-lowercased.
pub open spec fn provider_key(raw: Seq<char>) -> Seq<char> {
    lower(trim(raw))
}

pub open spec fn is_lmstudio(raw: Seq<char>) -> bool {
    let k = provider_key(raw);
    k == "lmstudio"@ || k == "lm-studio"@ || k == "lm_studio"@
}

pub open spec fn is_deepseek(raw: Seq<char>) -> bool {
    provider_key(raw) == "deepseek"@
}

pub open spec fn is_dashscope(raw: Seq<char>) -> bool {
    let k = provider_key(raw);
    k == "dashscope"@ || k == "qwen"@
}

/// Volcano Engine Ark (Doubao and others), OpenAI compatible.
pub open spec fn is_volc_ark(raw: Seq<char>) -> bool {
    let k = provider_key(raw);
    k == "doubao"@ || k == "ark"@ || k == "volcengine"@ || k == "volc"@
}

fn provider_key_exec(raw: &str) -> (r: Vec<char>)
    ensures
        r@ == provider_key(raw@),
{
    ascii_lower(&trim_chars(&str_chars(raw)))
}

fn eq_lit(a: &Vec<char>, s: &str) -> (r: bool)
    ensures
        r == (a@ == s@),
{
    let b = str_chars(s);
    chars_eq(a, &b)
}

pub fn provider_is_lmstudio(raw: &str) -> (r: bool)
    ensures
        r == is_lmstudio(raw@),
{
    let k = provider_key_exec(raw);
    eq_lit(&k, "lmstudio") || eq_lit(&k, "lm-studio") || eq_lit(&k, "lm_studio")
}

pub fn provider_is_deepseek(raw: &str) -> (r: bool)
    ensures
        r == is_deepseek(raw@),
{
    let k = provider_key_exec(raw);
    eq_lit(&k, "deepseek")
}

pub fn provider_is_dashscope(raw: &str) -> (r: bool)
    ensures
        r == is_dashscope(raw@),
{
    let k = provider_key_exec(raw);
    eq_lit(&k, "dashscope") || eq_lit(&k, "qwen")
}

pub fn provider_is_volc_ark(raw: &str) -> (r: bool)
    ensures
        r == is_volc_ark(raw@),
{
    let k = provider_key_exec(raw);
    eq_lit(&k, "doubao") || eq_lit(&k, "ark") || eq_lit(&k, "volcengine") || eq_lit(&k, "volc")
}

// ---------------------------------------------------------------- base URLs

/// `s` with every trailing `/` removed: what `trim_end_matches('/')` gives.
pub open spec fn strip_slashes(s: Seq<char>) -> Seq<char>
    decreases s.len(),
{
    if s.len() > 0 && s.last() == '/' {
        strip_slashes(s.drop_last())
    } else {
        s
    }
}

fn strip_slashes_exec(s: &Vec<char>) -> (r: Vec<char>)
    ensures
        r@ == strip_slashes(s@),
{
    let mut j: usize = s.len();
    assert(s@.take(j as int) =~= s@);
    while j > 0 && s[j - 1] == '/'
        invariant
            j <= s.len(),
            strip_slashes(s@) == strip_slashes(s@.take(j as int)),
        decreases j,
    {
        assert(s@.take(j as int).drop_last() =~= s@.take(j - 1));
        j -= 1;
    }
    slice_chars(s, 0, j)
}

/// The base URL of a provider from the configured address: the default when
/// the address is empty or names an `.exe`; else the address, given the
/// default scheme when it has none; trailing slashes dropped; `suffix`
/// appended unless already there (ignoring ASCII case).
pub open spec fn base_url(input: Seq<char>, default_url: Seq<char>, default_scheme: Seq<char>, suffix: Seq<char>) -> Seq<
    char,
> {
    let raw = trim(input);
    let b0 = if raw.len() == 0 || ends_with(lower(raw), ".exe"@) {
        default_url
    } else if starts_with(raw, "http://"@) || starts_with(raw, "https://"@) {
        strip_slashes(raw)
    } else {
        default_scheme + "://"@ + strip_slashes(raw)
    };
    let b = strip_slashes(b0);
    if suffix.len() == 0 {
        b
    } else if ends_with(lower(b), suffix) {
        b
    } else {
        b + suffix
    }
}

fn concat(a: &Vec<char>, b: &Vec<char>) -> (r: Vec<char>)
    ensures
        r@ == a@ + b@,
{
    let mut r = a.clone();
    assert(r@ == a@);
    append_chars(&mut r, b);
    r
}

fn normalize_base_url(input: &str, default_url: &str, default_scheme: &str, suffix: &str) -> (r: Vec<char>)
    ensures
        r@ == base_url(input@, default_url@, default_scheme@, suffix@),
{
    let raw = trim_chars(&str_chars(input));
    let b0 = if raw.len() == 0 || ends_with_chars(&ascii_lower(&raw), &str_chars(".exe")) {
        str_chars(default_url)
    } else if starts_with_chars(&raw, &str_chars("http://")) || starts_with_chars(
        &raw,
        &str_chars("https://"),
    ) {
        strip_slashes_exec(&raw)
    } else {
        concat(&concat(&str_chars(default_scheme), &str_chars("://")), &strip_slashes_exec(&raw))
    };
    let b = strip_slashes_exec(&b0);
    let sfx = str_chars(suffix);
    if sfx.len() == 0 {
        b
    } else if ends_with_chars(&ascii_lower(&b), &sfx) {
        b
    } else {
        concat(&b, &sfx)
    }
}

pub open spec fn deepseek_base_url(input: Seq<char>) -> Seq<char> {
    base_url(input, "https://api.deepseek.com"@, "https"@, "/v1"@)
}

pub open spec fn volc_ark_base_url(input: Seq<char>) -> Seq<char> {
    base_url(input, "https://ark.cn-beijing.volces.com/api/v3"@, "https"@, "/api/v3"@)
}

pub open spec fn lmstudio_base_url(input: Seq<char>) -> Seq<char> {
    base_url(input, "http://127.0.0.1:1234"@, "http"@, "/v1"@)
}

pub open spec fn ollama_base_url(input: Seq<char>) -> Seq<char> {
    base_url(input, "http://127.0.0.1:11434"@, "http"@, ""@)
}

/// The DashScope base URL: it ends in `/v1`; `/compatible-mode/v1` is added to
/// an address that lacks it.
pub open spec fn dashscope_base_url(input: Seq<char>) -> Seq<char> {
    let b = base_url(input, "https://dashscope.aliyuncs.com/compatible-mode/v1"@, "https"@, ""@);
    let l = lower(b);
    if ends_with(l, "/v1"@) {
        b
    } else if ends_with(l, "/compatible-mode"@) {
        b + "/v1"@
    } else {
        strip_slashes(b) + "/compatible-mode/v1"@
    }
}

pub fn normalize_deepseek_base_url(input: &str) -> (r: String)
    ensures
        r@ == deepseek_base_url(input@),
{
    chars_to_string(&normalize_base_url(input, "https://api.deepseek.com", "https", "/v1"))
}

pub fn normalize_volc_ark_base_url(input: &str) -> (r: String)
    ensures
        r@ == volc_ark_base_url(input@),
{
    chars_to_string(
        &normalize_base_url(input, "https://ark.cn-beijing.volces.com/api/v3", "https", "/api/v3"),
    )
}

/// The LM Studio base URL: `http://127.0.0.1:1234/v1` by default, `/v1` added
/// when missing.
pub fn normalize_lmstudio_base_url(input: &str) -> (r: String)
    ensures
        r@ == lmstudio_base_url(input@),
{
    chars_to_string(&normalize_base_url(input, "http://127.0.0.1:1234", "http", "/v1"))
}

pub fn normalize_ollama_base_url(input: &str) -> (r: String)
    ensures
        r@ == ollama_base_url(input@),
{
    chars_to_string(&normalize_base_url(input, "http://127.0.0.1:11434", "http", ""))
}

pub fn normalize_dashscope_base_url(input: &str) -> (r: String)
    ensures
        r@ == dashscope_base_url(input@),
{
    let b = normalize_base_url(input, "https://dashscope.aliyuncs.com/compatible-mode/v1", "https", "");
    let l = ascii_lower(&b);
    if ends_with_chars(&l, &str_chars("/v1")) {
        chars_to_string(&b)
    } else if ends_with_chars(&l, &str_chars("/compatible-mode")) {
        chars_to_string(&concat(&b, &str_chars("/v1")))
    } else {
        chars_to_string(&concat(&strip_slashes_exec(&b), &str_chars("/compatible-mode/v1")))
    }
}

// ---------------------------------------------------------------- limits

/// The wait for one request, in seconds: 45 for job-description work (label
/// starting with `jd_`), else 180.
pub open spec fn timeout_for_label(label: Seq<char>) -> u64 {
    if starts_with(label, "jd_"@) {
        45
    } else {
        180
    }
}

pub fn request_timeout_secs_for_label(label: &str) -> (r: u64)
    ensures
        r == timeout_for_label(label@),
{
    if starts_with_chars(&str_chars(label), &str_chars("jd_")) {
        45
    } else {
        180
    }
}

/// The log target of a call: `resume_parse` for resume parsing, else `app_llm`.
pub fn llm_log_prefix(label: &str) -> (r: &'static str)
    ensures
        label@ == "resume_parse"@ ==> r@ == "resume_parse"@,
        label@ != "resume_parse"@ ==> r@ == "app_llm"@,
{
    if eq_lit(&str_chars(label), "resume_parse") {
        "resume_parse"
    } else {
        "app_llm"
    }
}

/// A model setting that names a `.gguf` file, which is no longer accepted.
pub fn looks_like_gguf_path(value: &str) -> (r: bool)
    ensures
        r == ends_with(lower(trim(value@)), ".gguf"@),
{
    ends_with_chars(&ascii_lower(&trim_chars(&str_chars(value))), &str_chars(".gguf"))
}

/// The OpenAI-compatible services.
#[derive(Clone, Copy, PartialEq, Eq, Structural)]
pub enum OpenAiCompatVendor {
    LmStudio,
    DeepSeek,
    DashScope,
    VolcArk,
}

/// `max_tokens` for LM Studio: the requested prediction length (4096 when
/// none) held within `256..=32768`.
pub open spec fn lmstudio_tokens(num_predict: Option<i32>) -> u32 {
    let n: int = match num_predict {
        Some(v) => v as int,
        None => 4096,
    };
    if n < 256 {
        256
    } else if n > 32768 {
        32768
    } else {
        n as u32
    }
}

pub fn lmstudio_max_tokens(num_predict: Option<i32>) -> (r: u32)
    ensures
        r == lmstudio_tokens(num_predict),
{
    let n: i32 = match num_predict {
        Some(v) => v,
        None => 4096,
    };
    if n < 256 {
        256
    } else if n > 32768 {
        32768
    } else {
        n as u32
    }
}

pub open spec fn clamp_u32(v: u32, lo: u32, hi: u32) -> u32 {
    if v < lo {
        lo
    } else if v > hi {
        hi
    } else {
        v
    }
}

/// `max_tokens` for an OpenAI-compatible request: LM Studio as above; a cloud
/// service raises it to at least 24576 (at most 65536) for resume parsing, to
/// at least 8192 (at most 32768) otherwise; a configured cloud cap of at least
/// 2048 (itself at most 65536) then bounds it.
pub open spec fn compat_tokens(
    vendor: OpenAiCompatVendor,
    label: Seq<char>,
    num_predict: Option<i32>,
    cloud_max: Option<u32>,
) -> u32 {
    let base = lmstudio_tokens(num_predict);
    let computed = if vendor == OpenAiCompatVendor::LmStudio {
        base
    } else if label == "resume_parse"@ {
        clamp_u32(base, 24576, 65536)
    } else {
        clamp_u32(base, 8192, 32768)
    };
    match cloud_max {
        Some(c) => if vendor != OpenAiCompatVendor::LmStudio && c >= 2048 {
            let cap = if c > 65536 {
                65536
            } else {
                c
            };
            if computed < cap {
                computed
            } else {
                cap
            }
        } else {
            computed
        },
        None => computed,
    }
}

pub fn openai_compat_max_tokens(
    vendor: OpenAiCompatVendor,
    label: &str,
    num_predict: Option<i32>,
    cloud_max_output_tokens: Option<u32>,
) -> (r: u32)
    ensures
        r == compat_tokens(vendor, label@, num_predict, cloud_max_output_tokens),
{
    let base = lmstudio_max_tokens(num_predict);
    let computed = match vendor {
        OpenAiCompatVendor::LmStudio => base,
        _ => {
            if eq_lit(&str_chars(label), "resume_parse") {
                if base < 24576 {
                    24576
                } else if base > 65536 {
                    65536
                } else {
                    base
                }
            } else {
                if base < 8192 {
                    8192
                } else if base > 32768 {
                    32768
                } else {
                    base
                }
            }
        },
    };
    match cloud_max_output_tokens {
        Some(c) => {
            let cloud = match vendor {
                OpenAiCompatVendor::LmStudio => false,
                _ => true,
            };
            if cloud && c >= 2048 {
                let cap = if c > 65536 {
                    65536
                } else {
                    c
                };
                if computed < cap {
                    computed
                } else {
                    cap
                }
            } else {
                computed
            }
        },
        None => computed,
    }
}

/// The wait for an OpenAI-compatible request: a cloud service waits at least
/// 300 s for resume parsing, 120 s for job-description work, 180 s otherwise.
pub open spec fn compat_timeout(vendor: OpenAiCompatVendor, label: Seq<char>) -> u64 {
    let t = timeout_for_label(label);
    if vendor == OpenAiCompatVendor::LmStudio {
        t
    } else {
        let floor: u64 = if label == "resume_parse"@ {
            300
        } else if starts_with(label, "jd_"@) {
            120
        } else {
            180
        };
        if t < floor {
            floor
        } else {
            t
        }
    }
}

pub fn openai_compat_timeout_secs(vendor: OpenAiCompatVendor, label: &str) -> (r: u64)
    ensures
        r == compat_timeout(vendor, label@),
{
    let t = request_timeout_secs_for_label(label);
    match vendor {
        OpenAiCompatVendor::LmStudio => t,
        _ => {
            let lc = str_chars(label);
            let floor: u64 = if eq_lit(&lc, "resume_parse") {
                300
            } else if starts_with_chars(&lc, &str_chars("jd_")) {
                120
            } else {
                180
            };
            if t < floor {
                floor
            } else {
                t
            }
        },
    }
}

/// The base URL of a vendor from the configured address.
pub open spec fn vendor_base_url(vendor: OpenAiCompatVendor, input: Seq<char>) -> Seq<char> {
    match vendor {
        OpenAiCompatVendor::LmStudio => lmstudio_base_url(input),
        OpenAiCompatVendor::DeepSeek => deepseek_base_url(input),
        OpenAiCompatVendor::DashScope => dashscope_base_url(input),
        OpenAiCompatVendor::VolcArk => volc_ark_base_url(input),
    }
}

pub fn vendor_base_url_exec(vendor: OpenAiCompatVendor, input: &str) -> (r: String)
    ensures
        r@ == vendor_base_url(vendor, input@),
{
    match vendor {
        OpenAiCompatVendor::LmStudio => normalize_lmstudio_base_url(input),
        OpenAiCompatVendor::DeepSeek => normalize_deepseek_base_url(input),
        OpenAiCompatVendor::DashScope => normalize_dashscope_base_url(input),
        OpenAiCompatVendor::VolcArk => normalize_volc_ark_base_url(input),
    }
}

/// The chat endpoint under a base URL.
pub fn chat_endpoint(base: &str) -> (r: String)
    ensures
        r@ == strip_slashes(base@) + "/chat/completions"@,
{
    chars_to_string(&concat(&strip_slashes_exec(&str_chars(base)), &str_chars("/chat/completions")))
}

/// The first `max_chars` chars of `s`.
pub open spec fn clipped(s: Seq<char>, max_chars: nat) -> Seq<char> {
    if s.len() <= max_chars {
        s
    } else {
        s.take(max_chars as int)
    }
}

pub fn clip(s: &str, max_chars: usize) -> (r: String)
    ensures
        r@ == clipped(s@, max_chars as nat),
{
    let c = str_chars(s);
    if c.len() <= max_chars {
        chars_to_string(&c)
    } else {
        chars_to_string(&slice_chars(&c, 0, max_chars))
    }
}

// ---------------------------------------------------------------- JSON in replies

/// Model replies sometimes put raw control chars inside JSON strings; each
/// such char (at most U+001F, outside an escape) becomes a space. One step of
/// the scan: the char written, and whether the scan is then inside a string and
/// after a backslash.
pub open spec fn sanitize_step(c: char, in_str: bool, esc: bool) -> (char, bool, bool) {
    if in_str {
        if esc {
            (c, true, false)
        } else if c == '\\' {
            (c, true, true)
        } else if c == '"' {
            (c, false, false)
        } else if c <= '\u{1F}' {
            (' ', true, false)
        } else {
            (c, true, false)
        }
    } else if c == '"' {
        (c, true, false)
    } else {
        (c, false, false)
    }
}

pub open spec fn sanitized_from(s: Seq<char>, in_str: bool, esc: bool) -> Seq<char>
    decreases s.len(),
{
    if s.len() == 0 {
        s
    } else {
        let st = sanitize_step(s[0], in_str, esc);
        seq![st.0] + sanitized_from(s.drop_first(), st.1, st.2)
    }
}

/// The text with control chars inside JSON strings made spaces.
pub open spec fn sanitized(s: Seq<char>) -> Seq<char> {
    sanitized_from(s, false, false)
}

pub fn sanitize_json_control_chars_inside_strings(raw: &Vec<char>) -> (r: Vec<char>)
    ensures
        r@ == sanitized(raw@),
{
    let mut out: Vec<char> = Vec::new();
    let mut in_str = false;
    let mut esc = false;
    let mut i: usize = 0;
    assert(raw@.skip(0) =~= raw@);
    while i < raw.len()
        invariant
            i <= raw.len(),
            !in_str ==> !esc,
            out@ + sanitized_from(raw@.skip(i as int), in_str, esc) == sanitized(raw@),
        decreases raw.len() - i,
    {
        let c = raw[i];
        let ghost before = out@;
        let ghost st0 = (in_str, esc);
        assert(raw@.skip(i as int)[0] == c);
        assert(raw@.skip(i as int).drop_first() =~= raw@.skip(i + 1));
        if in_str {
            if esc {
                out.push(c);
                esc = false;
            } else if c == '\\' {
                out.push(c);
                esc = true;
            } else if c == '"' {
                out.push(c);
                in_str = false;
            } else if c <= '\u{1F}' {
                out.push(' ');
            } else {
                out.push(c);
            }
        } else if c == '"' {
            out.push(c);
            in_str = true;
        } else {
            out.push(c);
        }
        let ghost stp = sanitize_step(c, st0.0, st0.1);
        assert(sanitized_from(raw@.skip(i as int), st0.0, st0.1) == seq![stp.0] + sanitized_from(
            raw@.skip(i + 1),
            stp.1,
            stp.2,
        ));
        assert(in_str == stp.1 && esc == stp.2);
        assert(out@ == before.push(stp.0));
        assert(out@ + sanitized_from(raw@.skip(i + 1), in_str, esc) =~= before + sanitized_from(
            raw@.skip(i as int),
            st0.0,
            st0.1,
        ));
        i += 1;
    }
    out
}

proof fn lemma_sanitized_from_again(s: Seq<char>, in_str: bool, esc: bool)
    ensures
        sanitized_from(s, in_str, esc).len() == s.len(),
        sanitized_from(sanitized_from(s, in_str, esc), in_str, esc) == sanitized_from(s, in_str, esc),
    decreases s.len(),
{
    if s.len() > 0 {
        let st = sanitize_step(s[0], in_str, esc);
        let rest = sanitized_from(s.drop_first(), st.1, st.2);
        lemma_sanitized_from_again(s.drop_first(), st.1, st.2);
        let out = seq![st.0] + rest;
        assert(sanitize_step(st.0, in_str, esc) == st);
        assert(out[0] == st.0);
        assert(out.drop_first() =~= rest);
    }
}

/// Sanitizing keeps the length of the text, and a sanitized text is left as
/// it is by a second pass: no control char remains inside a string, and the
/// quotes and escapes that delimit strings are where they were.
pub proof fn law_sanitize_idempotent(s: Seq<char>)
    ensures
        sanitized(s).len() == s.len(),
        sanitized(sanitized(s)) == sanitized(s),
{
    lemma_sanitized_from_again(s, false, false);
}

/// A comma before a closing brace or bracket, with the closer in group 1.
pub const TRAILING_COMMA_PATTERN: &'static str = r",\s*([}\]])";

/// The text with commas before closers dropped; `None` when the pattern does
/// not compile.
pub open spec fn trailing_commas_fixed(c: Seq<char>) -> Option<Seq<char>> {
    regex_group1_replaced(TRAILING_COMMA_PATTERN@, c)
}

/// The trimmed body of the last ```` ```json ```` block that is closed.
pub open spec fn fenced_json(s: Seq<char>) -> Option<Seq<char>> {
    match last_match(s, "```json"@) {
        Some(p) => {
            let sub = s.skip(p + 7);
            match first_match(sub, "```"@, 0) {
                Some(e) => Some(trim(sub.take(e))),
                None => None,
            }
        },
        None => None,
    }
}

/// The outermost braces of the last closed ```` ```javascript ```` block.
pub open spec fn fenced_js(s: Seq<char>) -> Option<Seq<char>> {
    match last_match(s, "```javascript"@) {
        Some(p) => {
            let sub = s.skip(p + 13);
            match first_match(sub, "```"@, 0) {
                Some(e) => {
                    let js = trim(sub.take(e));
                    match (first_match(js, seq!['{'], 0), last_match(js, seq!['}'])) {
                        (Some(a), Some(b)) => if b > a {
                            Some(trim(js.subrange(a, b + 1)))
                        } else {
                            None
                        },
                        _ => None,
                    }
                },
                None => None,
            }
        },
        None => None,
    }
}

/// Where the answer starts after a reasoning trace: after the last
/// `[End thinking]`, else after the last `</think>`, else after the last
/// `【特别注意】`, else at the start.
pub open spec fn answer_start(s: Seq<char>) -> int {
    match last_match(s, "[End thinking]"@) {
        Some(i) => i + 14,
        None => match last_match(s, "</think>"@) {
            Some(i) => i + 8,
            None => match last_match(s, "【特别注意】"@) {
                Some(i) => i + 6,
                None => 0,
            },
        },
    }
}

/// From the answer: the first `{` to the last `}`, trimmed of spaces and
/// backticks.
pub open spec fn braces_candidate(s: Seq<char>) -> Option<Seq<char>> {
    let sub = s.skip(answer_start(s));
    match (first_match(sub, seq!['{'], 0), last_match(sub, seq!['}'])) {
        (Some(a), Some(b)) => if b <= a {
            None
        } else {
            Some(trim(strip_both(trim(sub.subrange(a, b + 1)), '`')))
        },
        _ => None,
    }
}

/// The JSON object of a model reply: from a ```` ```json ```` block, else
/// from a ```` ```javascript ```` block, else between the outermost braces of
/// the answer; commas before closers dropped.
pub open spec fn extracted_json(raw: Seq<char>) -> Option<Seq<char>> {
    let s = strip_both(trim(raw), '\u{feff}');
    match fenced_json(s) {
        Some(c) => trailing_commas_fixed(c),
        None => match fenced_js(s) {
            Some(c) => trailing_commas_fixed(c),
            None => match braces_candidate(s) {
                Some(c) => trailing_commas_fixed(c),
                None => None,
            },
        },
    }
}

fn fenced_json_exec(s: &Vec<char>) -> (r: Option<Vec<char>>)
    ensures
        r matches Some(v) ==> fenced_json(s@) == Some(v@),
        r is None ==> fenced_json(s@) is None,
{
    let open = str_chars("```json");
    proof {
        reveal_strlit("```json");
    }
    match rfind_chars(s, &open) {
        Some(p) => {
            proof {
                crate::text::lemma_last_match_from(s@, open@, s@.len() - open@.len());
            }
            let n = s.len();
            let sub = slice_chars(s, p + 7, n);
            assert(sub@ =~= s@.skip(p + 7));
            let close = str_chars("```");
            let found = find_from(&sub, &close, 0);
            proof {
                lemma_first_match(sub@, close@, 0);
            }
            match found {
                Some(e) => {
                    let t = slice_chars(&sub, 0, e);
                    assert(t@ =~= sub@.take(e as int));
                    Some(trim_chars(&t))
                },
                None => None,
            }
        },
        None => None,
    }
}

fn fenced_js_exec(s: &Vec<char>) -> (r: Option<Vec<char>>)
    ensures
        r matches Some(v) ==> fenced_js(s@) == Some(v@),
        r is None ==> fenced_js(s@) is None,
{
    let open = str_chars("```javascript");
    proof {
        reveal_strlit("```javascript");
    }
    match rfind_chars(s, &open) {
        Some(p) => {
            proof {
                crate::text::lemma_last_match_from(s@, open@, s@.len() - open@.len());
            }
            let n = s.len();
            let sub = slice_chars(s, p + 13, n);
            assert(sub@ =~= s@.skip(p + 13));
            let close = str_chars("```");
            let found = find_from(&sub, &close, 0);
            proof {
                lemma_first_match(sub@, close@, 0);
            }
            match found {
                Some(e) => {
                    let t = slice_chars(&sub, 0, e);
                    assert(t@ =~= sub@.take(e as int));
                    let js = trim_chars(&t);
                    let mut ob: Vec<char> = Vec::new();
                    ob.push('{');
                    let mut cb: Vec<char> = Vec::new();
                    cb.push('}');
                    assert(ob@ =~= seq!['{']);
                    assert(cb@ =~= seq!['}']);
                    let jn = js.len();
                    let a = find_from(&js, &ob, 0);
                    let b = rfind_chars(&js, &cb);
                    proof {
                        lemma_first_match(js@, ob@, 0);
                        crate::text::lemma_last_match_from(js@, cb@, js@.len() - 1);
                    }
                    match (a, b) {
                        (Some(a), Some(b)) => {
                            if b > a {
                                Some(trim_chars(&slice_chars(&js, a, b + 1)))
                            } else {
                                None
                            }
                        },
                        _ => None,
                    }
                },
                None => None,
            }
        },
        None => None,
    }
}

fn answer_start_exec(s: &Vec<char>) -> (r: usize)
    ensures
        r == answer_start(s@),
        r <= s.len(),
{
    let a = str_chars("[End thinking]");
    let b = str_chars("</think>");
    let c = str_chars("【特别注意】");
    proof {
        reveal_strlit("[End thinking]");
        reveal_strlit("</think>");
        reveal_strlit("【特别注意】");
        crate::text::lemma_last_match_from(s@, a@, s@.len() - a@.len());
        crate::text::lemma_last_match_from(s@, b@, s@.len() - b@.len());
        crate::text::lemma_last_match_from(s@, c@, s@.len() - c@.len());
    }
    let n = s.len();
    match rfind_chars(s, &a) {
        Some(i) => i + 14,
        None => match rfind_chars(s, &b) {
            Some(i) => i + 8,
            None => match rfind_chars(s, &c) {
                Some(i) => i + 6,
                None => 0,
            },
        },
    }
}

fn braces_candidate_exec(s: &Vec<char>) -> (r: Option<Vec<char>>)
    ensures
        r matches Some(v) ==> braces_candidate(s@) == Some(v@),
        r is None ==> braces_candidate(s@) is None,
{
    let st = answer_start_exec(s);
    let sub = slice_chars(s, st, s.len());
    assert(sub@ =~= s@.skip(st as int));
    let mut ob: Vec<char> = Vec::new();
    ob.push('{');
    let mut cb: Vec<char> = Vec::new();
    cb.push('}');
    assert(ob@ =~= seq!['{']);
    assert(cb@ =~= seq!['}']);
    let sn = sub.len();
    let a = find_from(&sub, &ob, 0);
    let b = rfind_chars(&sub, &cb);
    proof {
        lemma_first_match(sub@, ob@, 0);
        crate::text::lemma_last_match_from(sub@, cb@, sub@.len() - 1);
    }
    match (a, b) {
        (Some(a), Some(b)) => {
            if b <= a {
                None
            } else {
                let inner = trim_chars(&slice_chars(&sub, a, b + 1));
                Some(trim_chars(&strip_both_chars(&inner, '`')))
            }
        },
        _ => None,
    }
}

/// The JSON object of a model reply, as `extracted_json` states it.
pub fn extract_json_object(raw: &Vec<char>) -> (r: Option<Vec<char>>)
    ensures
        r matches Some(v) ==> extracted_json(raw@) == Some(v@),
        r is None ==> extracted_json(raw@) is None,
{
    let s = strip_both_chars(&trim_chars(raw), '\u{feff}');
    let cand = match fenced_json_exec(&s) {
        Some(c) => Some(c),
        None => match fenced_js_exec(&s) {
            Some(c) => Some(c),
            None => braces_candidate_exec(&s),
        },
    };
    match cand {
        Some(c) => regex_replace_group1(TRAILING_COMMA_PATTERN, &c),
        None => None,
    }
}

// ---------------------------------------------------------------- evidence in the source text

/// What `char::to_lowercase` yields for `c`: its Unicode lowercase mapping,
/// one or more chars.
pub uninterp spec fn char_lower(c: char) -> Seq<char>;

/// Calls `char::to_lowercase` and collects what it yields; the result is the
/// named `char_lower` of the char.
#[verifier::external_body]
fn char_to_lowercase(c: char) -> (r: Vec<char>)
    ensures
        r@ == char_lower(c),
{
    c.to_lowercase().collect()
}

/// Punctuation ignored when texts are compared for evidence.
pub open spec fn is_match_punct(c: char) -> bool {
    ||| c == ',' || c == '，' || c == '.' || c == '。' || c == ';' || c == '；' || c == ':'
    ||| c == '：' || c == '/' || c == '\\' || c == '-' || c == '_' || c == '(' || c == ')'
    ||| c == '（' || c == '）' || c == '[' || c == ']' || c == '【' || c == '】' || c == '"'
    ||| c == '\''
}

fn match_punct(c: char) -> (r: bool)
    ensures
        r == is_match_punct(c),
{
    c == ',' || c == '，' || c == '.' || c == '。' || c == ';' || c == '；' || c == ':' || c == '：'
        || c == '/' || c == '\\' || c == '-' || c == '_' || c == '(' || c == ')' || c == '（' || c
        == '）' || c == '[' || c == ']' || c == '【' || c == '】' || c == '"' || c == '\''
}

/// A text as compared for evidence: white space and punctuation dropped, each
/// remaining char lowercased.
pub open spec fn match_text(s: Seq<char>) -> Seq<char>
    decreases s.len(),
{
    if s.len() == 0 {
        s
    } else {
        let r = match_text(s.drop_last());
        let c = s.last();
        if !is_ws(c) && !is_match_punct(c) {
            r + char_lower(c)
        } else {
            r
        }
    }
}

pub fn normalize_match_text(s: &Vec<char>) -> (r: Vec<char>)
    ensures
        r@ == match_text(s@),
{
    let mut out: Vec<char> = Vec::new();
    let mut i: usize = 0;
    assert(s@.take(0) =~= Seq::<char>::empty());
    while i < s.len()
        invariant
            i <= s.len(),
            out@ == match_text(s@.take(i as int)),
        decreases s.len() - i,
    {
        let c = s[i];
        assert(s@.take(i + 1).drop_last() =~= s@.take(i as int));
        assert(s@.take(i + 1).last() == c);
        if !is_whitespace(c) && !match_punct(c) {
            let l = char_to_lowercase(c);
            append_chars(&mut out, &l);
        }
        i += 1;
    }
    assert(s@.take(s.len() as int) =~= s@);
    out
}

/// The needle, compared as above, has two chars or more and occurs in the
/// compared source text.
pub open spec fn has_evidence(needle: Seq<char>, text_norm: Seq<char>) -> bool {
    let n = match_text(needle);
    n.len() >= 2 && contains_seq(text_norm, n)
}

fn has_text_evidence(needle: &Vec<char>, text_norm: &Vec<char>) -> (r: bool)
    ensures
        r == has_evidence(needle@, text_norm@),
{
    let n = normalize_match_text(needle);
    if n.len() < 2 {
        return false;
    }
    contains_chars(text_norm, &n)
}

/// The first `max_chars` chars of the trimmed text.
pub open spec fn anchor_of(s: Seq<char>, max_chars: nat) -> Seq<char> {
    let t = trim(s);
    if t.len() == 0 {
        Seq::empty()
    } else {
        clipped(t, max_chars)
    }
}

fn short_anchor(s: &Vec<char>, max_chars: usize) -> (r: Vec<char>)
    ensures
        r@ == anchor_of(s@, max_chars as nat),
{
    let t = trim_chars(s);
    if t.len() == 0 {
        return Vec::new();
    }
    if t.len() <= max_chars {
        t
    } else {
        slice_chars(&t, 0, max_chars)
    }
}

/// A parsed work entry is kept when it is empty, names a company or a
/// position, or has an anchor of its description in the source text.
pub open spec fn keep_work(w: WorkItemV, text_norm: Seq<char>) -> bool {
    let company = trim(w.company);
    let position = trim(w.position);
    let period = trim(w.period);
    let desc = trim(w.description);
    if company.len() == 0 && position.len() == 0 && period.len() == 0 && desc.len() == 0 {
        true
    } else if company.len() > 0 || position.len() > 0 {
        true
    } else if has_evidence(company, text_norm) {
        true
    } else {
        let anchor = anchor_of(desc, 24);
        if has_evidence(position, text_norm) && has_evidence(anchor, text_norm) {
            true
        } else {
            has_evidence(anchor, text_norm)
        }
    }
}

fn keep_work_item(item: &WorkItem, text_norm: &Vec<char>) -> (r: bool)
    ensures
        r == keep_work(item@, text_norm@),
{
    let company = trim_chars(&str_chars(item.company.as_str()));
    let position = trim_chars(&str_chars(item.position.as_str()));
    let period = trim_chars(&str_chars(item.period.as_str()));
    let desc = trim_chars(&str_chars(item.description.as_str()));
    if company.len() == 0 && position.len() == 0 && period.len() == 0 && desc.len() == 0 {
        return true;
    }
    if company.len() > 0 || position.len() > 0 {
        return true;
    }
    if has_text_evidence(&company, text_norm) {
        return true;
    }
    let anchor = short_anchor(&desc, 24);
    if has_text_evidence(&position, text_norm) && has_text_evidence(&anchor, text_norm) {
        return true;
    }
    has_text_evidence(&anchor, text_norm)
}

/// A parsed project entry is kept when it is empty, has a name, or has an
/// anchor of its description or achievements in the source text.
pub open spec fn keep_project(p: ProjectItemV, text_norm: Seq<char>) -> bool {
    let name = trim(p.project_name);
    let desc = trim(p.project_description);
    let ach = trim(p.project_achievements);
    if name.len() == 0 && desc.len() == 0 && ach.len() == 0 {
        true
    } else if name.len() > 0 {
        true
    } else if has_evidence(anchor_of(desc, 24), text_norm) {
        true
    } else {
        has_evidence(anchor_of(ach, 24), text_norm)
    }
}

fn keep_project_item(item: &ProjectItem, text_norm: &Vec<char>) -> (r: bool)
    ensures
        r == keep_project(item@, text_norm@),
{
    let name = trim_chars(&str_chars(item.project_name.as_str()));
    let desc = trim_chars(&str_chars(item.project_description.as_str()));
    let ach = trim_chars(&str_chars(item.project_achievements.as_str()));
    if name.len() == 0 && desc.len() == 0 && ach.len() == 0 {
        return true;
    }
    if name.len() > 0 {
        return true;
    }
    if has_text_evidence(&short_anchor(&desc, 24), text_norm) {
        return true;
    }
    has_text_evidence(&short_anchor(&ach, 24), text_norm)
}

/// The work entries kept, in key order.
pub open spec fn kept_work(ws: Seq<(Seq<char>, WorkItemV)>, text_norm: Seq<char>) -> Seq<WorkItemV>
    decreases ws.len(),
{
    if ws.len() == 0 {
        Seq::empty()
    } else {
        let r = kept_work(ws.drop_last(), text_norm);
        if keep_work(ws.last().1, text_norm) {
            r.push(ws.last().1)
        } else {
            r
        }
    }
}

/// The project entries kept, in key order.
pub open spec fn kept_projects(ps: Seq<(Seq<char>, ProjectItemV)>, text_norm: Seq<char>) -> Seq<
    ProjectItemV,
>
    decreases ps.len(),
{
    if ps.len() == 0 {
        Seq::empty()
    } else {
        let r = kept_projects(ps.drop_last(), text_norm);
        if keep_project(ps.last().1, text_norm) {
            r.push(ps.last().1)
        } else {
            r
        }
    }
}

fn clone_work(w: &WorkItem) -> (r: WorkItem)
    ensures
        r@ == w@,
{
    WorkItem {
        company: w.company.clone(),
        position: w.position.clone(),
        period: w.period.clone(),
        description: w.description.clone(),
    }
}

fn clone_project(p: &ProjectItem) -> (r: ProjectItem)
    ensures
        r@ == p@,
{
    ProjectItem {
        project_name: p.project_name.clone(),
        project_description: p.project_description.clone(),
        project_achievements: p.project_achievements.clone(),
    }
}

fn filter_work_experience(input: &Vec<(String, WorkItem)>, text_norm: &Vec<char>) -> (r: Vec<
    (String, WorkItem),
>)
    ensures
        keyed_view(r@) == renumbered(kept_work(keyed_view(input@), text_norm@)),
{
    let mut kept: Vec<WorkItem> = Vec::new();
    let mut i: usize = 0;
    assert(keyed_view(input@).take(0) =~= Seq::<(Seq<char>, WorkItemV)>::empty());
    while i < input.len()
        invariant
            i <= input.len(),
            kept@.map_values(|w: WorkItem| w@) == kept_work(keyed_view(input@).take(i as int), text_norm@),
        decreases input.len() - i,
    {
        proof {
            assert(keyed_view(input@).take(i + 1).drop_last() =~= keyed_view(input@).take(i as int));
        }
        if keep_work_item(&input[i].1, text_norm) {
            let w = clone_work(&input[i].1);
            let ghost before = kept@;
            kept.push(w);
            assert(kept@.map_values(|w: WorkItem| w@) =~= before.map_values(|w: WorkItem| w@).push(
                input@[i as int].1@,
            ));
        }
        i += 1;
    }
    assert(keyed_view(input@).take(input.len() as int) =~= keyed_view(input@));
    renumber(kept)
}

fn filter_project_experience(input: &Vec<(String, ProjectItem)>, text_norm: &Vec<char>) -> (r: Vec<
    (String, ProjectItem),
>)
    ensures
        keyed_view(r@) == renumbered(kept_projects(keyed_view(input@), text_norm@)),
{
    let mut kept: Vec<ProjectItem> = Vec::new();
    let mut i: usize = 0;
    assert(keyed_view(input@).take(0) =~= Seq::<(Seq<char>, ProjectItemV)>::empty());
    while i < input.len()
        invariant
            i <= input.len(),
            kept@.map_values(|p: ProjectItem| p@) == kept_projects(
                keyed_view(input@).take(i as int),
                text_norm@,
            ),
        decreases input.len() - i,
    {
        proof {
            assert(keyed_view(input@).take(i + 1).drop_last() =~= keyed_view(input@).take(i as int));
        }
        if keep_project_item(&input[i].1, text_norm) {
            let p = clone_project(&input[i].1);
            let ghost before = kept@;
            kept.push(p);
            assert(kept@.map_values(|p: ProjectItem| p@) =~= before.map_values(|p: ProjectItem| p@).push(
                input@[i as int].1@,
            ));
        }
        i += 1;
    }
    assert(keyed_view(input@).take(input.len() as int) =~= keyed_view(input@));
    renumber(kept)
}

/// A parsed resume checked against its source text: the work and project
/// entries with evidence are kept and keyed afresh, unless none would be kept.
pub open spec fn filtered_by_source(r: ResumeDataV, source: Seq<char>) -> ResumeDataV {
    let t = match_text(source);
    let fw = renumbered(kept_work(r.work_experience, t));
    let fp = renumbered(kept_projects(r.project_experience, t));
    ResumeDataV {
        basic_info: r.basic_info,
        work_experience: if fw.len() > 0 {
            fw
        } else {
            r.work_experience
        },
        project_experience: if fp.len() > 0 {
            fp
        } else {
            r.project_experience
        },
    }
}

pub fn filter_resume_by_source_text(data: ResumeData, source_text: &str) -> (r: ResumeData)
    ensures
        r@ == filtered_by_source(data@, source_text@),
{
    let text_norm = normalize_match_text(&str_chars(source_text));
    let ResumeData { basic_info, work_experience, project_experience } = data;
    let fw = filter_work_experience(&work_experience, &text_norm);
    let fp = filter_project_experience(&project_experience, &text_norm);
    let work = if fw.len() > 0 {
        fw
    } else {
        work_experience
    };
    let project = if fp.len() > 0 {
        fp
    } else {
        project_experience
    };
    let r = ResumeData { basic_info, work_experience: work, project_experience: project };
    assert(r@.work_experience == keyed_view(r.work_experience@));
    assert(r@.project_experience == keyed_view(r.project_experience@));
    r
}

proof fn lemma_kept_work_has(ws: Seq<(Seq<char>, WorkItemV)>, t: Seq<char>, i: int)
    requires
        0 <= i < ws.len(),
        keep_work(ws[i].1, t),
    ensures
        exists|j: int| 0 <= j < kept_work(ws, t).len() && #[trigger] kept_work(ws, t)[j] == ws[i].1,
    decreases ws.len(),
{
    let r = kept_work(ws.drop_last(), t);
    if i == ws.len() - 1 {
        assert(kept_work(ws, t)[r.len() as int] == ws[i].1);
    } else {
        assert(ws.drop_last()[i] == ws[i]);
        lemma_kept_work_has(ws.drop_last(), t, i);
        let j = choose|j: int| 0 <= j < r.len() && #[trigger] r[j] == ws[i].1;
        assert(kept_work(ws, t)[j] == r[j]);
    }
}

proof fn lemma_kept_projects_has(ps: Seq<(Seq<char>, ProjectItemV)>, t: Seq<char>, i: int)
    requires
        0 <= i < ps.len(),
        keep_project(ps[i].1, t),
    ensures
        exists|j: int| 0 <= j < kept_projects(ps, t).len() && #[trigger] kept_projects(ps, t)[j] == ps[i].1,
    decreases ps.len(),
{
    let r = kept_projects(ps.drop_last(), t);
    if i == ps.len() - 1 {
        assert(kept_projects(ps, t)[r.len() as int] == ps[i].1);
    } else {
        assert(ps.drop_last()[i] == ps[i]);
        lemma_kept_projects_has(ps.drop_last(), t, i);
        let j = choose|j: int| 0 <= j < r.len() && #[trigger] r[j] == ps[i].1;
        assert(kept_projects(ps, t)[j] == r[j]);
    }
}

/// Every item of a list is an entry of the list numbered afresh.
proof fn lemma_renumbered_has<V>(items: Seq<V>, j: int)
    requires
        0 <= j < items.len(),
    ensures
        exists|k: int| 0 <= k < renumbered(items).len() && (#[trigger] renumbered(items)[k]).1 == items[j],
{
    law_renumbered_keys(items);
    lemma_lookup_index(renumbered(items), position_key(j));
}

/// Checking a parsed resume against its source text keeps the basic
/// information, never empties a section that had entries, and keeps every
/// work entry that names a company or position and every project entry that
/// names a project.
pub proof fn law_source_filter_keeps_named_entries(r: ResumeDataV, source: Seq<char>)
    ensures
        filtered_by_source(r, source).basic_info == r.basic_info,
        r.work_experience.len() > 0 ==> filtered_by_source(r, source).work_experience.len() > 0,
        r.project_experience.len() > 0 ==> filtered_by_source(r, source).project_experience.len() > 0,
        forall|i: int|
            0 <= i < r.work_experience.len() && (trim((#[trigger] r.work_experience[i]).1.company).len() > 0
                || trim(r.work_experience[i].1.position).len() > 0) ==> exists|j: int|
                0 <= j < filtered_by_source(r, source).work_experience.len()
                    && (#[trigger] filtered_by_source(r, source).work_experience[j]).1 == r.work_experience[i].1,
        forall|i: int|
            0 <= i < r.project_experience.len() && trim((#[trigger] r.project_experience[i]).1.project_name).len()
                > 0 ==> exists|j: int|
                0 <= j < filtered_by_source(r, source).project_experience.len()
                    && (#[trigger] filtered_by_source(r, source).project_experience[j]).1
                    == r.project_experience[i].1,
{
    let t = match_text(source);
    let f = filtered_by_source(r, source);
    let kw = kept_work(r.work_experience, t);
    let kp = kept_projects(r.project_experience, t);
    law_renumbered_keys(kw);
    law_renumbered_keys(kp);
    assert forall|i: int|
        0 <= i < r.work_experience.len() && (trim((#[trigger] r.work_experience[i]).1.company).len() > 0
            || trim(r.work_experience[i].1.position).len() > 0) implies exists|j: int|
        0 <= j < f.work_experience.len() && (#[trigger] f.work_experience[j]).1 == r.work_experience[i].1 by {
        if renumbered(kw).len() > 0 {
            lemma_kept_work_has(r.work_experience, t, i);
            let j = choose|j: int| 0 <= j < kw.len() && #[trigger] kw[j] == r.work_experience[i].1;
            lemma_renumbered_has(kw, j);
            let k = choose|k: int| 0 <= k < renumbered(kw).len() && (#[trigger] renumbered(kw)[k]).1 == kw[j];
            assert(f.work_experience[k].1 == r.work_experience[i].1);
        } else {
            assert(f.work_experience[i] == r.work_experience[i]);
        }
    }
    assert forall|i: int|
        0 <= i < r.project_experience.len() && trim((#[trigger] r.project_experience[i]).1.project_name).len()
            > 0 implies exists|j: int|
        0 <= j < f.project_experience.len() && (#[trigger] f.project_experience[j]).1
            == r.project_experience[i].1 by {
        if renumbered(kp).len() > 0 {
            lemma_kept_projects_has(r.project_experience, t, i);
            let j = choose|j: int| 0 <= j < kp.len() && #[trigger] kp[j] == r.project_experience[i].1;
            lemma_renumbered_has(kp, j);
            let k = choose|k: int| 0 <= k < renumbered(kp).len() && (#[trigger] renumbered(kp)[k]).1 == kp[j];
            assert(f.project_experience[k].1 == r.project_experience[i].1);
        } else {
            assert(f.project_experience[i] == r.project_experience[i]);
        }
    }
}

// ---------------------------------------------------------------- screening index

/// The items that are not blank, as they are.
pub open spec fn nonblank(v: Seq<Seq<char>>) -> Seq<Seq<char>>
    decreases v.len(),
{
    if v.len() == 0 {
        Seq::empty()
    } else {
        let r = nonblank(v.drop_last());
        if trim(v.last()).len() > 0 {
            r.push(v.last())
        } else {
            r
        }
    }
}

/// The first twenty skills that are not blank.
pub open spec fn skill_tags_of(skills: Seq<Seq<char>>) -> Seq<Seq<char>> {
    take_at_most(nonblank(skills), 20)
}

/// `company｜position｜description` of a work entry, the description clipped
/// to 160 chars.
pub open spec fn work_bullet(w: WorkItemV) -> Seq<char> {
    trim(w.company) + "｜"@ + trim(w.position) + "｜"@ + clipped(trim(w.description), 160)
}

/// `name｜description｜achievements` of a project entry, each text clipped to
/// 120 chars.
pub open spec fn project_bullet(p: ProjectItemV) -> Seq<char> {
    trim(p.project_name) + "｜"@ + clipped(trim(p.project_description), 120) + "｜"@ + clipped(
        trim(p.project_achievements),
        120,
    )
}

/// The lines kept: not blank and not only the two separators.
pub open spec fn kept_lines(lines: Seq<Seq<char>>) -> Seq<Seq<char>>
    decreases lines.len(),
{
    if lines.len() == 0 {
        Seq::empty()
    } else {
        let r = kept_lines(lines.drop_last());
        let l = lines.last();
        if trim(l).len() > 0 && l != "｜｜"@ {
            r.push(l)
        } else {
            r
        }
    }
}

pub open spec fn work_bullets_of(ws: Seq<(Seq<char>, WorkItemV)>) -> Seq<char> {
    join_with(
        kept_lines(take_at_most(ws, 8).map_values(|p: (Seq<char>, WorkItemV)| work_bullet(p.1))),
        seq!['\n'],
    )
}

pub open spec fn project_bullets_of(ps: Seq<(Seq<char>, ProjectItemV)>) -> Seq<char> {
    join_with(
        kept_lines(
            take_at_most(ps, 8).map_values(|p: (Seq<char>, ProjectItemV)| project_bullet(p.1)),
        ),
        seq!['\n'],
    )
}

/// The screening index made from the resume alone: a one-line summary of the
/// counts, the first twenty skills, and the first eight work and project
/// entries as bullets.
pub open spec fn index_from_resume(r: ResumeDataV) -> JdScreeningIndexV {
    let skills = skill_tags_of(r.basic_info.skills);
    JdScreeningIndexV {
        summary_for_jd: "（程序摘要）技能"@ + decimal(skills.len()) + "项；工作条目"@ + decimal(
            r.work_experience.len(),
        ) + "；项目条目"@ + decimal(r.project_experience.len()) + "。"@,
        skill_tags: skills,
        role_tags: Seq::empty(),
        domain_tags: Seq::empty(),
        work_bullets: work_bullets_of(r.work_experience),
        project_bullets: project_bullets_of(r.project_experience),
    }
}

fn skill_tags_exec(skills: &Vec<String>) -> (r: Vec<String>)
    ensures
        strings_view(r@) == skill_tags_of(strings_view(skills@)),
{
    let mut out: Vec<String> = Vec::new();
    let mut i: usize = 0;
    assert(strings_view(skills@).take(0) =~= Seq::<Seq<char>>::empty());
    while i < skills.len()
        invariant
            i <= skills.len(),
            strings_view(out@) == nonblank(strings_view(skills@).take(i as int)),
        decreases skills.len() - i,
    {
        proof {
            assert(strings_view(skills@).take(i + 1).drop_last() =~= strings_view(skills@).take(
                i as int,
            ));
        }
        let t = trim_chars(&str_chars(skills[i].as_str()));
        if t.len() > 0 {
            let ghost before = strings_view(out@);
            out.push(skills[i].clone());
            assert(strings_view(out@) =~= before.push(skills@[i as int]@));
        }
        i += 1;
    }
    assert(strings_view(skills@).take(skills.len() as int) =~= strings_view(skills@));
    if out.len() <= 20 {
        return out;
    }
    let mut r: Vec<String> = Vec::new();
    let mut k: usize = 0;
    while k < 20
        invariant
            k <= 20 < out.len(),
            strings_view(r@) == strings_view(out@).take(k as int),
        decreases 20 - k,
    {
        let ghost before = strings_view(r@);
        r.push(out[k].clone());
        assert(strings_view(r@) =~= before.push(out@[k as int]@));
        k += 1;
        assert(strings_view(r@) =~= strings_view(out@).take(k as int));
    }
    r
}

fn clipped_chars(t: &Vec<char>, n: usize) -> (r: Vec<char>)
    ensures
        r@ == clipped(t@, n as nat),
{
    if t.len() <= n {
        t.clone()
    } else {
        slice_chars(t, 0, n)
    }
}

fn bullet_line(a: &Vec<char>, b: &Vec<char>, c: &Vec<char>) -> (r: Vec<char>)
    ensures
        r@ == a@ + "｜"@ + b@ + "｜"@ + c@,
{
    let sep = str_chars("｜");
    let r = concat(&concat(&concat(&concat(a, &sep), b), &sep), c);
    r
}

fn keep_line(l: &Vec<char>) -> (r: bool)
    ensures
        r == (trim(l@).len() > 0 && l@ != "｜｜"@),
{
    trim_chars(l).len() > 0 && !eq_lit(l, "｜｜")
}

fn work_bullets_exec(ws: &Vec<(String, WorkItem)>) -> (r: String)
    ensures
        r@ == work_bullets_of(keyed_view(ws@)),
{
    let n: usize = if ws.len() < 8 {
        ws.len()
    } else {
        8
    };
    let ghost src = take_at_most(keyed_view(ws@), 8);
    let ghost lines = src.map_values(|p: (Seq<char>, WorkItemV)| work_bullet(p.1));
    assert(src.len() == n);
    let mut out: Vec<Vec<char>> = Vec::new();
    let mut i: usize = 0;
    assert(lines.take(0) =~= Seq::<Seq<char>>::empty());
    while i < n
        invariant
            i <= n <= ws.len(),
            n == src.len(),
            src == take_at_most(keyed_view(ws@), 8),
            lines == src.map_values(|p: (Seq<char>, WorkItemV)| work_bullet(p.1)),
            vecs_view(out@) == kept_lines(lines.take(i as int)),
        decreases n - i,
    {
        let w = &ws[i].1;
        assert(src[i as int].1 == w@);
        let line = bullet_line(
            &trim_chars(&str_chars(w.company.as_str())),
            &trim_chars(&str_chars(w.position.as_str())),
            &clipped_chars(&trim_chars(&str_chars(w.description.as_str())), 160),
        );
        assert(line@ == lines[i as int]);
        assert(lines.take(i + 1).drop_last() =~= lines.take(i as int));
        if keep_line(&line) {
            let ghost before = vecs_view(out@);
            out.push(line);
            assert(vecs_view(out@) =~= before.push(lines[i as int]));
        }
        i += 1;
    }
    assert(lines.take(n as int) =~= lines);
    let mut nl: Vec<char> = Vec::new();
    nl.push('\n');
    assert(nl@ =~= seq!['\n']);
    chars_to_string(&join_chars(&out, &nl))
}

fn project_bullets_exec(ps: &Vec<(String, ProjectItem)>) -> (r: String)
    ensures
        r@ == project_bullets_of(keyed_view(ps@)),
{
    let n: usize = if ps.len() < 8 {
        ps.len()
    } else {
        8
    };
    let ghost src = take_at_most(keyed_view(ps@), 8);
    let ghost lines = src.map_values(|p: (Seq<char>, ProjectItemV)| project_bullet(p.1));
    assert(src.len() == n);
    let mut out: Vec<Vec<char>> = Vec::new();
    let mut i: usize = 0;
    assert(lines.take(0) =~= Seq::<Seq<char>>::empty());
    while i < n
        invariant
            i <= n <= ps.len(),
            n == src.len(),
            src == take_at_most(keyed_view(ps@), 8),
            lines == src.map_values(|p: (Seq<char>, ProjectItemV)| project_bullet(p.1)),
            vecs_view(out@) == kept_lines(lines.take(i as int)),
        decreases n - i,
    {
        let p = &ps[i].1;
        assert(src[i as int].1 == p@);
        let line = bullet_line(
            &trim_chars(&str_chars(p.project_name.as_str())),
            &clipped_chars(&trim_chars(&str_chars(p.project_description.as_str())), 120),
            &clipped_chars(&trim_chars(&str_chars(p.project_achievements.as_str())), 120),
        );
        assert(line@ == lines[i as int]);
        assert(lines.take(i + 1).drop_last() =~= lines.take(i as int));
        if keep_line(&line) {
            let ghost before = vecs_view(out@);
            out.push(line);
            assert(vecs_view(out@) =~= before.push(lines[i as int]));
        }
        i += 1;
    }
    assert(lines.take(n as int) =~= lines);
    let mut nl: Vec<char> = Vec::new();
    nl.push('\n');
    assert(nl@ =~= seq!['\n']);
    chars_to_string(&join_chars(&out, &nl))
}

/// The screening index made from the resume alone, as `index_from_resume`
/// states it.
pub fn jd_screening_index_from_resume(data: &ResumeData) -> (r: JdScreeningIndex)
    ensures
        r@ == index_from_resume(data@),
{
    let skills = skill_tags_exec(&data.basic_info.skills);
    let mut summary = str_chars("（程序摘要）技能");
    append_chars(&mut summary, &usize_decimal(skills.len()));
    append_chars(&mut summary, &str_chars("项；工作条目"));
    append_chars(&mut summary, &usize_decimal(data.work_experience.len()));
    append_chars(&mut summary, &str_chars("；项目条目"));
    append_chars(&mut summary, &usize_decimal(data.project_experience.len()));
    append_chars(&mut summary, &str_chars("。"));
    let r = JdScreeningIndex {
        summary_for_jd: chars_to_string(&summary),
        skill_tags: skills,
        role_tags: Vec::new(),
        domain_tags: Vec::new(),
        work_bullets: work_bullets_exec(&data.work_experience),
        project_bullets: project_bullets_exec(&data.project_experience),
    };
    assert(strings_view(r.role_tags@) =~= Seq::<Seq<char>>::empty());
    assert(strings_view(r.domain_tags@) =~= Seq::<Seq<char>>::empty());
    r
}

/// The index the model gave, completed from the resume: made from the
/// resume alone when it holds no summary, skills or bullets; given the first
/// twenty skills of the resume when it lacks skills and the resume has some.
pub open spec fn merged_index(data: ResumeDataV, jd: JdScreeningIndexV) -> JdScreeningIndexV {
    if trim(jd.summary_for_jd).len() == 0 && jd.skill_tags.len() == 0 && trim(jd.work_bullets).len()
        == 0 && trim(jd.project_bullets).len() == 0 {
        index_from_resume(data)
    } else if jd.skill_tags.len() == 0 && data.basic_info.skills.len() > 0 {
        JdScreeningIndexV { skill_tags: skill_tags_of(data.basic_info.skills), ..jd }
    } else {
        jd
    }
}

pub fn merge_sparse_jd_index(data: &ResumeData, jd: JdScreeningIndex) -> (r: JdScreeningIndex)
    ensures
        r@ == merged_index(data@, jd@),
{
    let need_fallback = trim_chars(&str_chars(jd.summary_for_jd.as_str())).len() == 0
        && jd.skill_tags.len() == 0 && trim_chars(&str_chars(jd.work_bullets.as_str())).len() == 0
        && trim_chars(&str_chars(jd.project_bullets.as_str())).len() == 0;
    if need_fallback {
        return jd_screening_index_from_resume(data);
    }
    if jd.skill_tags.len() == 0 && data.basic_info.skills.len() > 0 {
        let JdScreeningIndex {
            summary_for_jd,
            skill_tags: _,
            role_tags,
            domain_tags,
            work_bullets,
            project_bullets,
        } = jd;
        return JdScreeningIndex {
            summary_for_jd,
            skill_tags: skill_tags_exec(&data.basic_info.skills),
            role_tags,
            domain_tags,
            work_bullets,
            project_bullets,
        };
    }
    jd
}

// ---------------------------------------------------------------- routing and keys

/// Which service a provider setting routes to.
#[derive(Clone, Copy, PartialEq, Eq, Structural)]
pub enum ProviderRoute {
    Ollama,
    Compat(OpenAiCompatVendor),
}

/// DeepSeek, then DashScope, then Ark, then LM Studio, else Ollama.
pub open spec fn route_of(provider: Seq<char>) -> ProviderRoute {
    if is_deepseek(provider) {
        ProviderRoute::Compat(OpenAiCompatVendor::DeepSeek)
    } else if is_dashscope(provider) {
        ProviderRoute::Compat(OpenAiCompatVendor::DashScope)
    } else if is_volc_ark(provider) {
        ProviderRoute::Compat(OpenAiCompatVendor::VolcArk)
    } else if is_lmstudio(provider) {
        ProviderRoute::Compat(OpenAiCompatVendor::LmStudio)
    } else {
        ProviderRoute::Ollama
    }
}

pub fn provider_route(provider: &str) -> (r: ProviderRoute)
    ensures
        r == route_of(provider@),
{
    if provider_is_deepseek(provider) {
        ProviderRoute::Compat(OpenAiCompatVendor::DeepSeek)
    } else if provider_is_dashscope(provider) {
        ProviderRoute::Compat(OpenAiCompatVendor::DashScope)
    } else if provider_is_volc_ark(provider) {
        ProviderRoute::Compat(OpenAiCompatVendor::VolcArk)
    } else if provider_is_lmstudio(provider) {
        ProviderRoute::Compat(OpenAiCompatVendor::LmStudio)
    } else {
        ProviderRoute::Ollama
    }
}

/// The base URL a provider setting routes to.
pub fn provider_base_url(provider: &str, address: &str) -> (r: String)
    ensures
        r@ == match route_of(provider@) {
            ProviderRoute::Ollama => ollama_base_url(address@),
            ProviderRoute::Compat(v) => vendor_base_url(v, address@),
        },
{
    match provider_route(provider) {
        ProviderRoute::Ollama => normalize_ollama_base_url(address),
        ProviderRoute::Compat(v) => vendor_base_url_exec(v, address),
    }
}

/// The name of a vendor in messages.
pub fn vendor_display_name(vendor: OpenAiCompatVendor) -> (r: &'static str)
    ensures
        vendor == OpenAiCompatVendor::LmStudio ==> r@ == "LM Studio"@,
        vendor == OpenAiCompatVendor::DeepSeek ==> r@ == "DeepSeek"@,
        vendor == OpenAiCompatVendor::DashScope ==> r@ == "DashScope"@,
        vendor == OpenAiCompatVendor::VolcArk ==> r@ == "火山方舟"@,
{
    match vendor {
        OpenAiCompatVendor::LmStudio => "LM Studio",
        OpenAiCompatVendor::DeepSeek => "DeepSeek",
        OpenAiCompatVendor::DashScope => "DashScope",
        OpenAiCompatVendor::VolcArk => "火山方舟",
    }
}

/// The provider recorded in the token log for a vendor: its name lowercased,
/// spaces made underscores.
pub fn vendor_usage_name(vendor: OpenAiCompatVendor) -> (r: &'static str)
    ensures
        vendor == OpenAiCompatVendor::LmStudio ==> r@ == "lm_studio"@,
        vendor == OpenAiCompatVendor::DeepSeek ==> r@ == "deepseek"@,
        vendor == OpenAiCompatVendor::DashScope ==> r@ == "dashscope"@,
        vendor == OpenAiCompatVendor::VolcArk ==> r@ == "火山方舟"@,
{
    match vendor {
        OpenAiCompatVendor::LmStudio => "lm_studio",
        OpenAiCompatVendor::DeepSeek => "deepseek",
        OpenAiCompatVendor::DashScope => "dashscope",
        OpenAiCompatVendor::VolcArk => "火山方舟",
    }
}

/// The environment variables that may hold a vendor's API key, in the order
/// they are read; none for LM Studio.
pub fn vendor_key_env_names(vendor: OpenAiCompatVendor) -> (r: Vec<&'static str>)
    ensures
        vendor == OpenAiCompatVendor::LmStudio ==> r@.len() == 0,
        vendor == OpenAiCompatVendor::DeepSeek ==> r@.len() == 1 && r@[0]@ == "DEEPSEEK_API_KEY"@,
        vendor == OpenAiCompatVendor::DashScope ==> r@.len() == 2 && r@[0]@ == "DASHSCOPE_API_KEY"@
            && r@[1]@ == "QWEN_API_KEY"@,
        vendor == OpenAiCompatVendor::VolcArk ==> r@.len() == 3 && r@[0]@ == "ARK_API_KEY"@
            && r@[1]@ == "VOLCENGINE_API_KEY"@ && r@[2]@ == "DOUBAO_API_KEY"@,
{
    let mut v: Vec<&'static str> = Vec::new();
    match vendor {
        OpenAiCompatVendor::LmStudio => {},
        OpenAiCompatVendor::DeepSeek => {
            v.push("DEEPSEEK_API_KEY");
        },
        OpenAiCompatVendor::DashScope => {
            v.push("DASHSCOPE_API_KEY");
            v.push("QWEN_API_KEY");
        },
        OpenAiCompatVendor::VolcArk => {
            v.push("ARK_API_KEY");
            v.push("VOLCENGINE_API_KEY");
            v.push("DOUBAO_API_KEY");
        },
    }
    v
}

/// The first value that is not blank, trimmed.
pub open spec fn first_nonblank(vals: Seq<Option<Seq<char>>>) -> Option<Seq<char>>
    decreases vals.len(),
{
    if vals.len() == 0 {
        None
    } else {
        match vals[0] {
            Some(v) => if trim(v).len() > 0 {
                Some(trim(v))
            } else {
                first_nonblank(vals.drop_first())
            },
            None => first_nonblank(vals.drop_first()),
        }
    }
}

pub open spec fn options_view(v: Seq<Option<String>>) -> Seq<Option<Seq<char>>> {
    v.map_values(
        |o: Option<String>|
            match o {
                Some(s) => Some(s@),
                None => None,
            },
    )
}

/// The API key: the configured key when not blank, else the first variable
/// value that is not blank (both trimmed); else an error naming the first
/// variable.
pub open spec fn api_key_of(
    config_key: Seq<char>,
    env_values: Seq<Option<Seq<char>>>,
    provider_name: Seq<char>,
    first_env_name: Seq<char>,
) -> Result<Seq<char>, Seq<char>> {
    if trim(config_key).len() > 0 {
        Ok(trim(config_key))
    } else {
        match first_nonblank(env_values) {
            Some(v) => Ok(v),
            None => Err(
                provider_name + "：请在 app-config.json 中配置 llmApiKey，或设置环境变量 "@
                    + first_env_name,
            ),
        }
    }
}

/// Resolves an API key from the configuration and the values of the key's
/// environment variables (read by the caller, in order), as `api_key_of`
/// states it.
pub fn resolve_api_key(
    config_key: &str,
    env_values: &Vec<Option<String>>,
    provider_name: &str,
    first_env_name: &str,
) -> (r: Result<String, String>)
    ensures
        match r {
            Ok(k) => api_key_of(config_key@, options_view(env_values@), provider_name@, first_env_name@)
                == Ok::<Seq<char>, Seq<char>>(k@),
            Err(e) => api_key_of(config_key@, options_view(env_values@), provider_name@, first_env_name@)
                == Err::<Seq<char>, Seq<char>>(e@),
        },
{
    let k = trim_chars(&str_chars(config_key));
    if k.len() > 0 {
        return Ok(chars_to_string(&k));
    }
    let mut i: usize = 0;
    assert(options_view(env_values@).skip(0) =~= options_view(env_values@));
    while i < env_values.len()
        invariant
            i <= env_values.len(),
            trim(config_key@).len() == 0,
            first_nonblank(options_view(env_values@)) == first_nonblank(
                options_view(env_values@).skip(i as int),
            ),
        decreases env_values.len() - i,
    {
        assert(options_view(env_values@).skip(i as int)[0] == options_view(env_values@)[i as int]);
        assert(options_view(env_values@).skip(i as int).drop_first() =~= options_view(env_values@).skip(
            i + 1,
        ));
        match &env_values[i] {
            Some(v) => {
                assert(options_view(env_values@)[i as int] == Some(v@));
                let t = trim_chars(&str_chars(v.as_str()));
                if t.len() > 0 {
                    return Ok(chars_to_string(&t));
                }
            },
            None => {},
        }
        i += 1;
    }
    let mut msg = str_chars(provider_name);
    append_chars(&mut msg, &str_chars("：请在 app-config.json 中配置 llmApiKey，或设置环境变量 "));
    append_chars(&mut msg, &str_chars(first_env_name));
    Err(chars_to_string(&msg))
}

/// Why a resume cannot be parsed with these settings: no model named, or a
/// `.gguf` path named.
pub open spec fn parse_settings_error(model_path: Seq<char>) -> Option<Seq<char>> {
    if trim(model_path).len() == 0 {
        Some(
            "请在 app-config.json 的 modelPath 中填写模型名（Ollama 如 qwen2.5:3b；LM Studio 与所选模型 ID 一致；DeepSeek / DashScope 填控制台中的模型 ID；火山方舟如 doubao-seed-2-0-mini-260428）"@,
        )
    } else if ends_with(lower(trim(model_path)), ".gguf"@) {
        Some("modelPath 需要填写模型名（如 qwen2.5:3b），不再支持 .gguf 文件路径"@)
    } else {
        None
    }
}

pub fn check_parse_settings(model_path: &str) -> (r: Option<String>)
    ensures
        match r {
            Some(m) => parse_settings_error(model_path@) == Some(m@),
            None => parse_settings_error(model_path@) is None,
        },
{
    if trim_chars(&str_chars(model_path)).len() == 0 {
        return Some(
            chars_to_string(
                &str_chars(
                    "请在 app-config.json 的 modelPath 中填写模型名（Ollama 如 qwen2.5:3b；LM Studio 与所选模型 ID 一致；DeepSeek / DashScope 填控制台中的模型 ID；火山方舟如 doubao-seed-2-0-mini-260428）",
                ),
            ),
        );
    }
    if looks_like_gguf_path(model_path) {
        return Some(
            chars_to_string(&str_chars("modelPath 需要填写模型名（如 qwen2.5:3b），不再支持 .gguf 文件路径")),
        );
    }
    None
}

// ---------------------------------------------------------------- attempts

/// What `serde_json::from_str::<Value>` reports on a text: `None` when it
/// parses, else the error's message.
pub uninterp spec fn json_syntax_error(s: Seq<char>) -> Option<Seq<char>>;

/// Calls `serde_json::from_str::<serde_json::Value>`; the outcome is the named
/// `json_syntax_error` of the text.
#[verifier::external_body]
pub(crate) fn check_json_syntax(s: &str) -> (r: Option<String>)
    ensures
        match r {
            Some(m) => json_syntax_error(s@) == Some(m@),
            None => json_syntax_error(s@) is None,
        },
{
    match serde_json::from_str::<serde_json::Value>(s) {
        Ok(_) => None,
        Err(e) => Some(e.to_string()),
    }
}

/// What one request to a model gave.
pub enum AttemptResult {
    RequestFailed(String),
    Replied(String),
}

/// What follows an attempt: the JSON is accepted, the request is retried
/// after an error, or the call fails with an error.
pub enum AttemptStep {
    Accept(String),
    Retry(String),
    Fail(String),
}

pub enum AttemptStepV {
    Accept(Seq<char>),
    Retry(Seq<char>),
    Fail(Seq<char>),
}

impl View for AttemptStep {
    type V = AttemptStepV;

    open spec fn view(&self) -> AttemptStepV {
        match self {
            AttemptStep::Accept(s) => AttemptStepV::Accept(s@),
            AttemptStep::Retry(s) => AttemptStepV::Retry(s@),
            AttemptStep::Fail(s) => AttemptStepV::Fail(s@),
        }
    }
}

/// After attempt `attempt` of `max_attempts`: a failed request is retried
/// while attempts are left, else its error ends the call; a reply is cleaned
/// into its JSON object and accepted when that parses; a reply without an
/// object, or with one that does not parse, is retried while attempts are
/// left, else ends the call with an error quoting the start of the text.
pub open spec fn attempt_step_of(attempt: nat, max_attempts: nat, result: AttemptResult) -> AttemptStepV {
    match result {
        AttemptResult::RequestFailed(e) => if attempt < max_attempts {
            AttemptStepV::Retry(e@)
        } else {
            AttemptStepV::Fail(e@)
        },
        AttemptResult::Replied(raw) => match extracted_json(raw@) {
            None => {
                let err = "模型输出中未找到 JSON 对象。原始输出前800字符："@ + clipped(raw@, 800);
                if attempt < max_attempts {
                    AttemptStepV::Retry(err)
                } else {
                    AttemptStepV::Fail(err)
                }
            },
            Some(v) => {
                let x = sanitized(v);
                match json_syntax_error(x) {
                    None => AttemptStepV::Accept(x),
                    Some(e) => {
                        let err = "模型输出 JSON 语法错误："@ + e;
                        if attempt < max_attempts {
                            AttemptStepV::Retry(err)
                        } else {
                            AttemptStepV::Fail(err + "。原始输出前800字符："@ + clipped(x, 800))
                        }
                    },
                }
            },
        },
    }
}

/// The retry loop ends: an attempt at or past the last one never asks for
/// another. What it accepts is JSON that parses and that sanitizing leaves as
/// it is.
pub proof fn law_attempts_end_and_accept_clean_json(attempt: nat, max_attempts: nat, result: AttemptResult)
    ensures
        attempt >= max_attempts ==> !(attempt_step_of(attempt, max_attempts, result) is Retry),
        attempt_step_of(attempt, max_attempts, result) matches AttemptStepV::Accept(x) ==> json_syntax_error(x)
            is None && sanitized(x) == x,
{
    if let AttemptResult::Replied(raw) = result {
        if let Some(v) = extracted_json(raw@) {
            law_sanitize_idempotent(v);
        }
    }
}

fn clip_chars(v: &Vec<char>, n: usize) -> (r: Vec<char>)
    ensures
        r@ == clipped(v@, n as nat),
{
    clipped_chars(v, n)
}

/// The decision after one attempt, as `attempt_step_of` states it.
pub fn attempt_step(attempt: usize, max_attempts: usize, result: AttemptResult) -> (r: AttemptStep)
    ensures
        r@ == attempt_step_of(attempt as nat, max_attempts as nat, result),
{
    match result {
        AttemptResult::RequestFailed(e) => {
            if attempt < max_attempts {
                AttemptStep::Retry(e)
            } else {
                AttemptStep::Fail(e)
            }
        },
        AttemptResult::Replied(raw) => {
            let rc = str_chars(raw.as_str());
            match extract_json_object(&rc) {
                None => {
                    let mut err = str_chars("模型输出中未找到 JSON 对象。原始输出前800字符：");
                    append_chars(&mut err, &clip_chars(&rc, 800));
                    if attempt < max_attempts {
                        AttemptStep::Retry(chars_to_string(&err))
                    } else {
                        AttemptStep::Fail(chars_to_string(&err))
                    }
                },
                Some(v) => {
                    let x = sanitize_json_control_chars_inside_strings(&v);
                    let xs = chars_to_string(&x);
                    match check_json_syntax(xs.as_str()) {
                        None => AttemptStep::Accept(xs),
                        Some(e) => {
                            let mut err = str_chars("模型输出 JSON 语法错误：");
                            append_chars(&mut err, &str_chars(e.as_str()));
                            if attempt < max_attempts {
                                AttemptStep::Retry(chars_to_string(&err))
                            } else {
                                append_chars(&mut err, &str_chars("。原始输出前800字符："));
                                append_chars(&mut err, &clip_chars(&x, 800));
                                AttemptStep::Fail(chars_to_string(&err))
                            }
                        },
                    }
                },
            }
        },
    }
}

/// The error when no attempt was made or all were used up without a decision.
pub fn attempts_exhausted_error(provider_name: &str, label: &str, last_err: Option<String>) -> (r:
    String)
    ensures
        r@ == "调用 "@ + provider_name@ + " 失败（阶段："@ + label@ + "）："@ + match last_err {
            Some(e) => e@,
            None => "未知错误"@,
        },
{
    let mut m = str_chars("调用 ");
    append_chars(&mut m, &str_chars(provider_name));
    append_chars(&mut m, &str_chars(" 失败（阶段："));
    append_chars(&mut m, &str_chars(label));
    append_chars(&mut m, &str_chars("）："));
    match last_err {
        Some(e) => append_chars(&mut m, &str_chars(e.as_str())),
        None => append_chars(&mut m, &str_chars("未知错误")),
    }
    chars_to_string(&m)
}

// ---------------------------------------------------------------- token usage

/// The tokens one model call used.
#[derive(Debug)]
pub struct TokenUsageRecord {
    pub created_at: String,
    pub provider: String,
    pub model: String,
    pub label: String,
    pub prompt_tokens: i64,
    pub completion_tokens: i64,
    pub total_tokens: i64,
}

/// The records of calls not yet written to storage, oldest first.
pub struct TokenUsageLog {
    records: Vec<TokenUsageRecord>,
}

impl View for TokenUsageLog {
    type V = Seq<TokenUsageRecord>;

    closed spec fn view(&self) -> Seq<TokenUsageRecord> {
        self.records@
    }
}

impl TokenUsageLog {
    pub fn new() -> (r: TokenUsageLog)
        ensures
            r@ == Seq::<TokenUsageRecord>::empty(),
    {
        TokenUsageLog { records: Vec::new() }
    }

    /// Adds a record after the others.
    pub fn push(&mut self, record: TokenUsageRecord)
        ensures
            final(self)@ == old(self)@.push(record),
    {
        self.records.push(record);
    }
}

/// Takes every record out of the log, oldest first, leaving it empty.
pub fn drain_token_usage_log(log: &mut TokenUsageLog) -> (r: Vec<TokenUsageRecord>)
    ensures
        r@ == old(log)@,
        final(log)@ == Seq::<TokenUsageRecord>::empty(),
{
    let mut out: Vec<TokenUsageRecord> = Vec::new();
    std::mem::swap(&mut out, &mut log.records);
    out
}

/// A record for an Ollama call: the total is the sum of prompt and completion
/// tokens.
pub fn ollama_usage_record(
    created_at: String,
    model: &str,
    label: &str,
    prompt_tokens: i64,
    completion_tokens: i64,
) -> (r: TokenUsageRecord)
    requires
        i64::MIN <= prompt_tokens + completion_tokens <= i64::MAX,
    ensures
        r.created_at == created_at,
        r.provider@ == "ollama"@,
        r.model@ == trim(model@),
        r.label@ == label@,
        r.prompt_tokens == prompt_tokens,
        r.completion_tokens == completion_tokens,
        r.total_tokens == prompt_tokens + completion_tokens,
{
    TokenUsageRecord {
        created_at,
        provider: chars_to_string(&str_chars("ollama")),
        model: chars_to_string(&trim_chars(&str_chars(model))),
        label: chars_to_string(&str_chars(label)),
        prompt_tokens,
        completion_tokens,
        total_tokens: prompt_tokens + completion_tokens,
    }
}

/// A record for an OpenAI-compatible call, with the totals the service gave.
pub fn compat_usage_record(
    created_at: String,
    vendor: OpenAiCompatVendor,
    model: &str,
    label: &str,
    prompt_tokens: i64,
    completion_tokens: i64,
    total_tokens: i64,
) -> (r: TokenUsageRecord)
    ensures
        r.created_at == created_at,
        r.provider@ == vendor_usage_name_of(vendor),
        r.model@ == trim(model@),
        r.label@ == label@,
        r.prompt_tokens == prompt_tokens,
        r.completion_tokens == completion_tokens,
        r.total_tokens == total_tokens,
{
    TokenUsageRecord {
        created_at,
        provider: chars_to_string(&str_chars(vendor_usage_name(vendor))),
        model: chars_to_string(&trim_chars(&str_chars(model))),
        label: chars_to_string(&str_chars(label)),
        prompt_tokens,
        completion_tokens,
        total_tokens,
    }
}

pub open spec fn vendor_usage_name_of(vendor: OpenAiCompatVendor) -> Seq<char> {
    match vendor {
        OpenAiCompatVendor::LmStudio => "lm_studio"@,
        OpenAiCompatVendor::DeepSeek => "deepseek"@,
        OpenAiCompatVendor::DashScope => "dashscope"@,
        OpenAiCompatVendor::VolcArk => "火山方舟"@,
    }
}

} // verus!
