//! The model's reply to a resume-parsing prompt, taken apart: the resume and
//! its screening index, and the payload of a reply that wraps its answer in a
//! `response` string.

use crate::json_read::{
    json_is_object, json_member_text, json_str_field, opt_text_view, read_is_object, read_member_text,
    read_str_field,
};
use crate::llm::{
    check_json_syntax, extract_json_object, extracted_json, json_syntax_error, sanitize_json_control_chars_inside_strings,
    sanitized,
};
use crate::text::{chars_to_string, str_chars, trim, trim_chars};
use vstd::prelude::*;

verus! {

/// The error for a reply that is JSON but not an object.
pub open spec fn not_object_message() -> Seq<char> {
    "模型输出不是 JSON 对象"@
}

/// The error for an object that is neither form of a resume reply.
pub open spec fn missing_parts_message() -> Seq<char> {
    "模型输出须包含 resume 与 jdScreeningIndex，或为旧版单对象简历（含 basicInfo）"@
}

/// The reply trimmed, with control chars inside its strings made spaces.
pub open spec fn reply_clean(raw: Seq<char>) -> Seq<char> {
    sanitized(trim(raw))
}

/// A reply taken apart: the JSON text of the resume and, in the current form,
/// that of the screening index. The current form is an object with `resume`
/// and `jdScreeningIndex`; the older form is the resume object itself, with
/// `basicInfo`. The error is the JSON parser's message, or that the reply is
/// not an object, or that it has neither form.
pub open spec fn resume_reply_parts(raw: Seq<char>) -> Result<(Seq<char>, Option<Seq<char>>), Seq<char>> {
    let c = reply_clean(raw);
    match json_syntax_error(c) {
        Some(e) => Err(e),
        None => if !json_is_object(c) {
            Err(not_object_message())
        } else {
            match (json_member_text(c, "resume"@), json_member_text(c, "jdScreeningIndex"@)) {
                (Some(r), Some(i)) => Ok((r, Some(i))),
                _ => if json_member_text(c, "basicInfo"@) is Some {
                    Ok((c, None))
                } else {
                    Err(missing_parts_message())
                },
            }
        },
    }
}

pub open spec fn reply_parts_view(r: Result<(String, Option<String>), String>) -> Result<
    (Seq<char>, Option<Seq<char>>),
    Seq<char>,
> {
    match r {
        Ok((a, b)) => Ok((a@, opt_text_view(b))),
        Err(e) => Err(e@),
    }
}

/// Takes a resume-parsing reply apart, as `resume_reply_parts` states it.
pub fn split_resume_reply(raw: &str) -> (r: Result<(String, Option<String>), String>)
    ensures
        reply_parts_view(r) == resume_reply_parts(raw@),
{
    let cleaned = sanitize_json_control_chars_inside_strings(&trim_chars(&str_chars(raw)));
    let c = chars_to_string(&cleaned);
    match check_json_syntax(c.as_str()) {
        Some(e) => {
            return Err(e);
        },
        None => {},
    }
    if !read_is_object(c.as_str()) {
        return Err("模型输出不是 JSON 对象".to_owned());
    }
    let resume = read_member_text(c.as_str(), "resume");
    let index = read_member_text(c.as_str(), "jdScreeningIndex");
    match (resume, index) {
        (Some(r), Some(i)) => Ok((r, Some(i))),
        _ => {
            if read_member_text(c.as_str(), "basicInfo").is_some() {
                Ok((c, None))
            } else {
                Err("模型输出须包含 resume 与 jdScreeningIndex，或为旧版单对象简历（含 basicInfo）".to_owned())
            }
        },
    }
}

/// The payload of a reply that holds its answer as a string under
/// `response`: that string trimmed, narrowed to the JSON object it holds
/// (when one is found), with control chars inside its strings made spaces,
/// kept only when it is a JSON object. Nothing when the reply has no such
/// string, the string is blank, or the payload is not an object.
pub open spec fn unwrapped_payload(text: Seq<char>) -> Option<Seq<char>> {
    match json_str_field(text, "response"@) {
        Some(r) => {
            let resp = trim(r);
            if resp.len() == 0 {
                None
            } else {
                let cand = sanitized(
                    match extracted_json(resp) {
                        Some(c) => c,
                        None => resp,
                    },
                );
                if json_is_object(cand) {
                    Some(cand)
                } else {
                    None
                }
            }
        },
        None => None,
    }
}

/// The payload of a reply wrapped in a `response` string, as
/// `unwrapped_payload` states it.
pub fn unwrap_response_payload(text: &str) -> (r: Option<String>)
    ensures
        opt_text_view(r) == unwrapped_payload(text@),
{
    let resp = match read_str_field(text, "response") {
        Some(r) => trim_chars(&str_chars(r.as_str())),
        None => {
            return None;
        },
    };
    if resp.len() == 0 {
        return None;
    }
    let cand = match extract_json_object(&resp) {
        Some(c) => c,
        None => resp,
    };
    let cleaned = chars_to_string(&sanitize_json_control_chars_inside_strings(&cand));
    if read_is_object(cleaned.as_str()) {
        Some(cleaned)
    } else {
        None
    }
}

} // verus!
