use resume_manager::resume_reply::{split_resume_reply, unwrap_response_payload};

#[test]
fn reply_with_resume_and_index() {
    let raw = "  {\"resume\": {\"basicInfo\": {\"name\": \"张\n三\"}}, \"jdScreeningIndex\": {\"skillTags\": [\"Rust\"]}}  ";
    let (resume, index) = split_resume_reply(raw).ok().unwrap();
    assert_eq!(resume, "{\"basicInfo\":{\"name\":\"张 三\"}}");
    assert_eq!(index, Some("{\"skillTags\":[\"Rust\"]}".to_string()));
}

#[test]
fn reply_in_older_form() {
    let raw = "{\"basicInfo\": {\"name\": \"李四\"}}";
    let (resume, index) = split_resume_reply(raw).ok().unwrap();
    assert_eq!(resume, raw);
    assert_eq!(index, None);
}

#[test]
fn reply_errors() {
    assert!(split_resume_reply("not json").is_err());
    assert_eq!(split_resume_reply("[1, 2]").err().unwrap(), "模型输出不是 JSON 对象");
    assert_eq!(
        split_resume_reply("{\"resume\": {}}").err().unwrap(),
        "模型输出须包含 resume 与 jdScreeningIndex，或为旧版单对象简历（含 basicInfo）"
    );
}

#[test]
fn response_payload_unwrapped() {
    let text = "{\"response\": \"  好的：```json\\n{\\\"basicInfo\\\": {}}\\n```  \"}";
    assert_eq!(unwrap_response_payload(text), Some("{\"basicInfo\": {}}".to_string()));
    assert_eq!(unwrap_response_payload("{\"response\": \"   \"}"), None);
    assert_eq!(unwrap_response_payload("{\"response\": \"plain words\"}"), None);
    assert_eq!(unwrap_response_payload("{\"other\": 1}"), None);
    assert_eq!(unwrap_response_payload("[1]"), None);
}
