use foundation_ai::chat_storage::ContentBlock as StoredBlock;
use foundation_ai::json::JsonValue;
use foundation_ai::tool_execution::{
    binary_source, calls_to_run, file_data, tool_error_text, tool_result_text, BinarySource, NO_TOOL_USE_ERROR,
};

fn json(v: serde_json::Value) -> JsonValue {
    match v {
        serde_json::Value::Null => JsonValue::Null,
        serde_json::Value::Bool(b) => JsonValue::Bool(b),
        serde_json::Value::Number(n) => JsonValue::Number(n.to_string()),
        serde_json::Value::String(s) => JsonValue::Str(s),
        serde_json::Value::Array(a) => JsonValue::Array(a.into_iter().map(json).collect()),
        serde_json::Value::Object(m) => JsonValue::Object(m.into_iter().map(|(k, x)| (k, json(x))).collect()),
    }
}

fn parse(text: &str) -> JsonValue {
    json(serde_json::from_str(text).unwrap())
}

fn call(id: &str, name: &str) -> StoredBlock {
    StoredBlock::ToolUse { id: id.to_string(), name: name.to_string(), input: parse("{}"), reason: None }
}

#[test]
fn questions_are_not_run() {
    let blocks = vec![StoredBlock::Text { text: "x".to_string() }, call("a", "search"), call("q", "ask_question"), call("b", "speak")];
    let cs = calls_to_run(&blocks).unwrap();
    let ids: Vec<&str> = cs.iter().map(|c| c.0.as_str()).collect();
    assert_eq!(ids, vec!["a", "b"]);
    assert!(calls_to_run(&vec![call("q", "ask_question")]).unwrap().is_empty());
    assert_eq!(calls_to_run(&vec![StoredBlock::Text { text: "x".to_string() }]).unwrap_err(), NO_TOOL_USE_ERROR);
}

#[test]
fn error_text_is_a_failure_object() {
    assert_eq!(tool_error_text("db locked"), r#"{"success":false,"error":"db locked"}"#);
}

#[test]
fn binary_source_prefers_inline_data() {
    assert_eq!(binary_source(&parse(r#"{"data":"QUJD","page_path":"/p"}"#)), BinarySource::Inline("QUJD".to_string()));
    assert_eq!(binary_source(&parse(r#"{"data":"","page_path":"/p"}"#)), BinarySource::File("/p".to_string()));
    assert_eq!(binary_source(&parse(r#"{"media_type":"image/png"}"#)), BinarySource::Nothing);
    assert_eq!(file_data(&vec![65, 66, 67]), "QUJD");
}

#[test]
fn images_and_pdfs_become_blocks() {
    let r = parse(r#"{"media_type":"image/png","data":"QUJD"}"#);
    let (text, err) = tool_result_text("read_binary_file", true, Some(&r), "{}", &"QUJD".to_string());
    assert!(!err);
    let v: serde_json::Value = serde_json::from_str(&text).unwrap();
    let want: serde_json::Value =
        serde_json::from_str(r#"[{"type":"image","source":{"type":"base64","media_type":"image/png","data":"QUJD"}}]"#)
            .unwrap();
    assert_eq!(v, want);
    let pdf = parse(r#"{"media_type":"application/pdf","page_path":"/x.pdf"}"#);
    let (text, _) = tool_result_text("read_pdf_page", true, Some(&pdf), "{}", &"JVBE".to_string());
    assert!(text.contains(r#""type":"document""#));
    // Other types, other tools and a missing content give the result as JSON.
    let (text, _) = tool_result_text("read_binary_file", true, Some(&parse(r#"{"media_type":"text/csv","data":"x"}"#)), "{}", &"x".to_string());
    assert_eq!(text, r#"{"data":"x","media_type":"text/csv"}"#);
    let (text, _) = tool_result_text("search", true, Some(&r), "{}", &"QUJD".to_string());
    assert_eq!(text, r#"{"data":"QUJD","media_type":"image/png"}"#);
    let (text, _) = tool_result_text("read_binary_file", true, Some(&r), "{}", &String::new());
    assert_eq!(text, r#"{"data":"QUJD","media_type":"image/png"}"#);
}

#[test]
fn failures_and_empty_results() {
    assert_eq!(
        tool_result_text("search", false, None, r#"{"success":false}"#, &String::new()),
        (r#"{"success":false}"#.to_string(), true)
    );
    assert_eq!(tool_result_text("search", true, None, "{}", &String::new()), (String::new(), false));
}

#[test]
fn file_data_pads_the_last_group() {
    assert_eq!(file_data(&b"M".to_vec()), "TQ==");
    assert_eq!(file_data(&b"Ma".to_vec()), "TWE=");
    assert_eq!(file_data(&b"Man".to_vec()), "TWFu");
    assert_eq!(file_data(&vec![255, 254, 253, 0]), "//79AA==");
    assert_eq!(file_data(&vec![]), "");
}
