use foundation_ai::chat_display::{display_units, message_unit, recent_messages, Attachment, DisplayMessage};
use foundation_ai::chat_storage::ContentBlock as StoredBlock;
use foundation_ai::json::JsonValue;

fn json(v: serde_json::Value) -> JsonValue {
    match v {
        serde_json::Value::Null => JsonValue::Null,
        serde_json::Value::Bool(b) => JsonValue::Bool(b),
        serde_json::Value::Number(n) => JsonValue::Number(n.to_string()),
        serde_json::Value::String(s) => JsonValue::Str(s),
        serde_json::Value::Array(a) => JsonValue::Array(a.into_iter().map(json).collect()),
        serde_json::Value::Object(m) => JsonValue::Object(m.into_iter().map(|(k, x)| (k, json(x))).collect()),
    }
}

fn parse(text: &str) -> JsonValue {
    json(serde_json::from_str(text).unwrap())
}

fn serde(v: &JsonValue) -> serde_json::Value {
    match v {
        JsonValue::Null => serde_json::Value::Null,
        JsonValue::Bool(b) => serde_json::Value::Bool(*b),
        JsonValue::Number(n) => serde_json::from_str(n).unwrap(),
        JsonValue::Str(s) => serde_json::Value::String(s.clone()),
        JsonValue::Array(a) => serde_json::Value::Array(a.iter().map(serde).collect()),
        JsonValue::Object(m) => {
            let mut out = serde_json::Map::new();
            for (k, x) in m {
                out.insert(k.clone(), serde(x));
            }
            serde_json::Value::Object(out)
        },
    }
}

fn same(v: &JsonValue, expected: &str) {
    let want: serde_json::Value = serde_json::from_str(expected).unwrap();
    assert_eq!(serde(v), want);
}

fn msg(iri: &str, role: &str, blocks: Vec<StoredBlock>) -> DisplayMessage {
    DisplayMessage {
        iri: iri.to_string(),
        role: role.to_string(),
        blocks,
        sent_at: Some("1970-01-01T00:00:01Z".to_string()),
        attachments: vec![],
        subconscious_entities: JsonValue::Array(vec![]),
        input_tokens: None,
        output_tokens: None,
        estimated_cost: None,
    }
}

fn text(t: &str) -> StoredBlock {
    StoredBlock::Text { text: t.to_string() }
}

fn call(id: &str, name: &str, input: &str, reason: Option<&str>) -> StoredBlock {
    StoredBlock::ToolUse {
        id: id.to_string(),
        name: name.to_string(),
        input: parse(input),
        reason: reason.map(|r| r.to_string()),
    }
}

fn result(id: &str, content: &str, is_error: Option<bool>, duration: Option<u64>) -> StoredBlock {
    StoredBlock::ToolResult {
        tool_use_id: id.to_string(),
        content: content.to_string(),
        is_error,
        duration_ms: duration,
    }
}

#[test]
fn user_message_with_attachment() {
    let mut m = msg("m1", "user", vec![text("olá"), text("mundo")]);
    m.attachments = vec![Attachment {
        file_name: "a.pdf".to_string(),
        file_path: "/files/a.pdf".to_string(),
        file_size: 10,
        mime_type: "application/pdf".to_string(),
    }];
    let u = message_unit(&m).unwrap();
    same(
        &u,
        r#"{"type":"user","iri":"m1","text":"olá mundo","timestamp":1000,"subconscious_entities":[],
            "attachments":[{"fileName":"a.pdf","filePath":"/files/a.pdf","fileSize":10,"mimeType":"application/pdf"}]}"#,
    );
}

#[test]
fn results_only_and_textless_user_messages_are_hidden() {
    assert!(message_unit(&msg("m", "user", vec![result("c", "x", None, None)])).is_none());
    assert!(message_unit(&msg("m", "user", vec![])).is_none());
    assert!(message_unit(&msg("m", "system", vec![text("x")])).is_none());
}

#[test]
fn tool_round_shows_results_from_later_messages() {
    let ms = vec![
        msg("a", "assistant", vec![text("vou buscar"), call("c1", "search", r#"{"q":"x"}"#, Some("buscar x"))]),
        msg("u", "user", vec![result("c1", "achei", Some(false), Some(42))]),
    ];
    let units = display_units(&ms);
    assert_eq!(units.len(), 1);
    same(
        &units[0],
        r#"{"type":"tool_use","iri":"a","text":"vou buscar","reasoning":null,"timestamp":1000,
            "tool_calls":[{"name":"search","input":{"q":"x"},"result":"achei","is_error":false,"reason":"buscar x","duration_ms":42}]}"#,
    );
    // Read alone, the call has no result.
    let alone = message_unit(&ms[0]).unwrap();
    same(
        &alone,
        r#"{"type":"tool_use","iri":"a","text":"vou buscar","reasoning":null,"timestamp":1000,
            "tool_calls":[{"name":"search","input":{"q":"x"},"result":null,"is_error":false,"reason":"buscar x","duration_ms":null}]}"#,
    );
}

#[test]
fn question_with_answer() {
    let ms = vec![
        msg(
            "a",
            "assistant",
            vec![call("q1", "ask_question", r#"{"question":"Qual cor?","type":"choice","options":["azul",3,"verde"]}"#, None)],
        ),
        msg("u", "user", vec![result("q1", "azul", None, None)]),
    ];
    let units = display_units(&ms);
    same(
        &units[0],
        r#"{"type":"question","iri":"a","id":"q1","question":"Qual cor?","question_type":"choice",
            "options":["azul","verde"],"answer":"azul","timestamp":1000}"#,
    );
    assert!(message_unit(&ms[0]).is_none());
}

#[test]
fn question_defaults_and_stored_question() {
    let ms = vec![msg("a", "assistant", vec![call("q1", "ask_question", "{}", None)])];
    same(
        &display_units(&ms)[0],
        r#"{"type":"question","iri":"a","id":"q1","question":"","question_type":"text","options":[],"answer":null,"timestamp":1000}"#,
    );
    let stored = StoredBlock::QuestionOutput {
        id: "q2".to_string(),
        question: "Sim?".to_string(),
        question_type: "yes_no".to_string(),
        options: vec!["sim".to_string(), "não".to_string()],
    };
    let ms2 = vec![msg("b", "assistant", vec![stored])];
    same(
        &display_units(&ms2)[0],
        r#"{"type":"question","iri":"b","id":"q2","question":"Sim?","question_type":"yes_no","options":["sim","não"],"answer":null,"timestamp":1000}"#,
    );
}

#[test]
fn reply_with_thinking_and_tokens() {
    let mut m = msg(
        "a",
        "assistant",
        vec![
            StoredBlock::Thinking { thinking: "pensando".to_string(), signature: "s".to_string() },
            text("um"),
            text("dois"),
        ],
    );
    m.input_tokens = Some(100);
    m.output_tokens = Some(7);
    m.estimated_cost = Some(JsonValue::Number("0.25".to_string()));
    m.sent_at = Some("not a date".to_string());
    same(
        &message_unit(&m).unwrap(),
        r#"{"type":"text","iri":"a","text":"um\n\ndois","reasoning":"pensando","timestamp":0,
            "input_tokens":100,"output_tokens":7,"estimated_cost":0.25}"#,
    );
    let empty = msg("b", "assistant", vec![text("")]);
    assert!(message_unit(&empty).is_none());
}

#[test]
fn compaction_summary() {
    let m = msg("c", "compaction", vec![StoredBlock::CompactionSummary { text: "resumo".to_string() }]);
    same(&message_unit(&m).unwrap(), r#"{"type":"compaction","iri":"c","text":"resumo","timestamp":1000}"#);
    let blank = msg("c", "compaction", vec![StoredBlock::CompactionSummary { text: "".to_string() }]);
    assert!(message_unit(&blank).is_none());
}

#[test]
fn recent_keeps_one_more_than_limit() {
    let ms: Vec<DisplayMessage> = (0..5).map(|i| msg(&format!("m{}", i), "user", vec![text("oi")])).collect();
    let r = recent_messages(&ms, 2, true);
    let v = serde(&r);
    assert_eq!(v["is_processing"], serde_json::Value::Bool(true));
    let iris: Vec<&str> = v["messages"].as_array().unwrap().iter().map(|u| u["iri"].as_str().unwrap()).collect();
    assert_eq!(iris, vec!["m2", "m3", "m4"]);
    let all = recent_messages(&ms, 5, false);
    assert_eq!(serde(&all)["messages"].as_array().unwrap().len(), 5);
}
