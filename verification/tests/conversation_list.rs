use foundation_ai::conversation_list::{
    conversation_label, conversation_page, conversations_page_size, page_cursor, ConversationRow,
};
use foundation_ai::json::JsonValue;

fn serde(v: &JsonValue) -> serde_json::Value {
    match v {
        JsonValue::Null => serde_json::Value::Null,
        JsonValue::Bool(b) => serde_json::Value::Bool(*b),
        JsonValue::Number(n) => serde_json::from_str(n).unwrap(),
        JsonValue::Str(s) => serde_json::Value::String(s.clone()),
        JsonValue::Array(a) => serde_json::Value::Array(a.iter().map(serde).collect()),
        JsonValue::Object(m) => {
            let mut out = serde_json::Map::new();
            for (k, x) in m {
                out.insert(k.clone(), serde(x));
            }
            serde_json::Value::Object(out)
        },
    }
}

fn row(subject: &str, tx: i64, label: Option<&str>, created: Option<&str>) -> ConversationRow {
    ConversationRow {
        subject: subject.to_string(),
        order_tx: Some(tx),
        label: label.map(|l| l.to_string()),
        created_at: created.map(|c| c.to_string()),
        creation_tx: Some(tx - 1),
    }
}

#[test]
fn page_size_is_clamped() {
    assert_eq!(conversations_page_size(None), 200);
    assert_eq!(conversations_page_size(Some(0)), 1);
    assert_eq!(conversations_page_size(Some(-5)), 1);
    assert_eq!(conversations_page_size(Some(50)), 50);
    assert_eq!(conversations_page_size(Some(1000)), 200);
}

#[test]
fn cursor_needs_a_subject() {
    assert_eq!(page_cursor(Some(5), Some("c".to_string())), Some((Some(5), "c".to_string())));
    assert_eq!(page_cursor(None, Some("c".to_string())), Some((None, "c".to_string())));
    assert_eq!(page_cursor(Some(5), None), None);
}

#[test]
fn labels_fall_back_to_start_time() {
    assert_eq!(conversation_label(Some("Viagem".to_string()), 0), "Viagem");
    assert_eq!(conversation_label(Some("".to_string()), 0), "New Conversation");
    assert_eq!(conversation_label(None, 0), "New Conversation");
    assert_eq!(conversation_label(None, 1_700_000_000_000), "Conversation Nov 14, 2023 22:13");
}

#[test]
fn page_with_more_to_come() {
    let rows = vec![
        row("c1", 30, Some("Um"), Some("2023-11-14T22:13:20Z")),
        row("c2", 20, None, None),
        row("c3", 10, None, None),
    ];
    let v = serde(&conversation_page(&rows, 2, 99));
    let want: serde_json::Value = serde_json::from_str(
        r#"{"has_more":true,"snapshot_tx":99,
            "items":[{"iri":"c1","label":"Um","startedAt":1700000000000,"creationTx":29},
                     {"iri":"c2","label":"New Conversation","startedAt":0,"creationTx":19}],
            "next_cursor":{"order_tx":20,"after_subject":"c2"}}"#,
    )
    .unwrap();
    assert_eq!(v, want);
}

#[test]
fn last_page_and_empty_page() {
    let rows = vec![row("c1", 30, Some("Um"), None)];
    let v = serde(&conversation_page(&rows, 2, 7));
    assert_eq!(v["has_more"], serde_json::Value::Bool(false));
    assert_eq!(v["next_cursor"], serde_json::Value::Null);
    assert_eq!(v["items"].as_array().unwrap().len(), 1);
    let empty = serde(&conversation_page(&vec![], 200, 7));
    let want: serde_json::Value =
        serde_json::from_str(r#"{"items":[],"next_cursor":null,"has_more":false,"snapshot_tx":7}"#).unwrap();
    assert_eq!(empty, want);
}
