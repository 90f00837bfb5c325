use foundation_ai::json::JsonValue;
use foundation_ai::loop_tools::{
    build_conversation_tools, inject_reason_into_schema, make_object_strict, schema_with_reason,
    ASK_QUESTION_DESCRIPTION, REASON_DESCRIPTION,
};
use foundation_ai::providers::ToolDefinition;

fn parse(text: &str) -> JsonValue {
    json(serde_json::from_str(text).unwrap())
}

fn json(v: serde_json::Value) -> JsonValue {
    match v {
        serde_json::Value::Null => JsonValue::Null,
        serde_json::Value::Bool(b) => JsonValue::Bool(b),
        serde_json::Value::Number(n) => JsonValue::Number(n.to_string()),
        serde_json::Value::String(s) => JsonValue::Str(s),
        serde_json::Value::Array(a) => JsonValue::Array(a.into_iter().map(json).collect()),
        serde_json::Value::Object(m) => JsonValue::Object(m.into_iter().map(|(k, x)| (k, json(x))).collect()),
    }
}

fn members(v: JsonValue) -> Vec<(String, JsonValue)> {
    match v {
        JsonValue::Object(m) => m,
        _ => panic!("expected an object"),
    }
}

fn reason() -> String {
    format!(r#"{{"type": "string", "description": "{}"}}"#, REASON_DESCRIPTION)
}

#[test]
fn reason_is_added_and_schema_made_strict() {
    let mut schema = parse(r#"{
        "type": "object",
        "properties": {
            "query": {"type": "string"},
            "limit": {"type": "integer"}
        },
        "required": ["query"]
    }"#);
    inject_reason_into_schema(&mut schema);
    let expected = parse(&format!(r#"{{
        "type": "object",
        "properties": {{
            "query": {{"type": "string"}},
            "limit": {{"type": ["integer", "null"]}},
            "reason": {reason}
        }},
        "required": ["query", "reason", "limit"],
        "additionalProperties": false
    }}"#, reason = reason()));
    assert_eq!(schema, expected);
}

#[test]
fn reason_on_schema_without_properties() {
    let mut schema = parse(r#"{"type": "object"}"#);
    inject_reason_into_schema(&mut schema);
    let expected = parse(&format!(r#"{{
        "type": "object",
        "properties": {{"reason": {reason}}},
        "required": ["reason"],
        "additionalProperties": false
    }}"#, reason = reason()));
    assert_eq!(schema, expected);
}

#[test]
fn reason_already_required_is_not_repeated() {
    let mut schema = parse(r#"{
        "type": "object",
        "properties": {"reason": {"type": "string"}},
        "required": ["reason"]
    }"#);
    inject_reason_into_schema(&mut schema);
    let expected = parse(&format!(r#"{{
        "type": "object",
        "properties": {{"reason": {reason}}},
        "required": ["reason"],
        "additionalProperties": false
    }}"#, reason = reason()));
    assert_eq!(schema, expected);
}

#[test]
fn non_object_schema_is_left_alone() {
    let mut schema = JsonValue::Bool(true);
    inject_reason_into_schema(&mut schema);
    assert_eq!(schema, JsonValue::Bool(true));
}

#[test]
fn malformed_schema_is_reported() {
    let bad = parse(r#"{"type": "object", "properties": []}"#);
    assert!(schema_with_reason(&bad).is_none());
    let bad_required = parse(r#"{"type": "object", "required": "x"}"#);
    assert!(schema_with_reason(&bad_required).is_none());
}

#[test]
fn nested_objects_and_array_items_are_made_strict() {
    let mut obj = members(parse(r#"{
        "type": "object",
        "properties": {
            "filter": {
                "type": "object",
                "properties": {"field": {"type": "string"}, "value": {"type": "string"}},
                "required": ["field"]
            },
            "tags": {
                "type": "array",
                "items": {"type": "object", "properties": {"name": {"type": "string"}}}
            },
            "mode": {"type": ["string", "null"]},
            "count": {"type": "null"}
        },
        "required": ["tags"]
    }"#));
    make_object_strict(&mut obj);
    let expected = members(parse(r#"{
        "type": "object",
        "properties": {
            "filter": {
                "type": ["object", "null"],
                "properties": {"field": {"type": "string"}, "value": {"type": ["string", "null"]}},
                "required": ["field", "value"],
                "additionalProperties": false
            },
            "tags": {
                "type": "array",
                "items": {
                    "type": "object",
                    "properties": {"name": {"type": ["string", "null"]}},
                    "required": ["name"],
                    "additionalProperties": false
                }
            },
            "mode": {"type": ["string", "null"]},
            "count": {"type": "null"}
        },
        "required": ["tags", "count", "filter", "mode"],
        "additionalProperties": false
    }"#));
    assert_eq!(obj, expected);
}

#[test]
fn object_without_properties_is_unchanged() {
    let mut obj = members(parse(r#"{"type": "object"}"#));
    make_object_strict(&mut obj);
    assert_eq!(obj, members(parse(r#"{"type": "object"}"#)));
}

#[test]
fn conversation_tools_end_with_ask_question() {
    let base = vec![ToolDefinition {
        name: "search".to_string(),
        description: "Busca".to_string(),
        input_schema: parse(r#"{
            "type": "object",
            "properties": {"q": {"type": "string"}},
            "required": ["q"]
        }"#),
    }];
    let tools = build_conversation_tools(base);
    assert_eq!(tools.len(), 2);
    assert_eq!(tools[0].name, "search");
    assert_eq!(tools[0].description, "Busca");
    assert_eq!(
        tools[0].input_schema,
        parse(&format!(r#"{{
            "type": "object",
            "properties": {{"q": {{"type": "string"}}, "reason": {reason}}},
            "required": ["q", "reason"],
            "additionalProperties": false
        }}"#, reason = reason()))
    );
    assert_eq!(tools[1].name, "ask_question");
    assert_eq!(tools[1].description, ASK_QUESTION_DESCRIPTION);
    let expected = parse(&format!(r#"{{
        "type": "object",
        "properties": {{
            "question": {{"type": "string", "description": "The question to ask the user."}},
            "type": {{
                "type": "string",
                "enum": ["single", "multi", "text"],
                "description": "'single' for one option button, 'multi' for checkboxes, 'text' for a free-text field."
            }},
            "options": {{
                "type": ["array", "null"],
                "items": {{"type": "string"}},
                "description": "List of options. Required for 'single' and 'multi'. Omit for 'text'."
            }},
            "reason": {reason}
        }},
        "required": ["question", "type", "reason", "options"],
        "additionalProperties": false
    }}"#, reason = reason()));
    assert_eq!(tools[1].input_schema, expected);
}
