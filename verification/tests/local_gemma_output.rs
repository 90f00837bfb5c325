use foundation_ai::json::{json_get, json_get_str, json_item, JsonValue};
use foundation_ai::local_gemma::args::parse_gemma_native_args;
use foundation_ai::local_gemma::calls::parse_all_tool_calls_from_output;
use foundation_ai::local_gemma::render::{extract_text_content, format_gemma_native_value};
use foundation_ai::local_gemma::tools::format_tools_for_prompt;
use foundation_ai::local_gemma::{
    parse_python_speak_output, truncate_messages_if_needed, StreamProcessor, StreamState,
    MAX_PROMPT_CHARS,
};
use foundation_ai::providers::{ContentBlock, MessageContent, ToolDefinition};

fn s(v: &str) -> JsonValue {
    JsonValue::Str(v.to_string())
}

fn obj(members: Vec<(&str, JsonValue)>) -> JsonValue {
    JsonValue::Object(members.into_iter().map(|(k, v)| (k.to_string(), v)).collect())
}

fn str_field<'a>(v: &'a JsonValue, key: &str) -> Option<&'a str> {
    json_get_str(v, key).map(|t| t.as_str())
}

fn speak_tool() -> ToolDefinition {
    ToolDefinition {
        name: "speak".to_string(),
        description: "Respond to the user with text".to_string(),
        input_schema: obj(vec![
            ("properties", obj(vec![("message", obj(vec![("type", s("string"))]))])),
            ("required", JsonValue::Array(vec![s("message")])),
            ("type", s("object")),
        ]),
    }
}

// Text extraction

#[test]
fn tests_extract_text_from_text_variant() {
    let content = MessageContent::Text("Hello world".to_string());
    assert_eq!(extract_text_content(&content), "Hello world");
}

#[test]
fn extract_text_from_content_blocks_includes_text_and_tool_use() {
    let content = MessageContent::ContentBlocks(vec![
        ContentBlock::Text { text: "first line".to_string() },
        ContentBlock::ToolUse {
            id: "tu_1".to_string(),
            name: "search".to_string(),
            input: obj(vec![("query", s("test"))]),
        },
        ContentBlock::Text { text: "second line".to_string() },
    ]);
    let result = extract_text_content(&content);
    assert!(result.contains("first line"));
    assert!(result.contains("search"));
    assert!(result.contains("second line"));
}

#[test]
fn extract_text_tool_use_produces_native_format() {
    let content = MessageContent::ContentBlocks(vec![ContentBlock::ToolUse {
        id: "tu_1".to_string(),
        name: "describe_individual".to_string(),
        input: obj(vec![("iris", JsonValue::Array(vec![s("foundation:X")]))]),
    }]);
    let result = extract_text_content(&content);
    assert!(result.contains("<|tool_call>call:describe_individual"), "should use the native format");
    assert!(result.contains("<tool_call|>"), "should close with <tool_call|>");
    assert!(result.contains("foundation:X"), "should include the args");
}

#[test]
fn extract_text_tool_result_produces_readable_text() {
    let content = MessageContent::ContentBlocks(vec![ContentBlock::ToolResult {
        tool_use_id: "tu_1".to_string(),
        content: s("Tool result goes here"),
        is_error: None,
    }]);
    let result = extract_text_content(&content);
    assert!(result.contains("Tool result goes here"), "should include the result content");
}

// Python speak() parser

#[test]
fn parser_python_extracts_message_double_quotes() {
    let raw = r#"speak(message="Hi! How can I help?")"#;
    assert_eq!(parse_python_speak_output(raw), "Hi! How can I help?");
}

#[test]
fn parser_python_extracts_message_single_quotes() {
    let raw = "speak(message='Hello world')";
    assert_eq!(parse_python_speak_output(raw), "Hello world");
}

#[test]
fn parser_python_removes_end_of_turn_marker() {
    let raw = "speak(message=\"Response\")\n<end_of_turn>";
    assert_eq!(parse_python_speak_output(raw), "Response");
}

#[test]
fn parser_python_removes_eos_marker() {
    let raw = "speak(message=\"Response\")<eos>";
    assert_eq!(parse_python_speak_output(raw), "Response");
}

#[test]
fn parser_python_handles_escaped_quotes() {
    let raw = r#"speak(message="He said \"hi\" to me")"#;
    assert_eq!(parse_python_speak_output(raw), r#"He said "hi" to me"#);
}

#[test]
fn parser_python_uses_last_speak_when_model_writes_reasoning_first() {
    let raw = "Let me think...\nspeak(message=\"Final response\")";
    assert_eq!(parse_python_speak_output(raw), "Final response");
}

#[test]
fn parser_python_fallback_to_clean_text_without_speak() {
    let raw = "Response without wrapper\n<end_of_turn>";
    assert_eq!(parse_python_speak_output(raw), "Response without wrapper");
}

#[test]
fn parser_python_fallback_empty_string() {
    assert_eq!(parse_python_speak_output(""), "");
}

#[test]
fn parser_python_speak_with_iris_none_extracts_only_message() {
    let raw = r#"speak(message="Hi!", iris=None)"#;
    assert_eq!(parse_python_speak_output(raw), "Hi!");
}

// Parser: Gemma 4 native format

#[test]
fn parse_tool_call_speak_basic() {
    let raw = "<|tool_call>call:speak{message:<|\"|>Hi!<|\"|>}<tool_call|>";
    let tc = parse_all_tool_calls_from_output(raw).into_iter().next().expect("should parse speak");
    assert_eq!(tc.name, "speak");
    assert_eq!(str_field(&tc.input, "message"), Some("Hi!"));
}

#[test]
fn tests_parse_tool_call_search() {
    let raw = "<|tool_call>call:search{query:<|\"|>capital of Brazil<|\"|>}<tool_call|>";
    let tc = parse_all_tool_calls_from_output(raw).into_iter().next().expect("should parse search");
    assert_eq!(tc.name, "search");
    assert_eq!(str_field(&tc.input, "query"), Some("capital of Brazil"));
}

#[test]
fn parse_tool_call_ignores_eot_markers() {
    let raw = "<|tool_call>call:speak{message:<|\"|>ok<|\"|>}<tool_call|>\n<end_of_turn>";
    let tc = parse_all_tool_calls_from_output(raw).into_iter().next().expect("should parse with EOT");
    assert_eq!(tc.name, "speak");
    assert_eq!(str_field(&tc.input, "message"), Some("ok"));
}

#[test]
fn parse_tool_call_without_closing_tag() {
    let raw = "<|tool_call>call:search{query:<|\"|>test<|\"|>}";
    let tc = parse_all_tool_calls_from_output(raw).into_iter().next().expect("should parse without closing tag");
    assert_eq!(tc.name, "search");
}

#[test]
fn parse_tool_call_returns_empty_without_tag() {
    assert!(parse_all_tool_calls_from_output("text without a tag").is_empty());
    assert!(parse_all_tool_calls_from_output("").is_empty());
}

#[test]
fn parse_tool_call_returns_empty_without_native_marker() {
    assert!(parse_all_tool_calls_from_output("call:speak{message:<|\"|>ok<|\"|>}").is_empty());
}

#[test]
fn parse_tool_call_multiple_returns_all() {
    let raw = "<|tool_call>call:search{query:<|\"|>x<|\"|>}<tool_call|>\n<|tool_call>call:speak{message:<|\"|>ok<|\"|>}<tool_call|>";
    let calls = parse_all_tool_calls_from_output(raw);
    assert_eq!(calls.len(), 2);
    assert_eq!(calls[0].name, "search");
    assert_eq!(calls[1].name, "speak");
}

#[test]
fn parse_tool_call_with_iris_array() {
    let raw = "<|tool_call>call:speak{message:<|\"|>Here it is.<|\"|>,iris:[<|\"|>foundation:Task_1<|\"|>]}<tool_call|>";
    let tc = parse_all_tool_calls_from_output(raw).into_iter().next().expect("should parse speak with iris");
    assert_eq!(tc.name, "speak");
    assert_eq!(str_field(&tc.input, "message"), Some("Here it is."));
    let iris = json_get(&tc.input, "iris").expect("iris");
    assert_eq!(json_item(iris, 0), Some(&s("foundation:Task_1")));
}

#[test]
fn parse_tool_call_legacy_format_as_fallback() {
    let raw = "tool_call\n{\"name\": \"speak\", \"input\": {\"message\": \"Hi!\"}}\n</tool_call>";
    let tc = parse_all_tool_calls_from_output(raw).into_iter().next().expect("legacy format should work as fallback");
    assert_eq!(tc.name, "speak");
    assert_eq!(str_field(&tc.input, "message"), Some("Hi!"));
}

#[test]
fn parse_tool_call_xml_format_as_fallback() {
    let raw = r#"<tool_call>{"name": "speak", "input": {"message": "Hi!"}}</tool_call>"#;
    let tc = parse_all_tool_calls_from_output(raw).into_iter().next().expect("XML format should work as fallback");
    assert_eq!(tc.name, "speak");
    assert_eq!(str_field(&tc.input, "message"), Some("Hi!"));
}

// Parser: parse_gemma_native_args

#[test]
fn gemma_args_simple_string() {
    let val = parse_gemma_native_args("{message:<|\"|>Hello world<|\"|>}");
    assert_eq!(str_field(&val, "message"), Some("Hello world"));
}

#[test]
fn gemma_args_multiple_fields() {
    let val = parse_gemma_native_args("{query:<|\"|>test<|\"|>,class_iri:<|\"|>foundation:Task<|\"|>}");
    assert_eq!(str_field(&val, "query"), Some("test"));
    assert_eq!(str_field(&val, "class_iri"), Some("foundation:Task"));
}

#[test]
fn gemma_args_with_array() {
    let val = parse_gemma_native_args("{message:<|\"|>ok<|\"|>,iris:[<|\"|>foundation:Task_1<|\"|>]}");
    assert_eq!(str_field(&val, "message"), Some("ok"));
    let iris = json_get(&val, "iris").expect("iris");
    assert_eq!(json_item(iris, 0), Some(&s("foundation:Task_1")));
}

#[test]
fn gemma_args_array_multiple_items() {
    let val = parse_gemma_native_args("{iris:[<|\"|>foundation:A<|\"|>,<|\"|>foundation:B<|\"|>]}");
    let iris = json_get(&val, "iris").expect("iris");
    assert_eq!(json_item(iris, 0), Some(&s("foundation:A")));
    assert_eq!(json_item(iris, 1), Some(&s("foundation:B")));
}

#[test]
fn gemma_args_empty() {
    let val = parse_gemma_native_args("{}");
    match val {
        JsonValue::Object(m) => assert!(m.is_empty()),
        other => panic!("expected an object, got {:?}", other),
    }
}

// StreamProcessor

#[test]
fn stream_processor_emits_normal_text() {
    let mut p = StreamProcessor::new();
    let (emit, stop) = p.feed("hello world");
    assert_eq!(emit.as_deref(), Some("hello world"));
    assert!(!stop);
}

#[test]
fn stream_processor_suppresses_native_tool_call() {
    let mut p = StreamProcessor::new();
    let tokens = ["<|tool_call>", "call:speak{message:", "<|\"|>", "ok", "<|\"|>}", "<tool_call|>"];
    let mut emitted = String::new();
    for tok in tokens {
        let (emit, _) = p.feed(tok);
        if let Some(t) = emit {
            emitted.push_str(&t);
        }
    }
    assert!(emitted.is_empty(), "no text should have been emitted: {:?}", emitted);
}

#[test]
fn stream_processor_suppresses_xml_tool_call() {
    let mut p = StreamProcessor::new();
    let tokens = ["<tool", "_call>", "{\"name\":", "\"speak\",", "\"input\":", "{\"message\":\"ok\"}}", "</tool_call>"];
    let mut emitted = String::new();
    let mut stopped = false;
    for tok in tokens {
        let (emit, stop) = p.feed(tok);
        if let Some(t) = emit {
            emitted.push_str(&t);
        }
        if stop {
            stopped = true;
            break;
        }
    }
    assert!(emitted.is_empty(), "no text should have been emitted: {:?}", emitted);
    assert!(!stopped, "must not stop after </tool_call> — processing continues");
}

#[test]
fn stream_processor_emits_text_before_xml_tool_call() {
    let mut p = StreamProcessor::new();
    let (emit, _) = p.feed("text before");
    assert_eq!(emit.as_deref(), Some("text before"));
    let (emit2, _) = p.feed("<tool_call>");
    assert!(emit2.is_none());
    assert_eq!(p.state, StreamState::InToolCall);
}

#[test]
fn stream_processor_false_alarm_emits_lookahead() {
    let mut p = StreamProcessor::new();
    let (e1, _) = p.feed("<");
    assert!(e1.is_none());
    let (e2, _) = p.feed("p>some html that is not a tool call long enough");
    assert!(e2.is_some(), "must have flushed the lookahead");
    assert_eq!(p.state, StreamState::Text);
}

#[test]
fn stream_processor_flush_pending_text_returns_unemitted_lookahead() {
    let mut p = StreamProcessor::new();
    p.feed("<poss");
    let pending = p.flush_pending_text();
    assert!(pending.is_some());
    assert!(pending.unwrap().contains("<poss"));
}

// Context truncation

#[test]
fn truncate_does_not_remove_when_they_fit() {
    let mut msgs = vec![
        ("system".to_string(), "short system prompt".to_string()),
        ("user".to_string(), "short message".to_string()),
    ];
    truncate_messages_if_needed(&mut msgs);
    assert_eq!(msgs.len(), 2);
}

#[test]
fn truncate_removes_old_messages_keeping_system_and_last() {
    let large = "x".repeat(MAX_PROMPT_CHARS / 2 + 100);
    let mut msgs = vec![
        ("system".to_string(), "system".to_string()),
        ("user".to_string(), large.clone()),
        ("assistant".to_string(), "answer".to_string()),
        ("user".to_string(), "last message".to_string()),
    ];
    truncate_messages_if_needed(&mut msgs);
    assert_eq!(msgs[0].0, "system");
    assert_eq!(msgs.last().unwrap().1, "last message");
    let total: usize = msgs.iter().map(|(_, c)| c.len()).sum();
    assert!(total <= MAX_PROMPT_CHARS, "total {} > limit {}", total, MAX_PROMPT_CHARS);
}

// format_tools_for_prompt

#[test]
fn format_tools_empty_returns_empty() {
    assert_eq!(format_tools_for_prompt(&[]), "");
}

#[test]
fn format_tools_contains_name_and_format() {
    let tools = vec![speak_tool()];
    let prompt = format_tools_for_prompt(&tools);
    assert!(prompt.contains("speak"));
    assert!(prompt.contains("<|tool_call>"));
    assert!(prompt.contains("<tool_call|>"));
    assert!(prompt.contains("message"));
}

#[test]
fn format_tools_multiple_tools() {
    let tools = vec![
        speak_tool(),
        ToolDefinition {
            name: "search".to_string(),
            description: "Search the graph".to_string(),
            input_schema: obj(vec![
                ("properties", obj(vec![("query", obj(vec![("type", s("string"))]))])),
                ("required", JsonValue::Array(vec![s("query")])),
                ("type", s("object")),
            ]),
        },
    ];
    let prompt = format_tools_for_prompt(&tools);
    assert!(prompt.contains("speak"));
    assert!(prompt.contains("search"));
    assert!(prompt.contains("query: string"));
}

// Exact values of the renderers and parsers

#[test]
fn format_tools_lists_exact_signature_lines() {
    let tools = vec![speak_tool()];
    let prompt = format_tools_for_prompt(&tools);
    assert!(prompt.ends_with("## AVAILABLE TOOLS\n\n- speak(message: string) — Respond to the user with text\n"));
}

#[test]
fn format_gemma_native_value_renders_nested_values() {
    let v = obj(vec![
        ("iris", JsonValue::Array(vec![s("a"), JsonValue::Number("2".to_string())])),
        ("ok", JsonValue::Bool(true)),
        ("x", JsonValue::Null),
    ]);
    assert_eq!(format_gemma_native_value(&v), "{iris:[<|\"|>a<|\"|>,2],ok:true,x:null}");
}

#[test]
fn gemma_args_bare_values_and_repeated_keys() {
    let val = parse_gemma_native_args("{n:42,flag:true,none:null,word:abc,n:-7}");
    assert_eq!(json_get(&val, "n"), Some(&JsonValue::Number("-7".to_string())));
    assert_eq!(json_get(&val, "flag"), Some(&JsonValue::Bool(true)));
    assert_eq!(json_get(&val, "none"), Some(&JsonValue::Null));
    assert_eq!(str_field(&val, "word"), Some("abc"));
    match val {
        JsonValue::Object(m) => {
            let keys: Vec<&str> = m.iter().map(|(k, _)| k.as_str()).collect();
            assert_eq!(keys, vec!["flag", "n", "none", "word"]);
        }
        other => panic!("expected an object, got {:?}", other),
    }
}

#[test]
fn parse_tool_call_ids_are_numbered() {
    let raw = "<|tool_call>call:a{}<tool_call|><|tool_call>call:b{}<tool_call|>";
    let calls = parse_all_tool_calls_from_output(raw);
    assert_eq!(calls.len(), 2);
    assert!(calls[0].id.starts_with("local_") && calls[0].id.ends_with("_0"));
    assert!(calls[1].id.starts_with("local_") && calls[1].id.ends_with("_1"));
}

#[test]
fn parse_tool_call_call_syntax_as_last_fallback() {
    let calls = parse_all_tool_calls_from_output("I will now call: search({\"query\": {\"q\": 1}}) ok");
    assert_eq!(calls.len(), 1);
    assert_eq!(calls[0].name, "search");
    assert!(!calls[0].id[6..].contains('_'));
    let q = json_get(&calls[0].input, "query").expect("query");
    assert_eq!(json_get(q, "q"), Some(&JsonValue::Number("1".to_string())));
}

#[test]
fn stream_processor_passes_tag_free_text_with_angle_brackets_unchanged() {
    let tokens = ["a <b", "> c <", "tool", "_cal", "l x", " <|too", "l_ca", "ll y <", "!-- z --> end <"];
    let mut p = StreamProcessor::new();
    let mut out = String::new();
    for tok in tokens {
        let (emit, _) = p.feed(tok);
        if let Some(t) = emit {
            out.push_str(&t);
        }
    }
    out.push_str(&p.flush_pending_text().unwrap_or_default());
    assert_eq!(out, tokens.concat());
}

#[test]
fn gemma_args_read_back_what_is_written() {
    let v = obj(vec![
        ("count", JsonValue::Number("-42".to_string())),
        ("done", JsonValue::Bool(false)),
        ("iris", JsonValue::Array(vec![s("foundation:A"), s("foundation:B"), JsonValue::Number("7".to_string())])),
        ("message", s("Olá, {mundo}: tudo bem?")),
        ("none", JsonValue::Null),
    ]);
    let text = format_gemma_native_value(&v);
    assert_eq!(parse_gemma_native_args(&text), v);
}

#[test]
fn gemma_nested_args_read_back_what_is_written() {
    let v = obj(vec![
        ("filter", obj(vec![("kind", s("foundation:Person")), ("tags", JsonValue::Array(vec![s("a"), JsonValue::Array(vec![])]))])),
        ("limit", JsonValue::Number("10".to_string())),
        ("pairs", JsonValue::Array(vec![obj(vec![("x", JsonValue::Bool(true))]), obj(vec![])])),
    ]);
    let text = format_gemma_native_value(&v);
    assert_eq!(parse_gemma_native_args(&text), v);
}

#[test]
fn stream_processor_never_shows_a_tag_split_across_a_flush() {
    let long = format!("p>{}<tool", "a".repeat(20));
    let tokens = ["<", long.as_str(), "_call>{}", "</tool_call>", "<tool_call|>", " fim"];
    let mut p = StreamProcessor::new();
    let mut out = String::new();
    for tok in tokens {
        let (emit, _) = p.feed(tok);
        if let Some(t) = emit {
            out.push_str(&t);
        }
    }
    assert!(!out.contains("<tool_call>"), "markup leaked: {:?}", out);
    assert!(!out.contains("<|tool_call>"), "markup leaked: {:?}", out);
    assert!(out.starts_with("<p>aaaa"), "text before the tag is shown: {:?}", out);
}

#[test]
fn stream_processor_hides_a_partial_tag_right_before_a_tool_call() {
    let tokens = ["ok <too", "<tool_call>", "{}", "</tool_call>", "l_call> x"];
    let mut p = StreamProcessor::new();
    let mut out = String::new();
    for tok in tokens {
        let (emit, _) = p.feed(tok);
        if let Some(t) = emit {
            out.push_str(&t);
        }
    }
    if let Some(t) = p.flush_pending_text() {
        out.push_str(&t);
    }
    assert!(!out.contains("<tool_call>"), "markup leaked: {:?}", out);
}

#[test]
fn gemma_args_with_fractions_read_back_what_is_written() {
    let v = obj(vec![
        ("ratio", JsonValue::Number("1.5".to_string())),
        ("tiny", JsonValue::Number("0.0025".to_string())),
        ("values", JsonValue::Array(vec![JsonValue::Number("-3.25".to_string())])),
    ]);
    let text = format_gemma_native_value(&v);
    assert_eq!(parse_gemma_native_args(&text), v);
}
