use foundation_ai::json::JsonValue;
use foundation_ai::providers::claude::{
    add_cache_breakpoint, api_status_error, beta_header, block_to_json, claude_messages, claude_plain_body,
    claude_stream_body, content_to_json, stream_tools, system_blocks, ClaudeMessage, NO_MODEL_ERROR,
    NO_MODEL_PLAIN_ERROR,
};
use foundation_ai::providers::claude_stream::ClaudeStream;
use foundation_ai::providers::openrouter::{
    build_openai_messages, build_openai_tools, chat_completions_url, error_detail_of, inject_cache_control_openrouter,
    openrouter_error_message, openrouter_plain_body, openrouter_request_body, openrouter_stream_body,
};
use foundation_ai::providers::openrouter_stream::OpenRouterStream;
use foundation_ai::providers::replies::{read_completion_reply, read_message_reply};
use foundation_ai::providers::{
    ChatMessage, ClaudeTool, ContentBlock, GenerateRequest, ImageSource, MessageContent, ThinkingBlock,
    ThinkingConfig, ToolDefinition,
};

fn json(v: serde_json::Value) -> JsonValue {
    match v {
        serde_json::Value::Null => JsonValue::Null,
        serde_json::Value::Bool(b) => JsonValue::Bool(b),
        serde_json::Value::Number(n) => JsonValue::Number(n.to_string()),
        serde_json::Value::String(s) => JsonValue::Str(s),
        serde_json::Value::Array(a) => JsonValue::Array(a.into_iter().map(json).collect()),
        serde_json::Value::Object(m) => JsonValue::Object(m.into_iter().map(|(k, x)| (k, json(x))).collect()),
    }
}

fn parse(text: &str) -> JsonValue {
    json(serde_json::from_str(text).unwrap())
}

/// The value as `serde_json` holds it, to compare with expected JSON text.
fn serde(v: &JsonValue) -> serde_json::Value {
    match v {
        JsonValue::Null => serde_json::Value::Null,
        JsonValue::Bool(b) => serde_json::Value::Bool(*b),
        JsonValue::Number(n) => serde_json::from_str(n).unwrap(),
        JsonValue::Str(s) => serde_json::Value::String(s.clone()),
        JsonValue::Array(a) => serde_json::Value::Array(a.iter().map(serde).collect()),
        JsonValue::Object(m) => {
            let mut out = serde_json::Map::new();
            for (k, x) in m {
                out.insert(k.clone(), serde(x));
            }
            serde_json::Value::Object(out)
        },
    }
}

fn same(v: &JsonValue, expected: &str) {
    let want: serde_json::Value = serde_json::from_str(expected).unwrap();
    assert_eq!(serde(v), want);
}

/// The keys of an object are in sorted order, as `serde_json` keeps them.
fn keys_sorted(v: &JsonValue) -> bool {
    match v {
        JsonValue::Object(m) => m.windows(2).all(|w| w[0].0 < w[1].0) && m.iter().all(|(_, x)| keys_sorted(x)),
        JsonValue::Array(a) => a.iter().all(keys_sorted),
        _ => true,
    }
}

fn text_msg(role: &str, t: &str) -> ChatMessage {
    ChatMessage::text(role.to_string(), t.to_string())
}

fn blocks_msg(role: &str, bs: Vec<ContentBlock>) -> ChatMessage {
    ChatMessage { role: role.to_string(), content: MessageContent::ContentBlocks(bs) }
}

fn request(messages: Vec<ChatMessage>) -> GenerateRequest {
    GenerateRequest {
        messages,
        max_tokens: None,
        temperature: None,
        system: None,
        blackboard_context: None,
        tools: None,
        supports_web_tools: false,
        thinking: None,
        tool_choice: None,
    }
}

fn tool(name: &str) -> ToolDefinition {
    ToolDefinition {
        name: name.to_string(),
        description: format!("{} tool", name),
        input_schema: parse(r#"{"type":"object"}"#),
    }
}

// ---------------------------------------------------------------------------
// Anthropic messages API
// ---------------------------------------------------------------------------

#[test]
fn block_json_shapes() {
    same(&block_to_json(&ContentBlock::Text { text: "oi".to_string() }), r#"{"type":"text","text":"oi"}"#);
    same(
        &block_to_json(&ContentBlock::Image {
            source: ImageSource {
                source_type: "base64".to_string(),
                media_type: "image/png".to_string(),
                data: "AAA".to_string(),
            },
        }),
        r#"{"type":"image","source":{"type":"base64","media_type":"image/png","data":"AAA"}}"#,
    );
    same(
        &block_to_json(&ContentBlock::ToolResult {
            tool_use_id: "t1".to_string(),
            content: JsonValue::Str("ok".to_string()),
            is_error: None,
        }),
        r#"{"type":"tool_result","tool_use_id":"t1","content":"ok"}"#,
    );
    same(
        &block_to_json(&ContentBlock::ToolResult {
            tool_use_id: "t1".to_string(),
            content: JsonValue::Str("ok".to_string()),
            is_error: Some(true),
        }),
        r#"{"type":"tool_result","tool_use_id":"t1","content":"ok","is_error":true}"#,
    );
    same(
        &block_to_json(&ContentBlock::RedactedThinking { data: "d".to_string() }),
        r#"{"type":"redacted_thinking","data":"d"}"#,
    );
    let v = content_to_json(&MessageContent::Text("plain".to_string()));
    same(&v, r#""plain""#);
}

#[test]
fn cache_breakpoint_on_text_and_blocks() {
    let mut m = ClaudeMessage { role: "user".to_string(), content: JsonValue::Str("oi".to_string()) };
    add_cache_breakpoint(&mut m);
    same(&m.content, r#"[{"type":"text","text":"oi","cache_control":{"type":"ephemeral"}}]"#);
    let mut m2 = ClaudeMessage {
        role: "user".to_string(),
        content: parse(r#"[{"type":"text","text":"a"},{"type":"text","text":"b"}]"#),
    };
    add_cache_breakpoint(&mut m2);
    same(
        &m2.content,
        r#"[{"type":"text","text":"a"},{"type":"text","text":"b","cache_control":{"type":"ephemeral"}}]"#,
    );
    assert!(keys_sorted(&m2.content));
}

fn marked(m: &ClaudeMessage) -> bool {
    match &m.content {
        JsonValue::Array(items) => items.iter().any(|b| match b {
            JsonValue::Object(members) => members.iter().any(|(k, _)| k == "cache_control"),
            _ => false,
        }),
        _ => false,
    }
}

#[test]
fn breakpoints_at_multiples_of_twenty() {
    let ms: Vec<ChatMessage> = (0..45).map(|i| text_msg("user", &format!("m{}", i))).collect();
    let cms = claude_messages(ms);
    let marks: Vec<usize> = (0..cms.len()).filter(|&i| marked(&cms[i])).collect();
    assert_eq!(marks, vec![19, 39]);

    let ms: Vec<ChatMessage> = (0..25).map(|i| text_msg("user", &format!("m{}", i))).collect();
    let cms = claude_messages(ms);
    let marks: Vec<usize> = (0..cms.len()).filter(|&i| marked(&cms[i])).collect();
    assert_eq!(marks, vec![19]);

    let ms: Vec<ChatMessage> = (0..20).map(|i| text_msg("user", &format!("m{}", i))).collect();
    let cms = claude_messages(ms);
    assert!(cms.iter().all(|m| !marked(m)));

    let ms: Vec<ChatMessage> = (0..61).map(|i| text_msg("user", &format!("m{}", i))).collect();
    let cms = claude_messages(ms);
    let marks: Vec<usize> = (0..cms.len()).filter(|&i| marked(&cms[i])).collect();
    assert_eq!(marks, vec![39, 59]);
}

#[test]
fn stream_tools_mark_last_and_add_web_tools() {
    let ts = vec![tool("search"), tool("speak")];
    let plain = stream_tools(&ts, false);
    assert_eq!(plain.len(), 2);
    same(
        &plain[1],
        r#"{"name":"speak","description":"speak tool","input_schema":{"type":"object"},"cache_control":{"type":"ephemeral"}}"#,
    );
    let web = stream_tools(&ts, true);
    assert_eq!(web.len(), 4);
    same(&web[2], r#"{"type":"web_search_20260209","name":"web_search","max_uses":5}"#);
    same(
        &web[3],
        r#"{"type":"web_fetch_20260209","name":"web_fetch","max_uses":5,"max_content_tokens":100000,"citations":{"enabled":true},"cache_control":{"type":"ephemeral"}}"#,
    );
    assert_eq!(beta_header(true), "prompt-caching-2024-07-31,code-execution-web-tools-2026-02-09");
    assert_eq!(beta_header(false), "prompt-caching-2024-07-31");
}

#[test]
fn system_blocks_cache_only_the_prompt() {
    assert!(system_blocks(None, None).is_none());
    let v = system_blocks(Some("sys".to_string()), Some("ctx".to_string())).unwrap();
    same(
        &v,
        r#"[{"type":"text","text":"sys","cache_control":{"type":"ephemeral"}},{"type":"text","text":"ctx"}]"#,
    );
}

#[test]
fn claude_stream_body_and_missing_model() {
    let mut req = request(vec![text_msg("user", "oi")]);
    req.system = Some("sys".to_string());
    req.thinking = Some(ThinkingConfig::Adaptive);
    req.tools = Some(vec![tool("search")]);
    let body = claude_stream_body(req, Some("model-x".to_string())).unwrap();
    same(
        &body,
        r#"{"max_tokens":4096,"messages":[{"role":"user","content":"oi"}],"model":"model-x","stream":true,
            "system":[{"type":"text","text":"sys","cache_control":{"type":"ephemeral"}}],
            "thinking":{"type":"adaptive"},
            "tools":[{"name":"search","description":"search tool","input_schema":{"type":"object"},"cache_control":{"type":"ephemeral"}}]}"#,
    );
    assert!(keys_sorted(&body));
    let err = claude_stream_body(request(vec![]), None).unwrap_err();
    assert_eq!(err, NO_MODEL_ERROR);
}

#[test]
fn claude_plain_body_has_no_marks() {
    let mut req = request(vec![text_msg("user", "oi")]);
    req.max_tokens = Some(100);
    req.system = Some("sys".to_string());
    req.blackboard_context = Some("ctx".to_string());
    req.tools = Some(vec![tool("search")]);
    req.supports_web_tools = true;
    req.temperature = Some(JsonValue::Number("0.5".to_string()));
    let body = claude_plain_body(req, Some("m".to_string())).unwrap();
    same(
        &body,
        r#"{"max_tokens":100,"messages":[{"role":"user","content":"oi"}],"model":"m",
            "system":[{"type":"text","text":"sys","cache_control":{"type":"ephemeral"}}],
            "temperature":0.5,
            "tools":[{"name":"search","description":"search tool","input_schema":{"type":"object"}}]}"#,
    );
    assert_eq!(claude_plain_body(request(vec![]), None).unwrap_err(), NO_MODEL_PLAIN_ERROR);
    assert_eq!(api_status_error("500 Internal Server Error", "boom"), "API request failed with status 500 Internal Server Error: boom");
}

#[test]
fn claude_stream_reads_events_across_chunks() {
    let mut s = ClaudeStream::new();
    let d1 = s.feed("data: {\"type\":\"message_start\",\"message\":{\"usage\":{\"input_tokens\":10,\"output_tokens\":1}}}\n");
    assert!(d1.is_empty());
    s.feed("data: {\"type\":\"content_block_start\",\"index\":0,\"content_block\":{\"type\":\"thinking\"}}\n");
    let d2 = s.feed("data: {\"type\":\"content_block_delta\",\"index\":0,\"delta\":{\"type\":\"thinking_delta\",\"thinking\":\"hmm\"}}\r\n");
    assert_eq!(d2.len(), 1);
    assert!(d2[0].thinking);
    assert_eq!(d2[0].text, "hmm");
    s.feed("data: {\"type\":\"content_block_delta\",\"index\":0,\"delta\":{\"type\":\"signature_delta\",\"signature\":\"sig\"}}\n");
    s.feed("data: {\"type\":\"content_block_start\",\"index\":1,\"content_block\":{\"type\":\"text\"}}\n");
    // A line split across two chunks.
    let part = s.feed("data: {\"type\":\"content_block_delta\",\"index\":1,\"delta\":{\"type\":\"text_");
    assert!(part.is_empty());
    let d3 = s.feed("delta\",\"text\":\"Olá\"}}\n: ping\n");
    assert_eq!(d3.len(), 1);
    assert!(!d3[0].thinking);
    assert_eq!(d3[0].text, "Olá");
    s.feed("data: {\"type\":\"content_block_start\",\"index\":2,\"content_block\":{\"type\":\"tool_use\",\"id\":\"tu1\",\"name\":\"search\"}}\n");
    s.feed("data: {\"type\":\"content_block_delta\",\"index\":2,\"delta\":{\"type\":\"input_json_delta\",\"partial_json\":\"{\\\"q\\\":\"}}\n");
    s.feed("data: {\"type\":\"content_block_delta\",\"index\":2,\"delta\":{\"type\":\"input_json_delta\",\"partial_json\":\"\\\"x\\\"}\"}}\n");
    s.feed("data: {\"type\":\"message_delta\",\"delta\":{\"stop_reason\":\"tool_use\"},\"usage\":{\"input_tokens\":10,\"output_tokens\":7}}\n");
    s.feed("data: [DONE]\n");
    let r = s.finish();
    assert_eq!(r.content, "Olá");
    assert_eq!(r.stop_reason.as_deref(), Some("tool_use"));
    let u = r.usage.unwrap();
    assert_eq!((u.input_tokens, u.output_tokens), (10, 7));
    assert_eq!(r.thinking_blocks.len(), 1);
    assert!(matches!(&r.thinking_blocks[0], ThinkingBlock::Thinking { thinking, signature } if thinking == "hmm" && signature == "sig"));
    assert_eq!(r.tool_calls.len(), 1);
    assert_eq!(r.tool_calls[0].id, "tu1");
    same(&r.tool_calls[0].input, r#"{"q":"x"}"#);
    assert!(r.model_used.is_none());
}

#[test]
fn claude_stream_bad_arguments_become_empty_object() {
    let mut s = ClaudeStream::new();
    s.feed("data: {\"type\":\"content_block_start\",\"index\":0,\"content_block\":{\"type\":\"tool_use\",\"id\":\"a\",\"name\":\"n\"}}\n");
    s.feed("data: {\"type\":\"content_block_delta\",\"index\":0,\"delta\":{\"type\":\"input_json_delta\",\"partial_json\":\"{oops\"}}\n");
    s.feed("data: not json\n");
    let r = s.finish();
    same(&r.tool_calls[0].input, "{}");
}

#[test]
fn message_reply_reads_text_calls_usage() {
    let body = parse(
        r#"{"stop_reason":"tool_use","content":[{"type":"thinking","thinking":"x"},{"type":"text","text":"primeiro"},
            {"type":"text","text":"segundo"},{"type":"tool_use","id":"t1","name":"search","input":{"q":1}},
            {"type":"tool_use","name":"sem_id"}],
            "usage":{"input_tokens":3,"output_tokens":4,"cache_creation_input_tokens":5,"cache_read_input_tokens":6}}"#,
    );
    let r = read_message_reply(&body);
    assert_eq!(r.content, "primeiro");
    assert_eq!(r.stop_reason.as_deref(), Some("tool_use"));
    assert_eq!(r.tool_calls.len(), 1);
    assert_eq!(r.tool_calls[0].name, "search");
    same(&r.tool_calls[0].input, r#"{"q":1}"#);
    let u = r.usage.unwrap();
    assert_eq!(
        (u.input_tokens, u.output_tokens, u.cache_creation_input_tokens, u.cache_read_input_tokens),
        (3, 4, 5, 6)
    );
    let empty = read_message_reply(&parse("{}"));
    assert_eq!(empty.content, "");
    assert!(empty.usage.is_none());
    assert!(empty.stop_reason.is_none());
}

// ---------------------------------------------------------------------------
// Chat completions API (OpenRouter)
// ---------------------------------------------------------------------------

#[test]
fn openai_messages_from_blocks() {
    let ms = vec![
        text_msg("user", "oi"),
        blocks_msg(
            "assistant",
            vec![
                ContentBlock::Text { text: "vou buscar".to_string() },
                ContentBlock::ToolUse { id: "c1".to_string(), name: "search".to_string(), input: parse(r#"{"q":"x"}"#) },
            ],
        ),
        blocks_msg(
            "user",
            vec![ContentBlock::ToolResult {
                tool_use_id: "c1".to_string(),
                content: parse(r#"{"n":2}"#),
                is_error: None,
            }],
        ),
        blocks_msg(
            "assistant",
            vec![ContentBlock::ToolUse { id: "c2".to_string(), name: "speak".to_string(), input: parse("{}") }],
        ),
        blocks_msg(
            "user",
            vec![ContentBlock::Text { text: "a".to_string() }, ContentBlock::Text { text: "b".to_string() }],
        ),
    ];
    let out = build_openai_messages(Some("sys".to_string()), Some("ctx".to_string()), ms);
    let v = JsonValue::Array(out);
    same(
        &v,
        r#"[{"role":"system","content":"sys\n\nctx"},
            {"role":"user","content":"oi"},
            {"role":"assistant","content":"vou buscar","tool_calls":[{"id":"c1","type":"function","function":{"name":"search","arguments":"{\"q\":\"x\"}"}}]},
            {"role":"tool","tool_call_id":"c1","content":"{\"n\":2}"},
            {"role":"assistant","content":"","tool_calls":[{"id":"c2","type":"function","function":{"name":"speak","arguments":"{}"}}]},
            {"role":"user","content":[{"type":"text","text":"a"},{"type":"text","text":"b"}]}]"#,
    );
    assert!(keys_sorted(&v));
}

#[test]
fn openai_tools_shape() {
    let ts = vec![ClaudeTool {
        name: "search".to_string(),
        description: "Busca".to_string(),
        input_schema: parse(r#"{"type":"object"}"#),
    }];
    let out = build_openai_tools(&ts);
    same(
        &out[0],
        r#"{"type":"function","function":{"name":"search","description":"Busca","parameters":{"type":"object"}}}"#,
    );
}

#[test]
fn openrouter_cache_control_on_string_and_array() {
    let mut m = parse(r#"{"role":"user","content":"oi"}"#);
    inject_cache_control_openrouter(&mut m);
    same(&m, r#"{"role":"user","content":[{"type":"text","text":"oi","cache_control":{"type":"ephemeral"}}]}"#);
    let mut m2 = parse(r#"{"role":"user","content":[{"type":"text","text":"a"}]}"#);
    inject_cache_control_openrouter(&mut m2);
    same(&m2, r#"{"role":"user","content":[{"type":"text","text":"a","cache_control":{"type":"ephemeral"}}]}"#);
    let mut m3 = parse(r#"{"role":"user","content":null}"#);
    inject_cache_control_openrouter(&mut m3);
    same(&m3, r#"{"role":"user","content":null}"#);
}

#[test]
fn openrouter_body_with_fallbacks_and_tools() {
    let msgs = vec![parse(r#"{"role":"user","content":"oi"}"#)];
    let body = openrouter_request_body(
        msgs,
        Some(10),
        "a/m".to_string(),
        &vec!["b/m".to_string()],
        Some(JsonValue::Number("0.2".to_string())),
        Some(vec![tool("search")]),
        None,
        true,
    );
    same(
        &body,
        r#"{"max_tokens":10,"messages":[{"role":"user","content":"oi"}],"models":["a/m","b/m"],"stream":true,
            "stream_options":{"include_usage":true},"temperature":0.2,"tool_choice":"auto",
            "tools":[{"type":"function","function":{"name":"search","description":"search tool","parameters":{"type":"object"}}}]}"#,
    );
    assert!(keys_sorted(&body));
    let plain = openrouter_request_body(vec![], None, "m".to_string(), &vec![], None, Some(vec![]), None, false);
    same(&plain, r#"{"max_tokens":4096,"messages":[],"model":"m"}"#);
}

#[test]
fn openrouter_stream_body_marks_first_user_for_anthropic() {
    let ms = vec![text_msg("assistant", "antes"), text_msg("user", "um"), text_msg("user", "dois")];
    let body = openrouter_stream_body(request(ms), Some("anthropic/opus".to_string()), &vec![]).unwrap();
    let msgs = match &body {
        JsonValue::Object(m) => &m.iter().find(|(k, _)| k == "messages").unwrap().1,
        _ => panic!("object expected"),
    };
    same(
        msgs,
        r#"[{"role":"assistant","content":"antes"},
            {"role":"user","content":[{"type":"text","text":"um","cache_control":{"type":"ephemeral"}}]},
            {"role":"user","content":"dois"}]"#,
    );
    let other = openrouter_stream_body(request(vec![text_msg("user", "um")]), Some("openai/gpt".to_string()), &vec![])
        .unwrap();
    same(
        &other,
        r#"{"max_tokens":4096,"messages":[{"role":"user","content":"um"}],"model":"openai/gpt","stream":true,"stream_options":{"include_usage":true}}"#,
    );
    assert_eq!(openrouter_stream_body(request(vec![]), None, &vec![]).unwrap_err(), NO_MODEL_ERROR);
    assert_eq!(openrouter_plain_body(request(vec![]), None, &vec![]).unwrap_err(), NO_MODEL_PLAIN_ERROR);
    let plain = openrouter_plain_body(request(vec![text_msg("user", "um")]), Some("anthropic/x".to_string()), &vec![])
        .unwrap();
    same(&plain, r#"{"max_tokens":4096,"messages":[{"role":"user","content":"um"}],"model":"anthropic/x"}"#);
}

#[test]
fn completions_url_trims_slashes() {
    assert_eq!(chat_completions_url("https://openrouter.ai/api/v1"), "https://openrouter.ai/api/v1/chat/completions");
    assert_eq!(chat_completions_url("https://x.io/v1//"), "https://x.io/v1/chat/completions");
}

#[test]
fn error_messages_by_status() {
    let raw = r#"{"error":{"message":"outer","metadata":{"raw":"provider rate-limited upstream"}}}"#;
    assert_eq!(error_detail_of(raw), "provider rate-limited upstream");
    assert_eq!(error_detail_of(r#"{"error":{"message":"bad"}}"#), "bad");
    assert_eq!(error_detail_of("not json"), "not json");
    assert_eq!(
        openrouter_error_message(429, "429 Too Many Requests", raw),
        "Limite de requisições atingido: provider rate-limited upstream\n\nTente novamente em alguns segundos, ou configure sua própria chave de API nas configurações."
    );
    assert_eq!(
        openrouter_error_message(429, "429 Too Many Requests", r#"{"error":{"message":"slow down"}}"#),
        "Muitas requisições (429): slow down"
    );
    assert_eq!(
        openrouter_error_message(401, "401 Unauthorized", "x"),
        "Chave de API inválida ou expirada. Verifique suas configurações.\n\nDetalhes: x"
    );
    assert_eq!(
        openrouter_error_message(403, "403 Forbidden", "x"),
        "Acesso negado. Verifique suas permissões ou chave de API.\n\nDetalhes: x"
    );
    assert_eq!(
        openrouter_error_message(502, "502 Bad Gateway", "x"),
        "Erro no servidor do provedor (502 Bad Gateway). Tente novamente em alguns minutos.\n\nDetalhes: x"
    );
    assert_eq!(openrouter_error_message(418, "418 I'm a teapot", "x"), "Erro 418 I'm a teapot do OpenRouter: x");
}

#[test]
fn openrouter_stream_collects_text_calls_and_usage() {
    let mut s = OpenRouterStream::new();
    let d = s.feed("data: {\"model\":\"vendor/m\",\"choices\":[{\"delta\":{\"content\":\"Ol\"}}]}\n");
    assert_eq!(d, vec!["Ol".to_string()]);
    let d = s.feed("data: {\"model\":\"other\",\"choices\":[{\"delta\":{\"content\":\"á\"},\"finish_reason\":null}]}\n");
    assert_eq!(d, vec!["á".to_string()]);
    s.feed("data: {\"choices\":[{\"delta\":{\"tool_calls\":[{\"index\":1,\"id\":\"c2\",\"function\":{\"name\":\"speak\",\"arguments\":\"{\\\"m\\\"\"}}]}}]}\n");
    s.feed("data: {\"choices\":[{\"delta\":{\"tool_calls\":[{\"index\":1,\"function\":{\"arguments\":\":1}\"}}]}}]}\n");
    s.feed("data: {\"choices\":[{\"delta\":{},\"finish_reason\":\"tool_calls\"}]}\n");
    s.feed("data: {\"choices\":[],\"usage\":{\"prompt_tokens\":12,\"completion_tokens\":3}}\n");
    s.feed("data: [DONE]\n");
    let r = s.finish();
    assert_eq!(r.content, "Olá");
    assert_eq!(r.model_used.as_deref(), Some("vendor/m"));
    assert_eq!(r.stop_reason.as_deref(), Some("tool_calls"));
    let u = r.usage.unwrap();
    assert_eq!((u.input_tokens, u.output_tokens, u.cache_creation_input_tokens), (12, 3, 0));
    // Call 0 never received a name: it is dropped.
    assert_eq!(r.tool_calls.len(), 1);
    assert_eq!(r.tool_calls[0].id, "c2");
    same(&r.tool_calls[0].input, r#"{"m":1}"#);
    assert!(r.thinking_blocks.is_empty());
}

#[test]
fn openrouter_stream_ignores_null_finish_text() {
    let mut s = OpenRouterStream::new();
    s.feed("data: {\"choices\":[{\"delta\":{\"content\":\"\"},\"finish_reason\":\"null\"}]}\n");
    s.feed("data: {\"choices\":[{\"delta\":{},\"finish_reason\":\"\"}]}\n");
    let r = s.finish();
    assert!(r.stop_reason.is_none());
    assert_eq!(r.content, "");
}

#[test]
fn completion_reply_reads_first_choice() {
    let resp = parse(
        r#"{"model":"vendor/m","choices":[{"finish_reason":"tool_calls","message":{"content":null,
            "tool_calls":[{"id":"c1","function":{"name":"search","arguments":"{\"q\":2}"}},
                          {"id":"c2","function":{"name":"speak"}},
                          {"function":{"name":"no_id"}}]}}],
            "usage":{"prompt_tokens":7,"completion_tokens":8}}"#,
    );
    let r = read_completion_reply(&resp);
    assert_eq!(r.content, "");
    assert_eq!(r.stop_reason.as_deref(), Some("tool_calls"));
    assert_eq!(r.model_used.as_deref(), Some("vendor/m"));
    assert_eq!(r.tool_calls.len(), 2);
    same(&r.tool_calls[0].input, r#"{"q":2}"#);
    same(&r.tool_calls[1].input, "{}");
    let u = r.usage.unwrap();
    assert_eq!((u.input_tokens, u.output_tokens), (7, 8));
    let bare = read_completion_reply(&parse(r#"{"choices":[{"message":{"content":"oi"}}]}"#));
    assert_eq!(bare.content, "oi");
    assert!(bare.usage.is_none());
    assert!(bare.model_used.is_none());
}

const CLAUDE_EVENTS: &str = "data: {\"type\":\"content_block_start\",\"index\":0,\"content_block\":{\"type\":\"text\"}}\n\
data: {\"type\":\"content_block_delta\",\"index\":0,\"delta\":{\"type\":\"text_delta\",\"text\":\"Olá, \"}}\r\n\
data: {\"type\":\"content_block_delta\",\"index\":0,\"delta\":{\"type\":\"text_delta\",\"text\":\"mundo\"}}\n\
data: {\"type\":\"message_delta\",\"delta\":{\"stop_reason\":\"end_turn\"},\"usage\":{\"input_tokens\":1,\"output_tokens\":2}}\n";

#[test]
fn claude_stream_same_result_however_split() {
    let chars: Vec<char> = CLAUDE_EVENTS.chars().collect();
    for cut in 0..=chars.len() {
        let a: String = chars[..cut].iter().collect();
        let b: String = chars[cut..].iter().collect();
        let mut s = ClaudeStream::new();
        let mut shown: Vec<String> = s.feed(&a).into_iter().map(|d| d.text).collect();
        shown.extend(s.feed(&b).into_iter().map(|d| d.text));
        assert_eq!(shown, vec!["Olá, ".to_string(), "mundo".to_string()]);
        let r = s.finish();
        assert_eq!(r.content, "Olá, mundo");
        assert_eq!(r.stop_reason.as_deref(), Some("end_turn"));
    }
}

const COMPLETION_CHUNKS: &str = "data: {\"model\":\"v/m\",\"choices\":[{\"delta\":{\"content\":\"ab\"}}]}\n\
: keep-alive\n\
data: {\"choices\":[{\"delta\":{\"tool_calls\":[{\"index\":0,\"id\":\"c\",\"function\":{\"name\":\"f\",\"arguments\":\"{}\"}}]},\"finish_reason\":\"tool_calls\"}]}\n";

#[test]
fn openrouter_stream_same_result_however_split() {
    let chars: Vec<char> = COMPLETION_CHUNKS.chars().collect();
    for cut in 0..=chars.len() {
        let a: String = chars[..cut].iter().collect();
        let b: String = chars[cut..].iter().collect();
        let mut s = OpenRouterStream::new();
        let mut shown = s.feed(&a);
        shown.extend(s.feed(&b));
        assert_eq!(shown, vec!["ab".to_string()]);
        let r = s.finish();
        assert_eq!(r.content, "ab");
        assert_eq!(r.model_used.as_deref(), Some("v/m"));
        assert_eq!(r.tool_calls.len(), 1);
        assert_eq!(r.stop_reason.as_deref(), Some("tool_calls"));
    }
}

#[test]
fn stream_after_done_waits_in_buffer() {
    let mut s = OpenRouterStream::new();
    s.feed("data: [DONE]\ndata: {\"choices\":[{\"delta\":{\"content\":\"late\"}}]}\n");
    assert_eq!(s.text, "");
    assert!(s.buf.starts_with("data: {"));
}
