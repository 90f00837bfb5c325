use foundation_ai::local_xml::{
    parse_python_speak_output, truncate_messages_if_needed, StreamProcessor, StreamState,
    MAX_PROMPT_CHARS,
};

#[test]
fn parser_python_extrai_mensagem_aspas_duplas() {
    let raw = r#"speak(message="Olá! Como posso ajudar?")"#;
    assert_eq!(parse_python_speak_output(raw), "Olá! Como posso ajudar?");
}

#[test]
fn parser_python_extrai_mensagem_aspas_simples() {
    let raw = "speak(message='Olá mundo')";
    assert_eq!(parse_python_speak_output(raw), "Olá mundo");
}

#[test]
fn parser_python_remove_marcador_end_of_turn() {
    let raw = "speak(message=\"Resposta\")\n<end_of_turn>";
    assert_eq!(parse_python_speak_output(raw), "Resposta");
}

#[test]
fn parser_python_remove_marcador_eos() {
    let raw = "speak(message=\"Resposta\")<eos>";
    assert_eq!(parse_python_speak_output(raw), "Resposta");
}

#[test]
fn parser_python_trata_aspas_escapadas() {
    let raw = r#"speak(message="Ele disse \"olá\" para mim")"#;
    assert_eq!(parse_python_speak_output(raw), r#"Ele disse "olá" para mim"#);
}

#[test]
fn parser_python_usa_ultimo_speak_quando_modelo_escreve_raciocinio_antes() {
    let raw = "Deixa eu pensar...\nspeak(message=\"Resposta final\")";
    assert_eq!(parse_python_speak_output(raw), "Resposta final");
}

#[test]
fn parser_python_fallback_para_texto_limpo_sem_speak() {
    let raw = "Resposta sem wrapper\n<end_of_turn>";
    assert_eq!(parse_python_speak_output(raw), "Resposta sem wrapper");
}

#[test]
fn parser_python_fallback_string_vazia() {
    assert_eq!(parse_python_speak_output(""), "");
}

#[test]
fn parser_python_speak_com_iris_none_extrai_so_message() {
    let raw = r#"speak(message="Olá!", iris=None)"#;
    assert_eq!(parse_python_speak_output(raw), "Olá!");
}

#[test]
fn stream_processor_emite_texto_normal() {
    let mut p = StreamProcessor::new();
    let (emit, stop) = p.feed("olá mundo");
    assert_eq!(emit.as_deref(), Some("olá mundo"));
    assert!(!stop);
}

#[test]
fn stream_processor_suprime_tool_call_completo() {
    let mut p = StreamProcessor::new();
    let tokens = ["<tool", "_call>", "{\"name\":", "\"speak\",", "\"input\":", "{\"message\":\"ok\"}}", "</tool_call>"];
    let mut emitted = String::new();
    let mut stopped = false;
    for tok in tokens {
        let (emit, stop) = p.feed(tok);
        if let Some(t) = emit { emitted.push_str(&t); }
        if stop { stopped = true; break; }
    }
    assert!(emitted.is_empty(), "nenhum texto deve ter sido emitido: {:?}", emitted);
    assert!(!stopped, "não deve parar após </tool_call> — processamento continua");
}

#[test]
fn stream_processor_emite_texto_antes_de_tool_call() {
    let mut p = StreamProcessor::new();
    let (emit, _) = p.feed("texto antes");
    assert_eq!(emit.as_deref(), Some("texto antes"));
    let (emit2, _) = p.feed("<tool_call>");
    assert!(emit2.is_none());
    assert_eq!(p.state, StreamState::InToolCall);
}

#[test]
fn stream_processor_falso_alarme_emite_lookahead() {
    let mut p = StreamProcessor::new();
    let (e1, _) = p.feed("<");
    assert!(e1.is_none());
    let (e2, _) = p.feed("p>algum html que nao é tool call longo o suficiente");
    assert!(e2.is_some(), "deve ter feito flush do lookahead");
    assert_eq!(p.state, StreamState::Text);
}

#[test]
fn stream_processor_flush_pending_text_retorna_lookahead_nao_emitido() {
    let mut p = StreamProcessor::new();
    p.feed("<poss");
    let pending = p.flush_pending_text();
    assert!(pending.is_some());
    assert!(pending.unwrap().contains("<poss"));
}

#[test]
fn truncate_nao_remove_quando_cabem() {
    let mut msgs = vec![
        ("system".to_string(), "system prompt curto".to_string()),
        ("user".to_string(), "mensagem curta".to_string()),
    ];
    truncate_messages_if_needed(&mut msgs);
    assert_eq!(msgs.len(), 2);
}

#[test]
fn truncate_remove_mensagens_antigas_mantendo_sistema_e_ultima() {
    let large = "x".repeat(MAX_PROMPT_CHARS / 2 + 100);
    let mut msgs = vec![
        ("system".to_string(), "system".to_string()),
        ("user".to_string(), large.clone()),
        ("assistant".to_string(), "resposta".to_string()),
        ("user".to_string(), "ultima mensagem".to_string()),
    ];
    truncate_messages_if_needed(&mut msgs);
    assert_eq!(msgs[0].0, "system");
    assert_eq!(msgs.last().unwrap().1, "ultima mensagem");
    let total: usize = msgs.iter().map(|(_, c)| c.len()).sum();
    assert!(total <= MAX_PROMPT_CHARS, "total {} > limite {}", total, MAX_PROMPT_CHARS);
}

use foundation_ai::json::{json_get_str, JsonValue};
use foundation_ai::local_xml::calls::parse_all_tool_calls_from_output;
use foundation_ai::local_xml::render::extract_text_content;
use foundation_ai::local_xml::tools::format_tools_for_prompt;
use foundation_ai::providers::{ClaudeTool, ContentBlock, MessageContent};

fn js(v: &str) -> JsonValue {
    JsonValue::Str(v.to_string())
}

fn jobj(members: Vec<(&str, JsonValue)>) -> JsonValue {
    JsonValue::Object(members.into_iter().map(|(k, v)| (k.to_string(), v)).collect())
}

fn speak_tool() -> ClaudeTool {
    ClaudeTool {
        name: "speak".to_string(),
        description: "Responde ao usuário com texto".to_string(),
        input_schema: jobj(vec![
            ("properties", jobj(vec![("message", jobj(vec![("type", js("string"))]))])),
            ("required", JsonValue::Array(vec![js("message")])),
            ("type", js("object")),
        ]),
    }
}

#[test]
fn local_extract_text_from_text_variant() {
    let content = MessageContent::Text("Olá mundo".to_string());
    assert_eq!(extract_text_content(&content), "Olá mundo");
}

#[test]
fn extract_text_from_content_blocks_inclui_text_e_tool_use() {
    let content = MessageContent::ContentBlocks(vec![
        ContentBlock::Text { text: "primeira linha".to_string() },
        ContentBlock::ToolUse {
            id: "tu_1".to_string(),
            name: "search".to_string(),
            input: jobj(vec![("query", js("test"))]),
        },
        ContentBlock::Text { text: "segunda linha".to_string() },
    ]);
    let result = extract_text_content(&content);
    assert!(result.contains("primeira linha"));
    assert!(result.contains("search"));
    assert!(result.contains("segunda linha"));
}

#[test]
fn extract_text_tool_use_gera_texto_legivel() {
    let content = MessageContent::ContentBlocks(vec![ContentBlock::ToolUse {
        id: "tu_1".to_string(),
        name: "describe_individual".to_string(),
        input: jobj(vec![("iris", JsonValue::Array(vec![js("foundation:X")]))]),
    }]);
    let result = extract_text_content(&content);
    assert!(result.contains("describe_individual"), "deve incluir nome da ferramenta");
}

#[test]
fn extract_text_tool_result_gera_texto_legivel() {
    let content = MessageContent::ContentBlocks(vec![ContentBlock::ToolResult {
        tool_use_id: "tu_1".to_string(),
        content: js("Resultado da ferramenta aqui"),
        is_error: None,
    }]);
    let result = extract_text_content(&content);
    assert!(result.contains("Resultado da ferramenta aqui"), "deve incluir o conteúdo do resultado");
}

#[test]
fn parse_tool_call_speak_basico() {
    let raw = r#"<tool_call>{"name": "speak", "input": {"message": "Olá!"}}</tool_call>"#;
    let tc = parse_all_tool_calls_from_output(raw).into_iter().next().expect("deve parsear speak");
    assert_eq!(tc.name, "speak");
    assert_eq!(json_get_str(&tc.input, "message").map(|s| s.as_str()), Some("Olá!"));
}

#[test]
fn local_parse_tool_call_search() {
    let raw = r#"<tool_call>{"name": "search", "input": {"query": "capital do Brasil"}}</tool_call>"#;
    let tc = parse_all_tool_calls_from_output(raw).into_iter().next().expect("deve parsear search");
    assert_eq!(tc.name, "search");
    assert_eq!(json_get_str(&tc.input, "query").map(|s| s.as_str()), Some("capital do Brasil"));
}

#[test]
fn parse_tool_call_ignora_marcadores_eot() {
    let raw = "<tool_call>{\"name\": \"speak\", \"input\": {\"message\": \"ok\"}}</tool_call>\n<end_of_turn>";
    let tc = parse_all_tool_calls_from_output(raw).into_iter().next().expect("deve parsear com EOT");
    assert_eq!(tc.name, "speak");
    assert_eq!(json_get_str(&tc.input, "message").map(|s| s.as_str()), Some("ok"));
}

#[test]
fn parse_tool_call_retorna_vazio_sem_tag() {
    assert!(parse_all_tool_calls_from_output("texto sem tag").is_empty());
    assert!(parse_all_tool_calls_from_output("").is_empty());
}

#[test]
fn parse_tool_call_retorna_vazio_json_invalido() {
    assert!(parse_all_tool_calls_from_output("<tool_call>não é json</tool_call>").is_empty());
}

#[test]
fn parse_tool_call_multiplos_retorna_todos() {
    let raw = format!(
        "{}{}",
        r#"<tool_call>{"name": "search", "input": {"query": "x"}}</tool_call>"#,
        r#"<tool_call>{"name": "speak", "input": {"message": "ok"}}</tool_call>"#,
    );
    let calls = parse_all_tool_calls_from_output(&raw);
    assert_eq!(calls.len(), 2);
    assert_eq!(calls[0].name, "search");
    assert_eq!(calls[1].name, "speak");
}

#[test]
fn format_tools_vazio_retorna_vazio() {
    assert_eq!(format_tools_for_prompt(&[]), "");
}

#[test]
fn format_tools_contem_nome_e_formato() {
    let tools = vec![speak_tool()];
    let prompt = format_tools_for_prompt(&tools);
    assert!(prompt.contains("speak"));
    assert!(prompt.contains("<tool_call>"));
    assert!(prompt.contains("message"));
}

#[test]
fn format_tools_multiplas_ferramentas() {
    let tools = vec![
        speak_tool(),
        ClaudeTool {
            name: "search".to_string(),
            description: "Busca no grafo".to_string(),
            input_schema: jobj(vec![
                ("properties", jobj(vec![("query", jobj(vec![("type", js("string"))]))])),
                ("required", JsonValue::Array(vec![js("query")])),
                ("type", js("object")),
            ]),
        },
    ];
    let prompt = format_tools_for_prompt(&tools);
    assert!(prompt.contains("speak"));
    assert!(prompt.contains("search"));
    assert!(prompt.contains("query: string"));
}

#[test]
fn extract_text_renders_past_calls_and_error_results() {
    let content = MessageContent::ContentBlocks(vec![
        ContentBlock::ToolUse {
            id: "tu_1".to_string(),
            name: "speak".to_string(),
            input: jobj(vec![("message", js("oi"))]),
        },
        ContentBlock::ToolUse {
            id: "tu_2".to_string(),
            name: "search".to_string(),
            input: jobj(vec![("query", js("x"))]),
        },
        ContentBlock::ToolResult {
            tool_use_id: "tu_2".to_string(),
            content: JsonValue::Array(vec![jobj(vec![("text", js("a"))]), jobj(vec![("text", js("b"))])]),
            is_error: Some(true),
        },
        ContentBlock::ToolResult {
            tool_use_id: "tu_3".to_string(),
            content: js(""),
            is_error: None,
        },
    ]);
    assert_eq!(extract_text_content(&content), "oi\n[called search({\"query\":\"x\"})]\n[error: a\nb]");
}

#[test]
fn format_tools_cuts_long_descriptions_at_80_bytes() {
    let mut tool = speak_tool();
    tool.description = format!("  {}  ", "d".repeat(100));
    let prompt = format_tools_for_prompt(&[tool]);
    assert!(prompt.ends_with(&format!("- speak(message: string) — {}\n", "d".repeat(80))));
}

#[test]
fn xml_stream_never_shows_a_tag_split_across_a_flush() {
    let long = format!("p>{}<tool", "a".repeat(20));
    let tokens = ["<", long.as_str(), "_call>{}", "</tool_call>", "<tool_call|>", " fim"];
    let mut p = StreamProcessor::new();
    let mut out = String::new();
    for tok in tokens {
        let (emit, _) = p.feed(tok);
        if let Some(t) = emit {
            out.push_str(&t);
        }
    }
    assert!(!out.contains("<tool_call>"), "markup leaked: {:?}", out);
    assert!(!out.contains("<|tool_call>"), "markup leaked: {:?}", out);
    assert!(out.starts_with("<p>aaaa"), "text before the tag is shown: {:?}", out);
}

#[test]
fn xml_stream_hides_a_partial_tag_right_before_a_tool_call() {
    let tokens = ["ok <too", "<tool_call>", "{}", "</tool_call>", "l_call> x"];
    let mut p = StreamProcessor::new();
    let mut out = String::new();
    for tok in tokens {
        let (emit, _) = p.feed(tok);
        if let Some(t) = emit {
            out.push_str(&t);
        }
    }
    if let Some(t) = p.flush_pending_text() {
        out.push_str(&t);
    }
    assert!(!out.contains("<tool_call>"), "markup leaked: {:?}", out);
}
