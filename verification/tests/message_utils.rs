use foundation_ai::chat_storage::{AIConversationMessage, ContentBlock as StoredBlock};
use foundation_ai::json::JsonValue;
use foundation_ai::message_utils::{
    blocks_to_speak_result_content, decode_text_attachment, extract_file_summaries,
    file_content_block_text, inject_attachments_for_current_turn, inject_datetime_context,
    inject_datetime_text, inject_speak_results, inject_subconscious_context, message_to_api_format,
    response_content_to_blocks, sanitize_tool_pairs, strip_file_summaries, summary_request,
    tool_result_content_to_value, INTERRUPTED_RESULT,
};
use foundation_ai::providers::{
    ChatMessage, ContentBlock, DocumentSource, ImageSource, MessageContent, ThinkingBlock, ToolCall,
};

fn parse(text: &str) -> JsonValue {
    json(serde_json::from_str(text).unwrap())
}

fn json(v: serde_json::Value) -> JsonValue {
    match v {
        serde_json::Value::Null => JsonValue::Null,
        serde_json::Value::Bool(b) => JsonValue::Bool(b),
        serde_json::Value::Number(n) => JsonValue::Number(n.to_string()),
        serde_json::Value::String(s) => JsonValue::Str(s),
        serde_json::Value::Array(a) => JsonValue::Array(a.into_iter().map(json).collect()),
        serde_json::Value::Object(m) => JsonValue::Object(m.into_iter().map(|(k, x)| (k, json(x))).collect()),
    }
}

fn text(t: &str) -> ContentBlock {
    ContentBlock::Text { text: t.to_string() }
}

fn tool_use(id: &str, name: &str) -> ContentBlock {
    ContentBlock::ToolUse { id: id.to_string(), name: name.to_string(), input: JsonValue::Object(vec![]) }
}

fn tool_result(id: &str, content: &str) -> ContentBlock {
    ContentBlock::ToolResult {
        tool_use_id: id.to_string(),
        content: JsonValue::Str(content.to_string()),
        is_error: None,
    }
}

fn blocks(role: &str, bs: Vec<ContentBlock>) -> ChatMessage {
    ChatMessage { role: role.to_string(), content: MessageContent::ContentBlocks(bs) }
}

fn plain(role: &str, t: &str) -> ChatMessage {
    ChatMessage { role: role.to_string(), content: MessageContent::Text(t.to_string()) }
}

fn block_list(m: &ChatMessage) -> &Vec<ContentBlock> {
    match &m.content {
        MessageContent::ContentBlocks(b) => b,
        MessageContent::Text(_) => panic!("expected blocks"),
    }
}

fn text_of(b: &ContentBlock) -> &str {
    match b {
        ContentBlock::Text { text } => text.as_str(),
        _ => panic!("expected a text block"),
    }
}

fn is_result_for(b: &ContentBlock, id: &str) -> bool {
    matches!(b, ContentBlock::ToolResult { tool_use_id, .. } if tool_use_id == id)
}

#[test]
fn sanitize_injects_results_for_unanswered_calls_first() {
    let mut ms = vec![
        plain("user", "oi"),
        blocks("assistant", vec![text("vou buscar"), tool_use("a", "search"), tool_use("b", "read")]),
        blocks("user", vec![text("continua"), tool_result("b", "ok")]),
    ];
    sanitize_tool_pairs(&mut ms);
    assert_eq!(ms.len(), 3);
    let user = block_list(&ms[2]);
    assert_eq!(user.len(), 3);
    match &user[0] {
        ContentBlock::ToolResult { tool_use_id, content, is_error } => {
            assert_eq!(tool_use_id, "a");
            assert_eq!(content, &JsonValue::Str(INTERRUPTED_RESULT.to_string()));
            assert_eq!(*is_error, Some(true));
        }
        _ => panic!("the synthetic result comes first"),
    }
    assert_eq!(text_of(&user[1]), "continua");
    assert!(is_result_for(&user[2], "b"));
    // The assistant message in the middle keeps its calls.
    assert_eq!(block_list(&ms[1]).len(), 3);
}

#[test]
fn sanitize_every_call_is_answered_by_the_next_message() {
    let mut ms = vec![
        blocks("assistant", vec![tool_use("x", "a"), tool_use("y", "b")]),
        blocks("user", vec![]),
        blocks("assistant", vec![tool_use("z", "c")]),
        blocks("user", vec![tool_result("z", "done")]),
        plain("assistant", "fim"),
    ];
    sanitize_tool_pairs(&mut ms);
    assert_eq!(ms.len(), 5);
    for (j, m) in ms.iter().enumerate() {
        if m.role != "assistant" || j + 1 >= ms.len() {
            continue;
        }
        if let MessageContent::ContentBlocks(bs) = &m.content {
            for b in bs {
                if let ContentBlock::ToolUse { id, .. } = b {
                    assert!(block_list(&ms[j + 1]).iter().any(|r| is_result_for(r, id)));
                }
            }
        }
    }
    assert_eq!(block_list(&ms[1]).len(), 2);
    assert_eq!(block_list(&ms[3]).len(), 1);
}

#[test]
fn sanitize_strips_calls_and_thinking_from_trailing_assistant() {
    let mut ms = vec![
        plain("user", "oi"),
        blocks(
            "assistant",
            vec![
                ContentBlock::Thinking { thinking: "t".to_string(), signature: "s".to_string() },
                text("resposta"),
                tool_use("a", "search"),
            ],
        ),
    ];
    sanitize_tool_pairs(&mut ms);
    assert_eq!(ms.len(), 2);
    let last = block_list(&ms[1]);
    assert_eq!(last.len(), 1);
    assert_eq!(text_of(&last[0]), "resposta");
}

#[test]
fn sanitize_drops_trailing_message_left_empty() {
    let mut ms = vec![plain("user", "oi"), blocks("assistant", vec![tool_use("a", "search")])];
    sanitize_tool_pairs(&mut ms);
    assert_eq!(ms.len(), 1);
    assert_eq!(ms[0].role, "user");
}

#[test]
fn sanitize_leaves_text_reply_and_text_user_messages() {
    let mut ms = vec![blocks("assistant", vec![tool_use("a", "search")]), plain("user", "oi")];
    sanitize_tool_pairs(&mut ms);
    assert_eq!(ms.len(), 2);
    assert!(matches!(&ms[1].content, MessageContent::Text(t) if t == "oi"));
}

#[test]
fn sanitize_empty_list_stays_empty() {
    let mut ms: Vec<ChatMessage> = vec![];
    sanitize_tool_pairs(&mut ms);
    assert!(ms.is_empty());
}

#[test]
fn subconscious_context_is_appended_to_last_user_message() {
    let mut ms = vec![
        plain("user", "primeira"),
        plain("assistant", "ok"),
        blocks("user", vec![tool_result("a", "r")]),
        plain("assistant", "depois"),
    ];
    inject_subconscious_context(&mut ms, "## Memory");
    let target = block_list(&ms[2]);
    assert_eq!(target.len(), 2);
    assert!(is_result_for(&target[0], "a"));
    assert_eq!(text_of(&target[1]), "## Memory");
    assert!(matches!(&ms[0].content, MessageContent::Text(t) if t == "primeira"));
}

#[test]
fn subconscious_context_turns_text_message_into_blocks() {
    let mut ms = vec![plain("user", "oi")];
    inject_subconscious_context(&mut ms, "ctx");
    let b = block_list(&ms[0]);
    assert_eq!(b.len(), 2);
    assert_eq!(text_of(&b[0]), "oi");
    assert_eq!(text_of(&b[1]), "ctx");
}

#[test]
fn subconscious_context_without_user_message_changes_nothing() {
    let mut ms = vec![plain("assistant", "oi")];
    inject_subconscious_context(&mut ms, "ctx");
    assert!(matches!(&ms[0].content, MessageContent::Text(t) if t == "oi"));
}

#[test]
fn datetime_is_prepended_to_last_user_message() {
    let mut ms = vec![blocks("user", vec![text("pergunta")])];
    inject_datetime_text(&mut ms, "2024-05-01 10:00:00 UTC");
    let b = block_list(&ms[0]);
    assert_eq!(b.len(), 2);
    assert_eq!(text_of(&b[0]), "Current date/time: 2024-05-01 10:00:00 UTC");
    assert_eq!(text_of(&b[1]), "pergunta");
}

#[test]
fn datetime_goes_after_leading_tool_result() {
    let mut ms = vec![blocks("user", vec![tool_result("s", "resposta")])];
    inject_datetime_text(&mut ms, "agora");
    let b = block_list(&ms[0]);
    assert_eq!(b.len(), 2);
    assert!(is_result_for(&b[0], "s"));
    assert_eq!(text_of(&b[1]), "Current date/time: agora");
}

#[test]
fn datetime_with_text_message_comes_first() {
    let mut ms = vec![plain("user", "oi")];
    inject_datetime_text(&mut ms, "hoje");
    let b = block_list(&ms[0]);
    assert_eq!(text_of(&b[0]), "Current date/time: hoje");
    assert_eq!(text_of(&b[1]), "oi");
}

#[test]
fn datetime_context_uses_the_clock() {
    let mut ms = vec![plain("user", "oi")];
    inject_datetime_context(&mut ms);
    let b = block_list(&ms[0]);
    assert_eq!(b.len(), 2);
    assert!(text_of(&b[0]).starts_with("Current date/time: "));
}

#[test]
fn speak_reply_becomes_the_result_of_the_speak_call() {
    let mut ms = vec![
        blocks("assistant", vec![tool_use("s1", "speak"), tool_use("s2", "speak")]),
        plain("user", "tudo bem"),
    ];
    inject_speak_results(&mut ms);
    let b = block_list(&ms[1]);
    assert_eq!(b.len(), 1);
    match &b[0] {
        ContentBlock::ToolResult { tool_use_id, content, is_error } => {
            assert_eq!(tool_use_id, "s1");
            assert_eq!(content, &JsonValue::Str("tudo bem".to_string()));
            assert_eq!(*is_error, None);
        }
        _ => panic!("expected a tool result"),
    }
}

#[test]
fn speak_reply_already_answered_is_left_alone() {
    let mut ms = vec![
        blocks("assistant", vec![tool_use("s1", "speak")]),
        blocks("user", vec![tool_result("s1", "ok"), text("mais")]),
    ];
    inject_speak_results(&mut ms);
    assert_eq!(block_list(&ms[1]).len(), 2);
}

#[test]
fn non_speak_calls_leave_the_reply_alone() {
    let mut ms = vec![blocks("assistant", vec![tool_use("a", "search")]), plain("user", "oi")];
    inject_speak_results(&mut ms);
    assert!(matches!(&ms[1].content, MessageContent::Text(t) if t == "oi"));
}

#[test]
fn speak_result_content_of_mixed_blocks_is_a_list() {
    let bs = vec![
        text("olha"),
        tool_result("x", "ignored"),
        ContentBlock::Image {
            source: ImageSource {
                source_type: "base64".to_string(),
                media_type: "image/png".to_string(),
                data: "AAA".to_string(),
            },
        },
    ];
    let expected = parse(
        r#"[{"type": "text", "text": "olha"},
            {"type": "image", "source": {"type": "base64", "media_type": "image/png", "data": "AAA"}}]"#,
    );
    assert_eq!(blocks_to_speak_result_content(&bs), expected);
}

#[test]
fn speak_result_content_without_transferable_blocks_is_empty_string() {
    let bs = vec![tool_result("x", "r")];
    assert_eq!(blocks_to_speak_result_content(&bs), JsonValue::Str(String::new()));
}

#[test]
fn speak_result_content_of_single_document_is_a_list() {
    let bs = vec![ContentBlock::Document {
        source: DocumentSource {
            source_type: "base64".to_string(),
            media_type: "application/pdf".to_string(),
            data: "PDF".to_string(),
        },
    }];
    let expected = parse(
        r#"[{"type": "document", "source": {"type": "base64", "media_type": "application/pdf", "data": "PDF"}}]"#,
    );
    assert_eq!(blocks_to_speak_result_content(&bs), expected);
}

#[test]
fn tool_result_array_text_is_parsed() {
    let v = tool_result_content_to_value("[{\"type\":\"text\",\"text\":\"a\"}]");
    assert_eq!(v, parse(r#"[{"type": "text", "text": "a"}]"#));
}

#[test]
fn tool_result_plain_text_stays_a_string() {
    assert_eq!(tool_result_content_to_value("[not json"), JsonValue::Str("[not json".to_string()));
    assert_eq!(tool_result_content_to_value("{\"a\":1}"), JsonValue::Str("{\"a\":1}".to_string()));
    assert_eq!(tool_result_content_to_value("ok"), JsonValue::Str("ok".to_string()));
}

fn stored(role: &str, content: Vec<StoredBlock>) -> AIConversationMessage {
    AIConversationMessage {
        iri: "foundation:Msg_1".to_string(),
        role: role.to_string(),
        content,
        timestamp: 0,
        token_count: None,
        model: None,
        stop_reason: None,
        input_tokens: None,
        output_tokens: None,
    }
}

#[test]
fn stored_message_to_api_format_maps_each_block() {
    let msg = stored(
        "assistant",
        vec![
            StoredBlock::FileRef {
                file_iri: "foundation:File_1".to_string(),
                file_name: "a.pdf".to_string(),
                token_estimate: 10,
                ai_summary: None,
            },
            StoredBlock::CameraRef { file_path: "/tmp/f.jpg".to_string(), token_estimate: 5 },
            StoredBlock::SpeakOutput { text: "falei".to_string() },
            StoredBlock::ToolResult {
                tool_use_id: "t".to_string(),
                content: "[1,2]".to_string(),
                is_error: Some(false),
                duration_ms: Some(5),
            },
            StoredBlock::QuestionOutput {
                id: "q".to_string(),
                question: "Qual?".to_string(),
                question_type: "single".to_string(),
                options: vec!["a".to_string(), "b".to_string()],
            },
        ],
    );
    let api = message_to_api_format(&msg);
    assert_eq!(api.role, "assistant");
    let b = block_list(&api);
    assert_eq!(b.len(), 4);
    assert_eq!(text_of(&b[0]), "[Attached file: a.pdf | Knowledge base IRI: foundation:File_1]");
    assert_eq!(text_of(&b[1]), "falei");
    match &b[2] {
        ContentBlock::ToolResult { tool_use_id, content, is_error } => {
            assert_eq!(tool_use_id, "t");
            assert_eq!(content, &parse("[1, 2]"));
            assert_eq!(*is_error, Some(false));
        }
        _ => panic!("expected a tool result"),
    }
    match &b[3] {
        ContentBlock::ToolUse { id, name, input } => {
            assert_eq!(id, "q");
            assert_eq!(name, "ask_question");
            assert_eq!(
                input,
                &parse(r#"{"question": "Qual?", "type": "single", "options": ["a", "b"]}"#)
            );
        }
        _ => panic!("expected a tool use"),
    }
}

#[test]
fn response_blocks_are_thinking_text_then_calls() {
    let calls = vec![ToolCall { id: "c1".to_string(), name: "search".to_string(), input: JsonValue::Null }];
    let thinking = vec![
        ThinkingBlock::Thinking { thinking: "hmm".to_string(), signature: "sig".to_string() },
        ThinkingBlock::RedactedThinking { data: "xx".to_string() },
    ];
    let bs = response_content_to_blocks("resposta", &calls, &thinking).unwrap();
    assert_eq!(bs.len(), 4);
    assert!(matches!(&bs[0], StoredBlock::Thinking { thinking, signature } if thinking == "hmm" && signature == "sig"));
    assert!(matches!(&bs[1], StoredBlock::RedactedThinking { data } if data == "xx"));
    assert!(matches!(&bs[2], StoredBlock::Text { text } if text == "resposta"));
    assert!(matches!(&bs[3], StoredBlock::ToolUse { id, name, .. } if id == "c1" && name == "search"));
}

#[test]
fn response_without_text_has_no_text_block() {
    let bs = response_content_to_blocks("", &[], &[]).unwrap();
    assert!(bs.is_empty());
}

#[test]
fn summary_tags_are_stripped_and_collected() {
    let (t, found) = strip_file_summaries(
        "Antes <filesummary file=\"foundation:File_1\"> Um resumo. </filesummary> depois",
    );
    assert_eq!(t, "Antes  depois");
    assert_eq!(found, vec![("foundation:File_1".to_string(), "Um resumo.".to_string())]);
}

#[test]
fn summary_tag_without_file_or_text_saves_nothing() {
    let (t, found) = strip_file_summaries("<filesummary x=\"y\">texto</filesummary><filesummary file=\"a\">  </filesummary>fim");
    assert_eq!(t, "fim");
    assert!(found.is_empty());
}

#[test]
fn unclosed_summary_tag_keeps_the_rest() {
    let (t, found) = strip_file_summaries("a <filesummary file=\"x\">resto");
    assert_eq!(t, "a resto");
    assert!(found.is_empty());
    let (t2, _) = strip_file_summaries("a <filesummary sem fim");
    assert_eq!(t2, "a <filesummary sem fim");
}

#[test]
fn extract_file_summaries_drops_emptied_text_blocks() {
    let bs = vec![
        StoredBlock::Text { text: "<filesummary file=\"f\">s</filesummary>".to_string() },
        StoredBlock::SpeakOutput { text: "<filesummary file=\"g\">t</filesummary>".to_string() },
        StoredBlock::Text { text: "ok <filesummary file=\"h\">u</filesummary>".to_string() },
    ];
    let (kept, found) = extract_file_summaries(bs);
    assert_eq!(kept.len(), 2);
    assert!(matches!(&kept[0], StoredBlock::SpeakOutput { .. }));
    assert!(matches!(&kept[1], StoredBlock::Text { text } if text == "ok"));
    assert_eq!(
        found,
        vec![("f".to_string(), "s".to_string()), ("h".to_string(), "u".to_string())]
    );
}

#[test]
fn text_attachment_is_decoded() {
    assert_eq!(decode_text_attachment("aGVsbG8="), "hello");
    assert_eq!(decode_text_attachment("não é base64"), "");
    assert_eq!(decode_text_attachment("/w=="), "");
    assert_eq!(
        file_content_block_text("text/plain", "hello"),
        "<file_content mime_type=\"text/plain\">\nhello\n</file_content>"
    );
}

#[test]
fn summary_request_lists_frames_then_files() {
    let files = vec![
        ("foundation:File_1".to_string(), "camera_frame_1.jpg".to_string()),
        ("foundation:File_2".to_string(), "nota.txt".to_string()),
        ("foundation:File_3".to_string(), "camera_frame_2.jpg".to_string()),
    ];
    let expected = "[System: The following attached files have no AI summary yet:\n\
Camera frames:\n\
- camera_frame_1.jpg (IRI: foundation:File_1) — user's emotional/body state in 1-3 words + one-line environment note\n\
- camera_frame_2.jpg (IRI: foundation:File_3) — user's emotional/body state in 1-3 words; omit environment unless it changed\n\
Other files (concise summary):\n\
- nota.txt (IRI: foundation:File_2)\n\
For each, include a tag in your response: <filesummary file=\"IRI\">summary</filesummary>. Summaries are saved automatically for future conversations.]";
    assert_eq!(summary_request(&files), expected);
}

#[test]
fn attachments_go_after_leading_results_and_replace_placeholders() {
    let mut ms = vec![blocks(
        "user",
        vec![
            tool_result("r", "ok"),
            text("[Attached file: a.png | Knowledge base IRI: foundation:File_1]"),
            text("veja"),
        ],
    )];
    let bins = vec![
        ("image/png".to_string(), "IMG".to_string()),
        ("application/zip".to_string(), "ZIP".to_string()),
        ("text/plain".to_string(), "aGk=".to_string()),
    ];
    let frames = vec!["FRAME".to_string()];
    inject_attachments_for_current_turn(&mut ms, Some(&frames), &bins, &[]);
    let b = block_list(&ms[0]);
    assert_eq!(b.len(), 5);
    assert!(is_result_for(&b[0], "r"));
    assert!(matches!(&b[1], ContentBlock::Image { source } if source.media_type == "image/png" && source.data == "IMG"));
    assert_eq!(text_of(&b[2]), "<file_content mime_type=\"text/plain\">\nhi\n</file_content>");
    assert!(matches!(&b[3], ContentBlock::Image { source } if source.media_type == "image/jpeg" && source.data == "FRAME"));
    assert_eq!(text_of(&b[4]), "veja");
}

#[test]
fn attachments_on_text_message_come_before_the_text() {
    let mut ms = vec![plain("user", "oi")];
    let files = vec![("foundation:File_9".to_string(), "a.pdf".to_string())];
    inject_attachments_for_current_turn(&mut ms, None, &[], &files);
    let b = block_list(&ms[0]);
    assert_eq!(b.len(), 2);
    assert!(text_of(&b[0]).starts_with("[System: The following attached files have no AI summary yet:\nOther files (concise summary):\n- a.pdf (IRI: foundation:File_9)\n"));
    assert_eq!(text_of(&b[1]), "oi");
}

#[test]
fn nothing_to_attach_changes_nothing() {
    let mut ms = vec![plain("user", "oi")];
    let empty: Vec<String> = vec![];
    inject_attachments_for_current_turn(&mut ms, Some(&empty), &[], &[]);
    assert!(matches!(&ms[0].content, MessageContent::Text(t) if t == "oi"));
    let bins = vec![("application/zip".to_string(), "ZIP".to_string())];
    inject_attachments_for_current_turn(&mut ms, None, &bins, &[]);
    assert!(matches!(&ms[0].content, MessageContent::Text(t) if t == "oi"));
}

#[test]
fn sanitize_twice_is_sanitize_once() {
    let mut ms = vec![
        plain("user", "oi"),
        blocks("assistant", vec![text("vou buscar"), tool_use("a", "search"), tool_use("b", "read")]),
        blocks("user", vec![text("continua"), tool_result("b", "ok")]),
        blocks("assistant", vec![text("resposta"), tool_use("c", "x")]),
    ];
    sanitize_tool_pairs(&mut ms);
    let once = format!("{:?}", ms);
    sanitize_tool_pairs(&mut ms);
    assert_eq!(format!("{:?}", ms), once);
}
