use foundation_ai::chat_storage::{AIConversationMessage, ContentBlock as StoredBlock};
use foundation_ai::json::JsonValue;
use foundation_ai::providers::{ContentBlock, MessageContent};
use foundation_ai::request::request_messages;

fn stored(role: &str, content: Vec<StoredBlock>) -> AIConversationMessage {
    AIConversationMessage {
        iri: format!("test:{}", role),
        role: role.to_string(),
        content,
        timestamp: 0,
        token_count: None,
        model: None,
        stop_reason: None,
        input_tokens: None,
        output_tokens: None,
    }
}

#[test]
fn request_drops_a_trailing_call_and_dates_the_last_user_message() {
    let history = vec![
        stored("user", vec![StoredBlock::Text { text: "oi".to_string() }]),
        stored(
            "assistant",
            vec![StoredBlock::ToolUse {
                id: "a".to_string(),
                name: "search".to_string(),
                input: JsonValue::Object(vec![]),
                reason: None,
            }],
        ),
    ];
    let ms = request_messages(&history, None, "2024-01-01 10:00:00 UTC", false, false);
    assert_eq!(ms.len(), 1);
    assert_eq!(ms[0].role, "user");
    match &ms[0].content {
        MessageContent::ContentBlocks(bs) => {
            assert_eq!(bs.len(), 2);
            assert!(matches!(&bs[0], ContentBlock::Text { text } if text == "Current date/time: 2024-01-01 10:00:00 UTC"));
            assert!(matches!(&bs[1], ContentBlock::Text { text } if text == "oi"));
        },
        other => panic!("expected blocks, got {:?}", other),
    }
}

#[test]
fn request_ends_with_the_nudge_after_an_empty_reply() {
    let history = vec![stored("user", vec![StoredBlock::Text { text: "oi".to_string() }])];
    let ms = request_messages(&history, None, "now", true, false);
    assert_eq!(ms.len(), 2);
    assert_eq!(ms[1].role, "user");
    assert!(matches!(&ms[1].content, MessageContent::Text(_)));
}
