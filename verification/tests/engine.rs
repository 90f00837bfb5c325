use foundation_ai::chat_storage::{AIConversationMessage, ContentBlock as StoredBlock};
use foundation_ai::engine::{
    after_save, check_request, ended_cleanly, history_gate, nudge_message, pending_question, strip_thinking_blocks,
    user_continued_after, AfterSave, ContentDecision, ErrorDecision, LoopState, ReplyDecision, Termination,
    EMPTY_HISTORY_ERROR, EMPTY_REPLY_NUDGE, MAX_LOOPS_ERROR, MAX_TOOL_LOOPS, TRUNCATED_ERROR,
};
use foundation_ai::compaction::conversation_provider;
use foundation_ai::json::JsonValue;
use foundation_ai::providers::{AiProvider, ChatMessage, ContentBlock, MessageContent, ToolCall};

fn stored(role: &str, content: Vec<StoredBlock>) -> AIConversationMessage {
    AIConversationMessage {
        iri: "foundation:Msg_1".to_string(),
        role: role.to_string(),
        content,
        timestamp: 0,
        token_count: None,
        model: None,
        stop_reason: None,
        input_tokens: None,
        output_tokens: None,
    }
}

fn ask(id: &str) -> StoredBlock {
    StoredBlock::ToolUse {
        id: id.to_string(),
        name: "ask_question".to_string(),
        input: JsonValue::Object(vec![]),
        reason: None,
    }
}

fn answer(id: &str) -> StoredBlock {
    StoredBlock::ToolResult { tool_use_id: id.to_string(), content: "sim".to_string(), is_error: None, duration_ms: None }
}

fn said(t: &str) -> StoredBlock {
    StoredBlock::Text { text: t.to_string() }
}

fn call(name: &str, input: &str) -> ToolCall {
    ToolCall { id: "c".to_string(), name: name.to_string(), input: JsonValue::Str(input.to_string()) }
}

#[test]
fn pending_question_found_in_last_assistant_message() {
    let h = vec![stored("user", vec![said("oi")]), stored("assistant", vec![said("pergunta"), ask("q1")])];
    assert_eq!(pending_question(&h), Some(("q1".to_string(), 1)));
}

#[test]
fn pending_question_answered_is_none() {
    let h = vec![stored("assistant", vec![ask("q1")]), stored("user", vec![answer("q1")])];
    assert_eq!(pending_question(&h), None);
}

#[test]
fn pending_question_stored_question_output() {
    let q = StoredBlock::QuestionOutput {
        id: "q7".to_string(),
        question: "Qual?".to_string(),
        question_type: "choice".to_string(),
        options: vec!["a".to_string()],
    };
    let h = vec![stored("assistant", vec![q]), stored("user", vec![answer("other")])];
    assert_eq!(pending_question(&h), Some(("q7".to_string(), 0)));
}

#[test]
fn pending_question_only_looks_at_last_assistant() {
    let h = vec![stored("assistant", vec![ask("q1")]), stored("assistant", vec![said("nada")])];
    assert_eq!(pending_question(&h), None);
}

#[test]
fn user_continued_with_text_after_question() {
    let h = vec![stored("assistant", vec![ask("q1")]), stored("user", vec![said("outra coisa")])];
    assert!(user_continued_after(&h, 0));
    let h2 = vec![stored("assistant", vec![ask("q1")]), stored("user", vec![answer("zz")])];
    assert!(!user_continued_after(&h2, 0));
}

#[test]
fn history_gate_waits_for_unanswered_question() {
    let h = vec![stored("user", vec![said("oi")]), stored("assistant", vec![ask("q1")])];
    let s = history_gate(&h).unwrap();
    assert_eq!(s.termination, Termination::Question);
    assert_eq!(s.error, None);
}

#[test]
fn history_gate_stops_after_clean_end() {
    let mut last = stored("assistant", vec![]);
    last.stop_reason = Some("end_turn".to_string());
    let h = vec![stored("user", vec![said("oi")]), last];
    assert!(ended_cleanly(&h));
    assert_eq!(history_gate(&h).unwrap().termination, Termination::EndTurn);
}

#[test]
fn history_gate_lets_ordinary_history_through() {
    let h = vec![stored("user", vec![said("oi")])];
    assert!(history_gate(&h).is_none());
    let h2 = vec![stored("assistant", vec![ask("q1")]), stored("user", vec![said("mudando de assunto")])];
    assert!(history_gate(&h2).is_none());
}

#[test]
fn check_request_cases() {
    let empty: Vec<ChatMessage> = vec![];
    let s = check_request(&empty).unwrap();
    assert_eq!(s.termination, Termination::Error);
    assert_eq!(s.error.as_deref(), Some(EMPTY_HISTORY_ERROR));
    let last_assistant = vec![ChatMessage::text("assistant".to_string(), "ok".to_string())];
    assert_eq!(check_request(&last_assistant).unwrap().termination, Termination::EndTurn);
    let last_user = vec![ChatMessage::text("user".to_string(), "oi".to_string())];
    assert!(check_request(&last_user).is_none());
}

#[test]
fn start_iteration_stops_after_max_loops() {
    let mut st = LoopState::new();
    for _ in 0..MAX_TOOL_LOOPS {
        assert!(st.start_iteration(false).is_none());
    }
    let s = st.start_iteration(false).unwrap();
    assert_eq!(s.termination, Termination::MaxLoops);
    assert_eq!(s.error.as_deref(), Some(MAX_LOOPS_ERROR));
    assert_eq!(st.loop_count, MAX_TOOL_LOOPS + 1);
}

#[test]
fn start_iteration_reports_cancel() {
    let mut st = LoopState::new();
    let s = st.start_iteration(true).unwrap();
    assert_eq!(s.termination, Termination::Cancelled);
    assert!(s.error.is_none());
}

#[test]
fn provider_error_retries_once_without_thinking() {
    let mut st = LoopState::new();
    let e = "messages.1.content.0: thinking blocks cannot be modified";
    assert!(matches!(st.on_provider_error(e), ErrorDecision::RetryWithoutThinking));
    assert!(st.strip_thinking);
    assert!(!st.is_first_iteration);
    match st.on_provider_error(e) {
        ErrorDecision::Stop(s) => {
            assert_eq!(s.termination, Termination::Error);
            assert_eq!(s.error.unwrap(), format!("AI error: {}", e));
        },
        _ => panic!("second refusal must stop"),
    }
}

#[test]
fn provider_error_other_stops() {
    let mut st = LoopState::new();
    match st.on_provider_error("timeout") {
        ErrorDecision::Stop(s) => assert_eq!(s.error.unwrap(), "AI error: timeout"),
        _ => panic!("must stop"),
    }
}

#[test]
fn truncated_replies_stop_on_third() {
    let mut st = LoopState::new();
    assert!(matches!(st.on_reply(false, None), ReplyDecision::RetryTruncated));
    assert!(matches!(st.on_reply(false, None), ReplyDecision::RetryTruncated));
    match st.on_reply(false, None) {
        ReplyDecision::Stop(s) => assert_eq!(s.error.as_deref(), Some(TRUNCATED_ERROR)),
        _ => panic!("third truncated reply must stop"),
    }
}

#[test]
fn reply_with_stop_reason_adds_tokens_and_resets() {
    let mut st = LoopState::new();
    st.on_reply(false, None);
    assert!(matches!(st.on_reply(true, Some((100, 20))), ReplyDecision::Proceed));
    assert!(matches!(st.on_reply(true, Some((5, 1))), ReplyDecision::Proceed));
    assert_eq!(st.none_stop_retries, 0);
    assert_eq!(st.total_input_tokens, 105);
    assert_eq!(st.total_output_tokens, 21);
}

#[test]
fn empty_reply_nudged_once_then_finishes() {
    let mut st = LoopState::new();
    assert_eq!(st.on_content(true, "end_turn"), ContentDecision::Nudge);
    assert_eq!(st.on_content(true, "end_turn"), ContentDecision::Finish);
    let mut st2 = LoopState::new();
    assert_eq!(st2.on_content(true, "tool_use"), ContentDecision::Save);
    assert_eq!(st2.on_content(false, "end_turn"), ContentDecision::Save);
    let m = nudge_message();
    assert_eq!(m.role, "user");
    assert!(matches!(m.content, MessageContent::Text(ref t) if t == EMPTY_REPLY_NUDGE));
}

#[test]
fn after_save_decisions() {
    assert_eq!(after_save(&[call("search", "x"), call("ask_question", "q")], "tool_use"), AfterSave::PauseForQuestion);
    assert_eq!(after_save(&[call("search", "x")], "tool_use"), AfterSave::ExecuteTools);
    assert_eq!(after_save(&[call("search", "x")], "tool_calls"), AfterSave::ExecuteTools);
    assert_eq!(after_save(&[call("search", "x")], "max_tokens"), AfterSave::ExecuteTools);
    assert_eq!(after_save(&[], "max_tokens"), AfterSave::Finish);
    assert_eq!(after_save(&[], "end_turn"), AfterSave::Finish);
}

#[test]
fn detect_loop_on_third_identical_call() {
    let mut st = LoopState::new();
    assert!(st.detect_loop(&[call("search", "a")]).is_none());
    assert!(st.detect_loop(&[call("search", "a"), call("search", "b")]).is_none());
    let s = st.detect_loop(&[call("search", "a")]).unwrap();
    assert_eq!(s.termination, Termination::LoopDetected);
    assert_eq!(
        s.error.unwrap(),
        "Loop detected: the tool 'search' was called 3 consecutive times with the same arguments"
    );
}

#[test]
fn detect_loop_ignores_questions() {
    let mut st = LoopState::new();
    for _ in 0..5 {
        assert!(st.detect_loop(&[call("ask_question", "a")]).is_none());
    }
    assert!(st.fingerprints.is_empty());
}

#[test]
fn termination_names() {
    assert_eq!(Termination::EndTurn.as_str(), "end_turn");
    assert_eq!(Termination::LoopDetected.as_str(), "loop_detected");
    assert_eq!(Termination::MaxLoops.as_str(), "max_loops");
}

#[test]
fn strip_thinking_drops_blocks_and_empty_assistant_messages() {
    let mut ms = vec![
        ChatMessage::text("user".to_string(), "oi".to_string()),
        ChatMessage {
            role: "assistant".to_string(),
            content: MessageContent::ContentBlocks(vec![ContentBlock::Thinking {
                thinking: "hmm".to_string(),
                signature: "s".to_string(),
            }]),
        },
        ChatMessage {
            role: "assistant".to_string(),
            content: MessageContent::ContentBlocks(vec![
                ContentBlock::RedactedThinking { data: "x".to_string() },
                ContentBlock::Text { text: "resposta".to_string() },
            ]),
        },
    ];
    strip_thinking_blocks(&mut ms);
    assert_eq!(ms.len(), 2);
    match &ms[1].content {
        MessageContent::ContentBlocks(bs) => {
            assert_eq!(bs.len(), 1);
            assert!(matches!(&bs[0], ContentBlock::Text { text } if text == "resposta"));
        },
        _ => panic!("blocks expected"),
    }
}

fn agent(base_url: &str, is_local: bool) -> foundation_ai::settings::AgentConfig {
    foundation_ai::settings::AgentConfig {
        api_key: "k".to_string(),
        is_local,
        base_url: base_url.to_string(),
        fallback_models: vec!["b/m".to_string()],
        model_identifier: "a/m".to_string(),
        base_system_prompt: String::new(),
        system_prompt: String::new(),
        max_tokens: 1000,
        max_output_tokens: 100,
        supports_web_tools: false,
        timeout_secs: 30,
    }
}

#[test]
fn conversation_provider_by_agent() {
    match conversation_provider(&agent("https://openrouter.ai/api/v1", false), String::new()) {
        AiProvider::OpenRouter(p) => {
            assert_eq!(p.model_identifier().as_deref(), Some("a/m"));
            assert_eq!(p.fallback_models, vec!["b/m".to_string()]);
        },
        _ => panic!("OpenRouter expected"),
    }
    assert!(matches!(conversation_provider(&agent("https://api.anthropic.com", false), String::new()), AiProvider::Claude(_)));
    match conversation_provider(&agent("https://openrouter.ai", true), "/models/x.gguf".to_string()) {
        AiProvider::Local(p) => assert_eq!(p.path(), "/models/x.gguf"),
        _ => panic!("local expected"),
    }
}
