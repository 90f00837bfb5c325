use foundation_ai::compaction::{build_provider, CompactionConfig};
use foundation_ai::foundation_context::{
    foundation_architecture_context, list_subclasses_of, render_list, AUTOMATION_TASK_ROOT,
};
use foundation_ai::graph::{GraphObject, Individual};
use foundation_ai::json::JsonValue;
use foundation_ai::loop_tools::build_system_prompt;
use foundation_ai::providers::AiProvider;
use foundation_ai::recovery::{
    delete_messages_from_timestamp, has_pending_user_message, recovery_first_turn_ctx, MessageStore,
    StoredMessage,
};
use foundation_ai::settings::{
    agent_config_from, fallback_models_from, get_ai_model_iri, get_ai_service_iri,
    load_base_system_prompt, AgentConfig, DEFAULT_MAX_INPUT_TOKENS, DEFAULT_TIMEOUT_SECS,
    MAX_OUTPUT_TOKENS,
};
use foundation_ai::subconscious::SubconsciousEntity;
use foundation_ai::trace::make_step;

fn lit(v: &str) -> GraphObject {
    GraphObject::Literal { value: v.to_string(), datatype: Some("xsd:string".to_string()), language: None }
}

fn ind(iri: &str, props: Vec<(&str, GraphObject)>) -> Individual {
    Individual {
        iri: iri.to_string(),
        properties: props.into_iter().map(|(k, v)| (k.to_string(), v)).collect(),
    }
}

fn rfc3339(ms: i64) -> GraphObject {
    let secs = ms / 1000;
    GraphObject::DateTime(format!("1970-01-01T00:{:02}:{:02}+00:00", secs / 60, secs % 60))
}

fn msg(iri: &str, conv: &str, role: &str, ts: i64, blocks: Vec<&str>) -> StoredMessage {
    StoredMessage {
        iri: iri.to_string(),
        conversation: conv.to_string(),
        role: Some(role.to_string()),
        sent_at: Some(rfc3339(ts)),
        block_types: blocks.into_iter().map(|b| b.to_string()).collect(),
    }
}

fn config() -> AgentConfig {
    AgentConfig {
        api_key: "k".to_string(),
        is_local: false,
        base_url: "https://api.example.com".to_string(),
        fallback_models: vec!["m2".to_string()],
        model_identifier: "m1".to_string(),
        base_system_prompt: "BASE".to_string(),
        system_prompt: "AGENT".to_string(),
        max_tokens: 1000,
        max_output_tokens: 10,
        supports_web_tools: false,
        timeout_secs: 5,
    }
}

// Recovery

#[test]
fn has_pending_user_message_retorna_true_quando_ultimo_e_user_com_texto() {
    let store = MessageStore {
        messages: vec![
            msg("foundation:Msg1", "foundation:ConvA", "assistant", 1_000, vec![]),
            msg("foundation:Msg2", "foundation:ConvA", "user", 2_000, vec!["anthropic:TextBlock"]),
        ],
    };
    assert!(has_pending_user_message(&store, "foundation:ConvA"));
}

#[test]
fn has_pending_user_message_retorna_false_quando_ultimo_e_tool_result() {
    let store = MessageStore {
        messages: vec![
            msg("foundation:Msg1", "foundation:ConvA", "assistant", 1_000, vec![]),
            msg("foundation:Msg2", "foundation:ConvA", "user", 2_000, vec!["anthropic:ToolResultBlock"]),
        ],
    };
    assert!(
        !has_pending_user_message(&store, "foundation:ConvA"),
        "mensagem de tool result não deve ser tratada como mensagem pendente do usuário"
    );
}

#[test]
fn has_pending_user_message_retorna_false_quando_ultimo_e_assistant() {
    let store = MessageStore {
        messages: vec![
            msg("foundation:Msg1", "foundation:ConvA", "user", 1_000, vec!["anthropic:TextBlock"]),
            msg("foundation:Msg2", "foundation:ConvA", "assistant", 2_000, vec![]),
        ],
    };
    assert!(!has_pending_user_message(&store, "foundation:ConvA"));
}

#[test]
fn has_pending_user_message_retorna_false_em_conversa_vazia() {
    let store = MessageStore { messages: vec![] };
    assert!(!has_pending_user_message(&store, "foundation:ConvEmpty"));
}

#[test]
fn delete_messages_from_timestamp_keeps_earlier_and_other_conversations() {
    let mut store = MessageStore {
        messages: vec![
            msg("m1", "c", "user", 1_000, vec![]),
            msg("m2", "c", "assistant", 2_000, vec![]),
            msg("m3", "other", "user", 3_000, vec![]),
            msg("m4", "c", "user", 3_000, vec![]),
        ],
    };
    assert!(delete_messages_from_timestamp(&mut store, "c", 2_000, true).is_ok());
    let left: Vec<&str> = store.messages.iter().map(|m| m.iri.as_str()).collect();
    assert_eq!(left, vec!["m1", "m2", "m3"]);
    assert!(delete_messages_from_timestamp(&mut store, "c", 2_000, false).is_ok());
    let left: Vec<&str> = store.messages.iter().map(|m| m.iri.as_str()).collect();
    assert_eq!(left, vec!["m1", "m3"]);
}

#[test]
fn recovery_first_turn_ctx_needs_entities() {
    assert!(recovery_first_turn_ctx(&[]).is_none());
    let e = SubconsciousEntity {
        iri: "foundation:X".to_string(),
        label: "X".to_string(),
        type_iri: "foundation:T".to_string(),
        type_label: "T".to_string(),
        icon: None,
        score_bits: 0.5f32.to_bits(),
        property_hits: vec![],
        is_open_loop: None,
    };
    let ctx = recovery_first_turn_ctx(&[e]).unwrap();
    assert!(ctx.subconscious_context.unwrap().contains("entity_iri=foundation:X"));
    assert!(ctx.camera_images.is_none());
}

// Trace

#[test]
fn make_step_truncates_long_input() {
    let long_iri = "A".repeat(300);
    let input = JsonValue::Object(vec![("iris".to_string(), JsonValue::Array(vec![JsonValue::Str(long_iri)]))]);
    let step = make_step(1, "describe_individual", &input, "ok", false, 42);
    assert!(step.input_snippet.ends_with('…'), "should end with an ellipsis");
    assert!(step.input_snippet.chars().count() <= 202, "snippet should not exceed 201 chars + ellipsis");
}

#[test]
fn make_step_does_not_truncate_short_input() {
    let input = JsonValue::Object(vec![("query".to_string(), JsonValue::Str("hello".to_string()))]);
    let step = make_step(1, "search", &input, "3 results", false, 10);
    assert!(!step.input_snippet.ends_with('…'), "should not truncate short inputs");
    assert_eq!(step.tool, "search");
    assert_eq!(step.iteration, 1);
    assert_eq!(step.duration_ms, 10);
    assert!(!step.is_error);
}

#[test]
fn make_step_error_preserves_flag() {
    let input = JsonValue::Object(vec![(
        "iris".to_string(),
        JsonValue::Array(vec![JsonValue::Str("foundation:X".to_string())]),
    )]);
    let step = make_step(2, "describe_individual", &input, r#"{"success":false,"error":"not found"}"#, true, 5);
    assert!(step.is_error);
    assert_eq!(step.iteration, 2);
}

#[test]
fn make_step_snippet_is_compact_json() {
    let input = JsonValue::Object(vec![("query".to_string(), JsonValue::Str("hello".to_string()))]);
    let step = make_step(1, "search", &input, "r", false, 1);
    assert_eq!(step.input_snippet, "{\"query\":\"hello\"}");
    let long = "x".repeat(201);
    let step = make_step(1, "search", &input, &long, false, 1);
    assert_eq!(step.result_snippet, format!("{}…", "x".repeat(200)));
}

// Settings

#[test]
fn settings_read_literal_setting_values() {
    let setting = ind("foundation:DefaultAIModelSetting", vec![
        ("rdfs:label", lit("Model")),
        ("foundation:settingValue", lit("foundation:Model_1")),
    ]);
    assert_eq!(get_ai_model_iri(Some(&setting)), Ok(Some("foundation:Model_1".to_string())));
    assert_eq!(get_ai_model_iri(None), Ok(None));
    let iri_valued = ind("s", vec![("foundation:settingValue", GraphObject::Iri("x".to_string()))]);
    assert_eq!(get_ai_model_iri(Some(&iri_valued)), Ok(None));
    assert_eq!(load_base_system_prompt(Some(&setting)), "foundation:Model_1");
    assert_eq!(load_base_system_prompt(None), "");
}

#[test]
fn get_ai_service_iri_takes_the_ai_service_setting() {
    let settings = vec![
        ind("s1", vec![("foundation:settingKey", lit("theme")), ("foundation:settingValue", lit("dark"))]),
        ind("s2", vec![("foundation:settingKey", lit("aiService")), ("foundation:settingValue", lit("foundation:Svc"))]),
    ];
    assert_eq!(get_ai_service_iri(&settings), Ok(Some("foundation:Svc".to_string())));
    assert_eq!(get_ai_service_iri(&settings[..1]), Ok(None));
}

#[test]
fn agent_config_prefers_agent_budget_then_model_then_default() {
    let agent = ind("a", vec![
        ("foundation:basePrompt", lit("Be brief")),
        ("foundation:maxInputTokensPreference", lit("5000")),
        ("foundation:maxOutputTokens", GraphObject::Integer(2048)),
    ]);
    let model = ind("m", vec![
        ("foundation:maxInputTokens", GraphObject::Integer(100000)),
        ("foundation:modelCapability", lit("web_tools")),
    ]);
    let timeout = ind("t", vec![("foundation:settingValue", lit("60"))]);
    let cfg = agent_config_from(
        "key".to_string(), false, "url".to_string(), Some(r#"["a","b"]"#), "mid".to_string(),
        &agent, &model, Some(&timeout), "base".to_string(),
    );
    assert_eq!(cfg.system_prompt, "Be brief");
    assert_eq!(cfg.max_tokens, 5000);
    assert_eq!(cfg.max_output_tokens, 2048);
    assert!(cfg.supports_web_tools);
    assert_eq!(cfg.timeout_secs, 60);
    assert_eq!(cfg.fallback_models, vec!["a".to_string(), "b".to_string()]);

    let bare = ind("a2", vec![("foundation:maxInputTokensPreference", lit("lots"))]);
    let cfg = agent_config_from(
        String::new(), true, String::new(), Some("not json"), "mid".to_string(),
        &bare, &model, None, String::new(),
    );
    assert_eq!(cfg.max_tokens, 100000);
    assert_eq!(cfg.max_output_tokens, MAX_OUTPUT_TOKENS);
    assert_eq!(cfg.timeout_secs, DEFAULT_TIMEOUT_SECS);
    assert!(cfg.fallback_models.is_empty());
    assert_eq!(cfg.system_prompt, "");

    let empty_model = ind("m2", vec![]);
    let cfg = agent_config_from(
        String::new(), true, String::new(), None, "mid".to_string(),
        &bare, &empty_model, None, String::new(),
    );
    assert_eq!(cfg.max_tokens, DEFAULT_MAX_INPUT_TOKENS);
    assert!(!cfg.supports_web_tools);
}

#[test]
fn fallback_models_require_a_list_of_strings() {
    assert_eq!(fallback_models_from(Some(r#"["x"]"#)), vec!["x".to_string()]);
    assert!(fallback_models_from(Some(r#"["x", 1]"#)).is_empty());
    assert!(fallback_models_from(None).is_empty());
}

// Compaction

#[test]
fn compaction_config_copies_the_agent_settings() {
    let c = CompactionConfig::from_agent_config(&config());
    assert_eq!(c.max_tokens, 1000);
    assert_eq!(c.api_key, "k");
    assert_eq!(c.model_identifier, "m1");
    assert_eq!(c.fallback_models, vec!["m2".to_string()]);
    assert_eq!(c.timeout_secs, 5);
}

#[test]
fn build_provider_picks_by_endpoint_and_key() {
    let mut c = CompactionConfig::from_agent_config(&config());
    assert!(matches!(build_provider(&c), AiProvider::Claude(_)));
    c.base_url = "https://openrouter.ai/api/v1".to_string();
    match build_provider(&c) {
        AiProvider::OpenRouter(p) => {
            assert_eq!(p.model_identifier(), Some("m1".to_string()));
            assert_eq!(p.fallback_models, vec!["m2".to_string()]);
        }
        other => panic!("expected OpenRouter, got {:?}", other),
    }
    c.base_url = String::new();
    c.api_key = String::new();
    match build_provider(&c) {
        AiProvider::Local(p) => assert_eq!(p.path(), ""),
        other => panic!("expected Local, got {:?}", other),
    }
}

// Prompt sections

#[test]
fn build_system_prompt_orders_sections() {
    let p = build_system_prompt(&config(), "FC", "WC", None, "foundation:Conv_1");
    assert!(p.starts_with("FC\n\nBASE\n\nWC\n\nAGENT\n\n## Delegating Tasks\n"));
    assert!(p.contains("Your current conversation IRI is: `foundation:Conv_1`."));
    assert!(p.ends_with("An empty final turn is a failure."));
    let one = build_system_prompt(&config(), "FC", "WC", Some(1), "c");
    assert!(one.contains("[Camera Vision] 1 webcam snapshot of the user"));
    let two = build_system_prompt(&config(), "FC", "WC", Some(2), "c");
    assert!(two.contains("[Camera Vision] 2 webcam snapshots of the user"));
}

#[test]
fn subclasses_are_sorted_by_label_and_rendered() {
    let found = vec![
        (AUTOMATION_TASK_ROOT.to_string(), Some("Task".to_string()), None),
        ("foundation:b".to_string(), Some("Send email".to_string()), Some("  ".to_string())),
        ("foundation:a".to_string(), None, Some("Runs a script".to_string())),
        ("foundation:c".to_string(), Some("Call API".to_string()), None),
    ];
    let list = list_subclasses_of(AUTOMATION_TASK_ROOT, &found);
    let labels: Vec<&str> = list.iter().map(|e| e.1.as_str()).collect();
    assert_eq!(labels, vec!["Call API", "Send email", "foundation:a"]);
    assert_eq!(
        render_list(&list, "none"),
        "- `foundation:c` (Call API)\n- `foundation:b` (Send email)\n- `foundation:a` (foundation:a) — Runs a script"
    );
    assert_eq!(render_list(&[], "no task types registered"), "_no task types registered_");
}

#[test]
fn foundation_architecture_context_lists_registered_types() {
    let ctx = foundation_architecture_context(&[], &[], &[]);
    assert!(ctx.starts_with("# Foundation — system architecture\n"));
    assert!(ctx.contains("### Registered events\n_no event types registered_\n"));
    assert!(ctx.contains("### Registered task types\n_no task types registered_\n"));
    assert!(ctx.contains("### Gateways\n_no gateway types registered_\n"));
    assert!(ctx.contains("`foundation:ClassName_{timestamp}`"));
}
