use foundation_ai::number_text::sum_text;
use foundation_ai::json::JsonValue;
use foundation_ai::settings::{
    agent_available, agent_list, agent_model, agent_service, agents_page, fill_system_prompt, handled_by_agent,
    AgentRow,
};
use foundation_ai::text::replace_str;

const ICON: &str = "https://example.com/icon.svg";

fn setup_agent(iri: &str, label: &str, active: bool, has_service: bool) -> AgentRow {
    AgentRow {
        iri: iri.to_string(),
        label: label.to_string(),
        icon: Some(ICON.to_string()),
        status: if active { Some("foundation:Status_1772755611667".to_string()) } else { None },
        has_own_service: has_service,
    }
}

fn field<'a>(v: &'a JsonValue, key: &str) -> Option<&'a JsonValue> {
    match v {
        JsonValue::Object(m) => m.iter().find(|(k, _)| k == key).map(|(_, x)| x),
        _ => None,
    }
}

#[test]
fn test_list_agents_returns_available_true_for_active_with_service() {
    let agents = vec![setup_agent("test:AgentA", "Agent A", true, true)];
    let page = agent_list(&agents, false);
    let a = &page[0];
    let has_service = agents[0].has_own_service;
    let is_active = agents[0].status.as_deref() == Some("foundation:Status_1772755611667");
    assert!(has_service, "Agent with usesService must have has_service=true");
    assert!(is_active, "Agent with Active status must have is_active=true");
    assert_eq!(field(a, "iri"), Some(&JsonValue::Str("test:AgentA".to_string())));
    assert_eq!(field(a, "label"), Some(&JsonValue::Str("Agent A".to_string())));
    assert_eq!(
        field(a, "available"),
        Some(&JsonValue::Bool(true)),
        "available must be true for active agent with service"
    );
}

#[test]
fn test_list_agents_flags_unavailable_when_missing_service() {
    let agents = vec![setup_agent("test:AgentNoService", "No Service Agent", true, false)];
    let page = agent_list(&agents, false);
    let a = &page[0];
    let has_service = agents[0].has_own_service;
    let is_active = agents[0].status.as_deref() == Some("foundation:Status_1772755611667");
    assert!(!has_service, "Agent without usesService must not be available");
    assert!(is_active, "Agent status is Active");
    assert_eq!(field(a, "available"), Some(&JsonValue::Bool(false)), "available must be false");
}

#[test]
fn agent_without_service_is_available_with_a_default_service() {
    let agents = vec![
        setup_agent("test:AgentNoService", "No Service Agent", true, false),
        setup_agent("test:Inactive", "Inactive", false, true),
    ];
    let page = agent_list(&agents, true);
    assert_eq!(page.len(), 2);
    assert_eq!(field(&page[0], "available"), Some(&JsonValue::Bool(true)));
    assert_eq!(field(&page[1], "available"), Some(&JsonValue::Bool(false)));
    assert_eq!(field(&page[1], "icon"), Some(&JsonValue::Str(ICON.to_string())));
}

#[test]
fn agent_without_status_or_with_other_status_is_unavailable() {
    assert!(!agent_available(None, true));
    assert!(!agent_available(Some("foundation:Status_1773183515321"), true));
}

#[test]
fn system_prompt_placeholders_are_filled() {
    let template = "Hi {user_name}, I am {ai_name}.{date_time} Speak {language} ({locale}) in {country}. {location_info} Bye {user_name}.";
    let r = fill_system_prompt(template, "Ana", "NOVA", "Portuguese", "pt_BR", "Brazil", "Lisbon");
    assert_eq!(r, "Hi Ana, I am NOVA. Speak Portuguese (pt_BR) in Brazil. Lisbon Bye Ana.");
}

#[test]
fn system_prompt_replacements_apply_in_order() {
    // A user name holding a later placeholder is filled by that later step.
    let r = fill_system_prompt("{user_name}", "{country}", "x", "x", "x", "Chile", "x");
    assert_eq!(r, "Chile");
    // An assistant name holding an earlier placeholder stays as it is.
    let r = fill_system_prompt("{ai_name}", "Ana", "{user_name}", "x", "x", "x", "x");
    assert_eq!(r, "{user_name}");
}

#[test]
fn replace_matches_std_replace() {
    for (s, p, r) in [("aaaa", "aa", "b"), ("abcabc", "bc", ""), ("xyz", "q", "w"), ("", "a", "b"), ("aba", "a", "aa")] {
        assert_eq!(replace_str(s, p, r), s.replace(p, r));
    }
}

#[test]
fn conversation_without_agent_is_an_error() {
    assert_eq!(handled_by_agent("conv:1", Some("agent:A".to_string())), Ok("agent:A".to_string()));
    assert_eq!(
        handled_by_agent("conv:1", None),
        Err("Conversation conv:1 has no handledBy agent".to_string())
    );
}

#[test]
fn service_and_model_fall_back_to_the_defaults() {
    assert_eq!(agent_service("a:1", Some("s:own".to_string()), Some("s:def".to_string())), Ok("s:own".to_string()));
    assert_eq!(agent_service("a:1", None, Some("s:def".to_string())), Ok("s:def".to_string()));
    assert_eq!(
        agent_service("a:1", None, None),
        Err("Agent a:1 has no usesService and no default service configured.".to_string())
    );
    assert_eq!(agent_model("a:1", None, Some("m:def".to_string())), Ok("m:def".to_string()));
    assert_eq!(
        agent_model("a:1", None, None),
        Err("Agent a:1 has no usesModel and no default model configured.".to_string())
    );
}

#[test]
fn agent_page_is_clamped() {
    assert_eq!(agents_page(None, None), (200, 0));
    assert_eq!(agents_page(Some(0), Some(-5)), (1, 0));
    assert_eq!(agents_page(Some(9999), Some(7)), (500, 7));
}

#[test]
fn decimal_sum_text_is_written_out() {
    assert_eq!(sum_text(0, 0), "0");
    assert_eq!(sum_text(19, 23), "42");
    assert_eq!(sum_text(usize::MAX, usize::MAX), (2u128 * usize::MAX as u128).to_string());
}
