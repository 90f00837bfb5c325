//! Agent settings read from the graph: the configured model, service and
//! prompts, and the configuration an agent runs with.
use vstd::prelude::*;
use crate::graph::{GraphObject, Individual, first_literal, first_property, literal_of, find_literal, find_property};
use crate::json::{Json, JsonValue, json_parse, parse_json, member, entries_view, lemma_entries_view};
use crate::number_text::{uint_text, parse_usize, parse_u64};
use crate::text::{str_eq, copy_string, to_owned_string, replace_all, replace_str, str_concat};

verus! {

/// Input token budget when neither the agent nor its model sets one.
pub const DEFAULT_MAX_INPUT_TOKENS: usize = 30000;

/// Request timeout when no setting overrides it.
pub const DEFAULT_TIMEOUT_SECS: u64 = 900;

/// Output token budget when the agent sets none.
pub const MAX_OUTPUT_TOKENS: u32 = 64000;

/// The configuration an agent runs with.
#[derive(Debug)]
pub struct AgentConfig {
    pub api_key: String,
    pub is_local: bool,
    pub base_url: String,
    pub fallback_models: Vec<String>,
    pub model_identifier: String,
    pub base_system_prompt: String,
    pub system_prompt: String,
    pub max_tokens: usize,
    pub max_output_tokens: u32,
    pub supports_web_tools: bool,
    pub timeout_secs: u64,
}

/// The literal `settingValue` of a setting individual, if there is one.
pub open spec fn setting_value(setting: Option<Individual>) -> Option<Seq<char>> {
    match setting {
        Some(s) => first_literal(s.properties@, "foundation:settingValue"@),
        None => None,
    }
}

/// Get the AI model IRI from the `DefaultAIModelSetting` individual (the
/// setting the user updates): its literal `settingValue`.
pub fn get_ai_model_iri(setting: Option<&Individual>) -> (r: Result<Option<String>, String>)
    ensures
        match r {
            Ok(Some(v)) => setting_value(match setting {
                Some(s) => Some(*s),
                None => None,
            }) == Some(v@),
            Ok(None) => setting_value(match setting {
                Some(s) => Some(*s),
                None => None,
            }) is None,
            Err(_) => false,
        },
{
    match setting {
        Some(s) => Ok(find_literal(&s.properties, "foundation:settingValue")),
        None => Ok(None),
    }
}

/// The base system prompt from the `DefaultSystemPromptSetting` individual:
/// its literal `settingValue`, or empty.
pub fn load_base_system_prompt(setting: Option<&Individual>) -> (r: String)
    ensures
        r@ == match setting_value(match setting {
            Some(s) => Some(*s),
            None => None,
        }) {
            Some(v) => v,
            None => Seq::empty(),
        },
{
    match setting {
        Some(s) => match find_literal(&s.properties, "foundation:settingValue") {
            Some(v) => v,
            None => String::new(),
        },
        None => String::new(),
    }
}

/// The AI service of the first software setting whose `settingKey` is
/// `aiService`: its literal `settingValue` (none when that setting has none).
pub open spec fn service_setting(settings: Seq<Individual>) -> Option<Seq<char>>
    decreases settings.len(),
{
    if settings.len() == 0 {
        None
    } else if first_literal(settings[0].properties@, "foundation:settingKey"@) == Some("aiService"@) {
        first_literal(settings[0].properties@, "foundation:settingValue"@)
    } else {
        service_setting(settings.drop_first())
    }
}

/// Get the AI service IRI from the software settings (the one whose
/// `settingKey` is `aiService`).
pub fn get_ai_service_iri(settings: &[Individual]) -> (r: Result<Option<String>, String>)
    ensures
        match r {
            Ok(Some(v)) => service_setting(settings@) == Some(v@),
            Ok(None) => service_setting(settings@) is None,
            Err(_) => false,
        },
{
    let mut i: usize = 0;
    assert(settings@.skip(0) =~= settings@);
    while i < settings.len()
        invariant
            i <= settings@.len(),
            service_setting(settings@) == service_setting(settings@.skip(i as int)),
        decreases settings.len() - i,
    {
        let ghost rest = settings@.skip(i as int);
        assert(rest[0] == settings@[i as int]);
        assert(rest.drop_first() =~= settings@.skip(i + 1));
        let key = find_literal(&settings[i].properties, "foundation:settingKey");
        let is_service = match &key {
            Some(k) => str_eq(k.as_str(), "aiService"),
            None => false,
        };
        if is_service {
            return Ok(find_literal(&settings[i].properties, "foundation:settingValue"));
        }
        i = i + 1;
    }
    Ok(None)
}

/// The fallback model list stored as JSON: a JSON array of strings, or none.
pub open spec fn fallback_models_spec(json: Option<Seq<char>>) -> Seq<Seq<char>> {
    match json {
        Some(t) => match json_parse(t) {
            Some(Json::Array(a)) => if forall|i: int| 0 <= i < a.len() ==> (#[trigger] a[i]) is Str {
                a.map_values(|x: Json| x->Str_0)
            } else {
                Seq::empty()
            },
            _ => Seq::empty(),
        },
        None => Seq::empty(),
    }
}

/// The fallback models: the stored JSON read as a list of strings, or empty
/// when absent or not such a list.
pub fn fallback_models_from(json: Option<&str>) -> (r: Vec<String>)
    ensures
        crate::text::strings_view(r@) == fallback_models_spec(match json {
            Some(t) => Some(t@),
            None => None,
        }),
{
    let text = match json {
        Some(t) => t,
        None => {
            let out: Vec<String> = Vec::new();
            assert(crate::text::strings_view(out@) =~= Seq::<Seq<char>>::empty());
            return out;
        },
    };
    let parsed = parse_json(text);
    let arr = match &parsed {
        Some(JsonValue::Array(a)) => a,
        _ => {
            let out: Vec<String> = Vec::new();
            assert(crate::text::strings_view(out@) =~= Seq::<Seq<char>>::empty());
            return out;
        },
    };
    let ghost items = crate::json::items_view(arr@);
    proof {
        crate::json::lemma_items_view(arr@);
        assert(parsed->0@ == Json::Array(items));
        assert(json_parse(text@) == Some(Json::Array(items)));
    }
    let mut out: Vec<String> = Vec::new();
    let mut i: usize = 0;
    while i < arr.len()
        invariant
            i <= arr@.len(),
            json == Some(text),
            json_parse(text@) == Some(Json::Array(items)),
            items == arr@.map_values(|x: JsonValue| crate::json::json_view(x)),
            forall|j: int| 0 <= j < i ==> (#[trigger] items[j]) is Str,
            crate::text::strings_view(out@) == items.take(i as int).map_values(|x: Json| x->Str_0),
        decreases arr.len() - i,
    {
        match &arr[i] {
            JsonValue::Str(s) => {
                let ghost prev = crate::text::strings_view(out@);
                out.push(copy_string(s));
                assert(crate::text::strings_view(out@) =~= prev.push(s@));
                assert(items.take(i + 1) =~= items.take(i as int).push(items[i as int]));
            },
            _ => {
                assert(!(items[i as int] is Str));
                assert(!(forall|j: int| 0 <= j < items.len() ==> (#[trigger] items[j]) is Str));
                assert(fallback_models_spec(Some(text@)) == Seq::<Seq<char>>::empty());
                let empty: Vec<String> = Vec::new();
                assert(crate::text::strings_view(empty@) =~= Seq::<Seq<char>>::empty());
                return empty;
            },
        }
        i = i + 1;
    }
    assert(items.take(items.len() as int) =~= items);
    out
}

/// `value as usize` and `value as u32` on an `i64`: the value modulo the
/// size of the type, as a cast truncates.
pub open spec fn integer_value(o: Option<GraphObject>) -> Option<i64> {
    match o {
        Some(GraphObject::Integer(n)) => Some(n),
        _ => None,
    }
}

/// The input token budget: the agent's `maxInputTokensPreference` (an
/// integer, or a literal holding one), else the model's `maxInputTokens`,
/// else the default.
pub open spec fn max_tokens_spec(agent: Seq<(String, GraphObject)>, model: Seq<(String, GraphObject)>) -> usize {
    let pref = match first_property(agent, "foundation:maxInputTokensPreference"@) {
        Some(GraphObject::Integer(n)) => Some(n as usize),
        Some(GraphObject::Literal { value, .. }) => match uint_text(value@) {
            Some(v) => if v <= usize::MAX {
                Some(v as usize)
            } else {
                None
            },
            None => None,
        },
        _ => None,
    };
    match pref {
        Some(v) => v,
        None => match integer_value(first_property(model, "foundation:maxInputTokens"@)) {
            Some(n) => n as usize,
            None => DEFAULT_MAX_INPUT_TOKENS,
        },
    }
}

/// Whether the model lists the `web_tools` capability.
pub open spec fn supports_web_tools_spec(model: Seq<(String, GraphObject)>) -> bool {
    exists|i: int| 0 <= i < model.len() && (#[trigger] model[i]).0@ == "foundation:modelCapability"@
        && literal_of(model[i].1) == Some("web_tools"@)
}

/// The request timeout: the timeout setting's `settingValue` read as a
/// number of seconds, else the default.
pub open spec fn timeout_spec(setting: Option<Individual>) -> u64 {
    match setting_value(setting) {
        Some(v) => match uint_text(v) {
            Some(n) => if n <= u64::MAX {
                n as u64
            } else {
                DEFAULT_TIMEOUT_SECS
            },
            None => DEFAULT_TIMEOUT_SECS,
        },
        None => DEFAULT_TIMEOUT_SECS,
    }
}

/// The output token budget: the agent's integer `maxOutputTokens`, else the
/// default.
pub open spec fn max_output_spec(agent: Seq<(String, GraphObject)>) -> u32 {
    match integer_value(first_property(agent, "foundation:maxOutputTokens"@)) {
        Some(n) => n as u32,
        None => MAX_OUTPUT_TOKENS,
    }
}

fn max_tokens_of(agent: &Individual, model: &Individual) -> (r: usize)
    ensures
        r == max_tokens_spec(agent.properties@, model.properties@),
{
    let pref = match find_property(&agent.properties, "foundation:maxInputTokensPreference") {
        Some(GraphObject::Integer(n)) => Some(*n as usize),
        Some(GraphObject::Literal { value, .. }) => parse_usize(value.as_str()),
        _ => None,
    };
    match pref {
        Some(v) => v,
        None => match find_property(&model.properties, "foundation:maxInputTokens") {
            Some(GraphObject::Integer(n)) => *n as usize,
            _ => DEFAULT_MAX_INPUT_TOKENS,
        },
    }
}

fn supports_web_tools_of(model: &Individual) -> (r: bool)
    ensures
        r == supports_web_tools_spec(model.properties@),
{
    let mut i: usize = 0;
    while i < model.properties.len()
        invariant
            i <= model.properties@.len(),
            forall|j: int| 0 <= j < i ==> !((#[trigger] model.properties@[j]).0@ == "foundation:modelCapability"@
                && literal_of(model.properties@[j].1) == Some("web_tools"@)),
        decreases model.properties.len() - i,
    {
        let (k, v) = (&model.properties[i].0, &model.properties[i].1);
        if str_eq(k.as_str(), "foundation:modelCapability") {
            match v {
                GraphObject::Literal { value, .. } => {
                    if str_eq(value.as_str(), "web_tools") {
                        assert(model.properties@[i as int].0@ == "foundation:modelCapability"@);
                        return true;
                    }
                },
                _ => {},
            }
        }
        i = i + 1;
    }
    false
}

/// Assembles an agent's configuration from what the graph holds for it:
/// the credentials and endpoint already resolved, the stored fallback list,
/// the agent and model individuals and the timeout setting.
pub fn agent_config_from(
    api_key: String,
    is_local: bool,
    base_url: String,
    fallback_json: Option<&str>,
    model_identifier: String,
    agent: &Individual,
    model: &Individual,
    timeout_setting: Option<&Individual>,
    base_system_prompt: String,
) -> (r: AgentConfig)
    ensures
        r.api_key == api_key,
        r.is_local == is_local,
        r.base_url == base_url,
        crate::text::strings_view(r.fallback_models@) == fallback_models_spec(match fallback_json {
            Some(t) => Some(t@),
            None => None,
        }),
        r.model_identifier == model_identifier,
        r.base_system_prompt == base_system_prompt,
        r.system_prompt@ == match first_literal(agent.properties@, "foundation:basePrompt"@) {
            Some(p) => p,
            None => Seq::empty(),
        },
        r.max_tokens == max_tokens_spec(agent.properties@, model.properties@),
        r.max_output_tokens == max_output_spec(agent.properties@),
        r.supports_web_tools == supports_web_tools_spec(model.properties@),
        r.timeout_secs == timeout_spec(match timeout_setting {
            Some(s) => Some(*s),
            None => None,
        }),
{
    let system_prompt = match find_literal(&agent.properties, "foundation:basePrompt") {
        Some(p) => p,
        None => String::new(),
    };
    let max_output_tokens = match find_property(&agent.properties, "foundation:maxOutputTokens") {
        Some(GraphObject::Integer(n)) => *n as u32,
        _ => MAX_OUTPUT_TOKENS,
    };
    let timeout_secs = match timeout_setting {
        Some(s) => match find_literal(&s.properties, "foundation:settingValue") {
            Some(v) => match parse_u64(v.as_str()) {
                Some(n) => n,
                None => DEFAULT_TIMEOUT_SECS,
            },
            None => DEFAULT_TIMEOUT_SECS,
        },
        None => DEFAULT_TIMEOUT_SECS,
    };
    AgentConfig {
        api_key,
        is_local,
        base_url,
        fallback_models: fallback_models_from(fallback_json),
        model_identifier,
        base_system_prompt,
        system_prompt,
        max_tokens: max_tokens_of(agent, model),
        max_output_tokens,
        supports_web_tools: supports_web_tools_of(model),
        timeout_secs,
    }
}

/// The error when neither the setting nor a model gives the input budget.
pub const NO_MAX_INPUT_TOKENS_ERROR: &'static str =
    "Failed to get max input tokens: DefaultMaxInputTokensSetting not found and no AI model configured";

/// The default input budget: the `DefaultMaxInputTokensSetting` value when
/// it reads as a number; else the configured model's integer
/// `maxInputTokens` (cut to `usize`); else an error. `model` is the lookup
/// of the configured model: none when no model is configured, an error when
/// it could not be read.
pub open spec fn max_input_tokens_spec(setting: Option<Individual>, model: Result<Option<Individual>, Seq<char>>) -> Result<
    usize,
    Seq<char>,
> {
    match setting_value(setting) {
        Some(v) if (uint_text(v) matches Some(n) && n <= usize::MAX) => Ok(uint_text(v)->Some_0 as usize),
        _ => match model {
            Err(e) => Err(e),
            Ok(Some(m)) => match integer_value(first_property(m.properties@, "foundation:maxInputTokens"@)) {
                Some(n) => Ok(n as usize),
                None => Err(NO_MAX_INPUT_TOKENS_ERROR@),
            },
            Ok(None) => Err(NO_MAX_INPUT_TOKENS_ERROR@),
        },
    }
}

/// The default input budget (see [`max_input_tokens_spec`]).
pub fn get_max_input_tokens(setting: Option<&Individual>, model: Result<Option<&Individual>, String>) -> (r: Result<
    usize,
    String,
>)
    ensures
        ({
            let sv = match setting {
                Some(s) => Some(*s),
                None => None,
            };
            let mv = match model {
                Ok(Some(m)) => Ok(Some(*m)),
                Ok(None) => Ok(None),
                Err(e) => Err(e@),
            };
            match (r, max_input_tokens_spec(sv, mv)) {
                (Ok(a), Ok(b)) => a == b,
                (Err(a), Err(b)) => a@ == b,
                _ => false,
            }
        }),
{
    match setting {
        Some(st) => match find_literal(&st.properties, "foundation:settingValue") {
            Some(v) => match parse_usize(v.as_str()) {
                Some(n) => {
                    return Ok(n);
                },
                None => {},
            },
            None => {},
        },
        None => {},
    }
    match model {
        Err(e) => Err(e),
        Ok(Some(m)) => match find_property(&m.properties, "foundation:maxInputTokens") {
            Some(GraphObject::Integer(n)) => Ok(*n as usize),
            _ => Err(to_owned_string(NO_MAX_INPUT_TOKENS_ERROR)),
        },
        Ok(None) => Err(to_owned_string(NO_MAX_INPUT_TOKENS_ERROR)),
    }
}

// ---------------------------------------------------------------------------
// The system prompt
// ---------------------------------------------------------------------------

/// The user's name when `ThisUser` has no label.
pub const DEFAULT_USER_NAME: &'static str = "User";

/// The assistant's name when `LocalAIAssistant` has no label.
pub const DEFAULT_AI_NAME: &'static str = "NOVA";

/// The language when no language setting is stored.
pub const DEFAULT_LANGUAGE: &'static str = "English";

/// The locale when no locale setting is stored.
pub const DEFAULT_LOCALE: &'static str = "en_US";

/// The country when no country setting is stored.
pub const DEFAULT_COUNTRY: &'static str = "United States";

/// The system prompt template with its placeholders filled, in this order:
/// `{user_name}`, `{ai_name}`, `{date_time}` (by nothing: the date and time
/// are given with each user message), `{language}`, `{locale}`,
/// `{country}` and `{location_info}`.
pub open spec fn system_prompt_spec(
    template: Seq<char>,
    user_name: Seq<char>,
    ai_name: Seq<char>,
    language: Seq<char>,
    locale: Seq<char>,
    country: Seq<char>,
    location_info: Seq<char>,
) -> Seq<char> {
    let a = replace_all(template, "{user_name}"@, user_name);
    let b = replace_all(a, "{ai_name}"@, ai_name);
    let c = replace_all(b, "{date_time}"@, Seq::empty());
    let d = replace_all(c, "{language}"@, language);
    let e = replace_all(d, "{locale}"@, locale);
    let f = replace_all(e, "{country}"@, country);
    replace_all(f, "{location_info}"@, location_info)
}

/// Fills the placeholders of the system prompt template (see
/// [`system_prompt_spec`]).
pub fn fill_system_prompt(
    template: &str,
    user_name: &str,
    ai_name: &str,
    language: &str,
    locale: &str,
    country: &str,
    location_info: &str,
) -> (r: String)
    ensures
        r@ == system_prompt_spec(template@, user_name@, ai_name@, language@, locale@, country@, location_info@),
{
    proof {
        reveal_strlit("{user_name}");
        reveal_strlit("{ai_name}");
        reveal_strlit("{date_time}");
        reveal_strlit("{language}");
        reveal_strlit("{locale}");
        reveal_strlit("{country}");
        reveal_strlit("{location_info}");
        reveal_strlit("");
    }
    let a = replace_str(template, "{user_name}", user_name);
    let b = replace_str(a.as_str(), "{ai_name}", ai_name);
    let c = replace_str(b.as_str(), "{date_time}", "");
    assert(""@ =~= Seq::<char>::empty());
    let d = replace_str(c.as_str(), "{language}", language);
    let e = replace_str(d.as_str(), "{locale}", locale);
    let f = replace_str(e.as_str(), "{country}", country);
    replace_str(f.as_str(), "{location_info}", location_info)
}

// ---------------------------------------------------------------------------
// Which agent, service and model a conversation runs with
// ---------------------------------------------------------------------------

/// The error when a conversation names no agent.
pub open spec fn no_agent_error(conversation_iri: Seq<char>) -> Seq<char> {
    "Conversation "@ + conversation_iri + " has no handledBy agent"@
}

/// The error when neither the agent nor the settings name a service.
pub open spec fn no_service_error(agent_iri: Seq<char>) -> Seq<char> {
    "Agent "@ + agent_iri + " has no usesService and no default service configured."@
}

/// The error when neither the agent nor the settings name a model.
pub open spec fn no_model_error(agent_iri: Seq<char>) -> Seq<char> {
    "Agent "@ + agent_iri + " has no usesModel and no default model configured."@
}

/// The agent that handles a conversation, or the error when it has none.
pub fn handled_by_agent(conversation_iri: &str, agent: Option<String>) -> (r: Result<String, String>)
    ensures
        match agent {
            Some(a) => r matches Ok(x) && x@ == a@,
            None => r matches Err(e) && e@ == no_agent_error(conversation_iri@),
        },
{
    match agent {
        Some(a) => Ok(a),
        None => {
            let head = str_concat("Conversation ", conversation_iri);
            Err(str_concat(head.as_str(), " has no handledBy agent"))
        },
    }
}

/// The service an agent uses: its own, else the configured default, else
/// the error.
pub fn agent_service(agent_iri: &str, own: Option<String>, default: Option<String>) -> (r: Result<String, String>)
    ensures
        match (own, default) {
            (Some(s), _) => r matches Ok(x) && x@ == s@,
            (None, Some(s)) => r matches Ok(x) && x@ == s@,
            (None, None) => r matches Err(e) && e@ == no_service_error(agent_iri@),
        },
{
    match own {
        Some(s) => Ok(s),
        None => match default {
            Some(s) => Ok(s),
            None => {
                let head = str_concat("Agent ", agent_iri);
                Err(str_concat(head.as_str(), " has no usesService and no default service configured."))
            },
        },
    }
}

/// The model an agent uses: its own, else the configured default, else the
/// error.
pub fn agent_model(agent_iri: &str, own: Option<String>, default: Option<String>) -> (r: Result<String, String>)
    ensures
        match (own, default) {
            (Some(m), _) => r matches Ok(x) && x@ == m@,
            (None, Some(m)) => r matches Ok(x) && x@ == m@,
            (None, None) => r matches Err(e) && e@ == no_model_error(agent_iri@),
        },
{
    match own {
        Some(m) => Ok(m),
        None => match default {
            Some(m) => Ok(m),
            None => {
                let head = str_concat("Agent ", agent_iri);
                Err(str_concat(head.as_str(), " has no usesModel and no default model configured."))
            },
        },
    }
}

// ---------------------------------------------------------------------------
// Listing agents
// ---------------------------------------------------------------------------

/// The status of an agent that is active.
pub const ACTIVE_STATUS: &'static str = "foundation:Status_1772755611667";

/// The most agents a page of the agent list holds.
pub const MAX_AGENT_PAGE: i64 = 500;

/// An agent can take a conversation when its status is the active one and
/// a service is there for it (its own or the default).
pub open spec fn agent_available_spec(status: Option<Seq<char>>, uses_service: bool) -> bool {
    status == Some(ACTIVE_STATUS@) && uses_service
}

/// Whether an agent is offered as available (see [`agent_available_spec`]).
pub fn agent_available(status: Option<&str>, uses_service: bool) -> (r: bool)
    ensures
        r == agent_available_spec(
            match status {
                Some(s) => Some(s@),
                None => None,
            },
            uses_service,
        ),
{
    match status {
        Some(s) => str_eq(s, ACTIVE_STATUS) && uses_service,
        None => false,
    }
}

/// The page of the agent list asked for: its size (200 when none, kept
/// between 1 and 500) and its offset (none or negative is zero).
pub fn agents_page(limit: Option<i64>, offset: Option<i64>) -> (r: (i64, i64))
    ensures
        r.0 == (match limit {
            Some(l) => if l < 1 { 1 } else if l > MAX_AGENT_PAGE { MAX_AGENT_PAGE } else { l },
            None => 200,
        }),
        r.1 == (match offset {
            Some(o) => if o < 0 { 0 } else { o },
            None => 0,
        }),
{
    let size = match limit {
        Some(l) => if l < 1 { 1 } else if l > MAX_AGENT_PAGE { MAX_AGENT_PAGE } else { l },
        None => 200,
    };
    let off = match offset {
        Some(o) => if o < 0 { 0 } else { o },
        None => 0,
    };
    (size, off)
}

/// A software agent as the agent list reads it: its IRI, label and icon,
/// its status, and whether it names a service of its own.
#[derive(Debug)]
pub struct AgentRow {
    pub iri: String,
    pub label: String,
    pub icon: Option<String>,
    pub status: Option<String>,
    pub has_own_service: bool,
}

/// The entry of the agent list for an agent: its IRI, label and icon, and
/// whether it can take a conversation, a service being there for it when it
/// names one or a default one is configured.
pub open spec fn agent_entry(row: AgentRow, default_service: bool) -> Json {
    Json::Object(
        seq![
            (
                "available"@,
                Json::Bool(
                    agent_available_spec(
                        match row.status {
                            Some(s) => Some(s@),
                            None => None,
                        },
                        row.has_own_service || default_service,
                    ),
                ),
            ),
            (
                "icon"@,
                match row.icon {
                    Some(i) => Json::Str(i@),
                    None => Json::Null,
                },
            ),
            ("iri"@, Json::Str(row.iri@)),
            ("label"@, Json::Str(row.label@)),
        ],
    )
}

/// The entry of the agent list for one agent (see [`agent_entry`]).
pub fn agent_entry_of(row: &AgentRow, default_service: bool) -> (r: JsonValue)
    ensures
        r@ == agent_entry(*row, default_service),
{
    let status = match &row.status {
        Some(s) => Some(s.as_str()),
        None => None,
    };
    let available = agent_available(status, row.has_own_service || default_service);
    let icon = match &row.icon {
        Some(i) => JsonValue::Str(copy_string(i)),
        None => JsonValue::Null,
    };
    let entries = vec![
        member("available", JsonValue::Bool(available)),
        member("icon", icon),
        member("iri", JsonValue::Str(copy_string(&row.iri))),
        member("label", JsonValue::Str(copy_string(&row.label))),
    ];
    proof {
        lemma_entries_view(entries@);
    }
    assert(entries_view(entries@) =~= agent_entry(*row, default_service)->Object_0);
    JsonValue::Object(entries)
}

/// The agent list: an entry for each agent, in order.
pub fn agent_list(rows: &Vec<AgentRow>, default_service: bool) -> (r: Vec<JsonValue>)
    ensures
        r@.len() == rows@.len(),
        forall|i: int| 0 <= i < rows@.len() ==> (#[trigger] r@[i])@ == agent_entry(rows@[i], default_service),
{
    let mut out: Vec<JsonValue> = Vec::new();
    let mut i: usize = 0;
    while i < rows.len()
        invariant
            i <= rows@.len(),
            out@.len() == i,
            forall|k: int| 0 <= k < i ==> (#[trigger] out@[k])@ == agent_entry(rows@[k], default_service),
        decreases rows.len() - i,
    {
        out.push(agent_entry_of(&rows[i], default_service));
        i = i + 1;
    }
    out
}

} // verus!
