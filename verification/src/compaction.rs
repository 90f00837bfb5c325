//! Compaction of long conversations: which provider summarizes them.
use vstd::prelude::*;
use crate::local_gemma::LocalProvider;
use crate::providers::{
    AiProvider, ClaudeProvider, OpenRouterProvider, ChatMessage, GenerateRequest, MessageContent, MessageView,
    ContentView,
};
use crate::chat_storage::{AIConversationMessage, stored_blocks_view};
use crate::chat_display::texts;
use crate::json::{Json, JsonValue};
use crate::settings::AgentConfig;
use crate::text::{
    contains, chars_of, find_chars, copy_string, strings_view, starts_with, starts_with_chars, str_eq, str_concat,
    join, join_strings, trim, string_of, to_owned_string,
};

verus! {

/// Minimal config snapshot passed to the background compaction task.
#[derive(Debug)]
pub struct CompactionConfig {
    pub max_tokens: usize,
    pub api_key: String,
    pub base_url: String,
    pub model_identifier: String,
    pub fallback_models: Vec<String>,
    pub timeout_secs: u64,
}

fn copy_strings(v: &Vec<String>) -> (r: Vec<String>)
    ensures
        strings_view(r@) == strings_view(v@),
{
    let mut out: Vec<String> = Vec::new();
    let mut i: usize = 0;
    while i < v.len()
        invariant
            i <= v@.len(),
            strings_view(out@) == strings_view(v@).take(i as int),
        decreases v.len() - i,
    {
        let ghost prev = strings_view(out@);
        out.push(copy_string(&v[i]));
        assert(strings_view(out@) =~= prev.push(v@[i as int]@));
        assert(strings_view(v@).take(i + 1) =~= strings_view(v@).take(i as int).push(v@[i as int]@));
        i = i + 1;
    }
    assert(strings_view(v@).take(v@.len() as int) =~= strings_view(v@));
    out
}

impl CompactionConfig {
    /// The part of an agent's configuration compaction needs.
    pub fn from_agent_config(cfg: &AgentConfig) -> (r: Self)
        ensures
            r.max_tokens == cfg.max_tokens,
            r.api_key@ == cfg.api_key@,
            r.base_url@ == cfg.base_url@,
            r.model_identifier@ == cfg.model_identifier@,
            strings_view(r.fallback_models@) == strings_view(cfg.fallback_models@),
            r.timeout_secs == cfg.timeout_secs,
    {
        CompactionConfig {
            max_tokens: cfg.max_tokens,
            api_key: copy_string(&cfg.api_key),
            base_url: copy_string(&cfg.base_url),
            model_identifier: copy_string(&cfg.model_identifier),
            fallback_models: copy_strings(&cfg.fallback_models),
            timeout_secs: cfg.timeout_secs,
        }
    }
}

/// The provider that summarizes: OpenRouter when the endpoint is
/// OpenRouter's, the local model when there is no API key, else the cloud
/// provider with the configured model.
pub fn build_provider(cfg: &CompactionConfig) -> (r: AiProvider)
    ensures
        contains(cfg.base_url@, "openrouter.ai"@) ==> (r matches AiProvider::OpenRouter(p) && p.api_key_view()
            == cfg.api_key@ && p.base_url_view() == cfg.base_url@ && p.model_view() == Some(
            cfg.model_identifier@,
        ) && p.fallback_view() == strings_view(cfg.fallback_models@) && p.timeout_view()
            == cfg.timeout_secs),
        !contains(cfg.base_url@, "openrouter.ai"@) && cfg.api_key@.len() == 0 ==> (r matches AiProvider::Local(
            p,
        ) && p.model_path()@ == Seq::<char>::empty()),
        !contains(cfg.base_url@, "openrouter.ai"@) && cfg.api_key@.len() > 0 ==> (r matches AiProvider::Claude(
            p,
        ) && p.api_key_view() == cfg.api_key@ && p.model_view() == Some(cfg.model_identifier@)
            && p.timeout_view() == cfg.timeout_secs),
{
    if find_chars(&chars_of(cfg.base_url.as_str()), &chars_of("openrouter.ai")).is_some() {
        AiProvider::OpenRouter(
            OpenRouterProvider::with_model(
                copy_string(&cfg.api_key),
                copy_string(&cfg.base_url),
                copy_string(&cfg.model_identifier),
                copy_strings(&cfg.fallback_models),
                cfg.timeout_secs,
            ),
        )
    } else if chars_of(cfg.api_key.as_str()).len() == 0 {
        AiProvider::Local(LocalProvider::new(String::new()))
    } else {
        AiProvider::Claude(
            ClaudeProvider::with_model(
                copy_string(&cfg.api_key),
                copy_string(&cfg.model_identifier),
                cfg.timeout_secs,
            ),
        )
    }
}

/// The provider a conversation runs on: the local model (stored at
/// `local_model_path`) for a local agent, OpenRouter when the endpoint is
/// OpenRouter's, else the cloud provider, each with the agent's model.
pub fn conversation_provider(cfg: &AgentConfig, local_model_path: String) -> (r: AiProvider)
    ensures
        cfg.is_local ==> (r matches AiProvider::Local(p) && p.model_path()@ == local_model_path@),
        !cfg.is_local && contains(cfg.base_url@, "openrouter.ai"@) ==> (r matches AiProvider::OpenRouter(p)
            && p.api_key_view() == cfg.api_key@ && p.base_url_view() == cfg.base_url@ && p.model_view() == Some(
            cfg.model_identifier@,
        ) && p.fallback_view() == strings_view(cfg.fallback_models@) && p.timeout_view() == cfg.timeout_secs),
        !cfg.is_local && !contains(cfg.base_url@, "openrouter.ai"@) ==> (r matches AiProvider::Claude(p)
            && p.api_key_view() == cfg.api_key@ && p.model_view() == Some(cfg.model_identifier@)
            && p.timeout_view() == cfg.timeout_secs),
{
    if cfg.is_local {
        AiProvider::Local(LocalProvider::new(local_model_path))
    } else if find_chars(&chars_of(cfg.base_url.as_str()), &chars_of("openrouter.ai")).is_some() {
        AiProvider::OpenRouter(
            OpenRouterProvider::with_model(
                copy_string(&cfg.api_key),
                copy_string(&cfg.base_url),
                copy_string(&cfg.model_identifier),
                copy_strings(&cfg.fallback_models),
                cfg.timeout_secs,
            ),
        )
    } else {
        AiProvider::Claude(
            ClaudeProvider::with_model(copy_string(&cfg.api_key), copy_string(&cfg.model_identifier), cfg.timeout_secs),
        )
    }
}

// ---------------------------------------------------------------------------
// What is compacted, and the request that summarizes it
// ---------------------------------------------------------------------------

/// The most recent messages kept as they are.
pub const TAIL_SIZE: usize = 10;

/// What the summarizing model is asked, before the conversation.
pub const SUMMARY_PROMPT_HEAD: &'static str = "Create a compact summary of this conversation preserving: the user's goals, decisions made, important technical context, and relevant IRIs/entities mentioned. Write densely and factually, without introduction or conclusion.\n\nCONVERSATION:\n";

/// The error when the summary comes back empty.
pub const EMPTY_SUMMARY_ERROR: &'static str = "Model returned empty summary";

/// The messages that take part in compaction: not earlier summaries, not
/// messages made up for the model.
pub open spec fn compactable(ms: Seq<AIConversationMessage>) -> Seq<AIConversationMessage>
    decreases ms.len(),
{
    if ms.len() == 0 {
        Seq::empty()
    } else if ms.last().role@ != "compaction"@ && !starts_with(ms.last().iri@, "synthetic:"@) {
        compactable(ms.drop_last()).push(ms.last())
    } else {
        compactable(ms.drop_last())
    }
}

/// A message as a line of the conversation to summarize: its role in
/// brackets, then its texts joined by spaces.
pub open spec fn summary_line(m: AIConversationMessage) -> Seq<char> {
    "["@ + m.role@ + "]: "@ + join(texts(stored_blocks_view(m.content@)), " "@)
}

/// A line made only of brackets, spaces and colons says nothing.
pub open spec fn is_filler(c: char) -> bool {
    c == '[' || c == ']' || c == ' ' || c == ':'
}

pub open spec fn says_something(line: Seq<char>) -> bool {
    exists|i: int| 0 <= i < line.len() && !is_filler(#[trigger] line[i])
}

/// The lines of the messages that say something, in order.
pub open spec fn summary_lines(ms: Seq<AIConversationMessage>) -> Seq<Seq<char>>
    decreases ms.len(),
{
    if ms.len() == 0 {
        Seq::empty()
    } else if says_something(summary_line(ms.last())) {
        summary_lines(ms.drop_last()).push(summary_line(ms.last()))
    } else {
        summary_lines(ms.drop_last())
    }
}

/// What a compaction does with a history: with more than [`TAIL_SIZE`]
/// messages taking part, all but the last [`TAIL_SIZE`] are summarized,
/// up to the last of them; nothing when there are too few, or when their
/// text is only whitespace. The plan is the message summarized up to, and
/// the prompt.
pub open spec fn compaction_plan_spec(history: Seq<AIConversationMessage>) -> Option<(Seq<char>, Seq<char>)> {
    let normal = compactable(history);
    if normal.len() <= TAIL_SIZE {
        None
    } else {
        let to_compact = normal.take(normal.len() - TAIL_SIZE);
        let text = join(summary_lines(to_compact), "\n"@);
        if trim(text).len() == 0 {
            None
        } else {
            Some((to_compact.last().iri@, SUMMARY_PROMPT_HEAD@ + text))
        }
    }
}

fn says_something_of(line: &Vec<char>) -> (r: bool)
    ensures
        r == says_something(line@),
{
    let mut i: usize = 0;
    while i < line.len()
        invariant
            i <= line@.len(),
            forall|k: int| 0 <= k < i ==> is_filler(#[trigger] line@[k]),
        decreases line.len() - i,
    {
        let c = line[i];
        if !(c == '[' || c == ']' || c == ' ' || c == ':') {
            return true;
        }
        i = i + 1;
    }
    false
}

fn summary_line_of(m: &AIConversationMessage) -> (r: String)
    ensures
        r@ == summary_line(*m),
{
    let ts = crate::chat_display::texts_of(&m.content);
    let a = str_concat("[", m.role.as_str());
    let b = str_concat(a.as_str(), "]: ");
    str_concat(b.as_str(), join_strings(&ts, " ").as_str())
}

/// What a compaction does with a history (see [`compaction_plan_spec`]):
/// the message summarized up to, and the prompt.
pub fn compaction_plan(history: &[AIConversationMessage]) -> (r: Option<(String, String)>)
    ensures
        match r {
            Some((upto, prompt)) => compaction_plan_spec(history@) == Some((upto@, prompt@)),
            None => compaction_plan_spec(history@) is None,
        },
{
    let ghost hv = history@;
    let mut normal: Vec<&AIConversationMessage> = Vec::new();
    let mut i: usize = 0;
    assert(normal@.map_values(|m: &AIConversationMessage| *m) =~= compactable(hv.take(0)));
    while i < history.len()
        invariant
            i <= hv.len(),
            hv == history@,
            normal@.map_values(|m: &AIConversationMessage| *m) == compactable(hv.take(i as int)),
        decreases history.len() - i,
    {
        assert(hv.take(i + 1).drop_last() =~= hv.take(i as int));
        assert(hv.take(i + 1).last() == hv[i as int]);
        let m = &history[i];
        let synthetic = starts_with_chars(&chars_of(m.iri.as_str()), &chars_of("synthetic:"));
        if !str_eq(m.role.as_str(), "compaction") && !synthetic {
            let ghost prev = normal@.map_values(|m: &AIConversationMessage| *m);
            normal.push(m);
            assert(normal@.map_values(|m: &AIConversationMessage| *m) =~= prev.push(*m));
        }
        i = i + 1;
    }
    assert(hv.take(i as int) =~= hv);
    let ghost nv = normal@.map_values(|m: &AIConversationMessage| *m);
    if normal.len() <= TAIL_SIZE {
        return None;
    }
    let n = normal.len() - TAIL_SIZE;
    let ghost to_compact = nv.take(n as int);
    let mut lines: Vec<String> = Vec::new();
    let mut k: usize = 0;
    assert(strings_view(lines@) =~= summary_lines(to_compact.take(0)));
    while k < n
        invariant
            k <= n,
            n <= nv.len(),
            nv == normal@.map_values(|m: &AIConversationMessage| *m),
            to_compact == nv.take(n as int),
            strings_view(lines@) == summary_lines(to_compact.take(k as int)),
        decreases n - k,
    {
        assert(to_compact.take(k + 1).drop_last() =~= to_compact.take(k as int));
        assert(to_compact.take(k + 1).last() == nv[k as int]);
        let line = summary_line_of(normal[k]);
        if says_something_of(&chars_of(line.as_str())) {
            let ghost prev = strings_view(lines@);
            let ghost lv = line@;
            lines.push(line);
            assert(strings_view(lines@) =~= prev.push(lv));
        }
        k = k + 1;
    }
    assert(to_compact.take(k as int) =~= to_compact);
    let text = join_strings(&lines, "\n");
    if crate::text::trim_chars(&chars_of(text.as_str())).len() == 0 {
        return None;
    }
    assert(to_compact.last() == nv[n - 1]);
    let upto = copy_string(&normal[n - 1].iri);
    Some((upto, str_concat(SUMMARY_PROMPT_HEAD, text.as_str())))
}

/// The request that summarizes: the prompt as the one user message, at
/// most 2048 tokens out, temperature 0.3, nothing else.
pub fn summary_generate_request(prompt: String) -> (r: GenerateRequest)
    ensures
        r.messages@.len() == 1,
        r.messages@[0]@ == (MessageView { role: "user"@, content: ContentView::Text(prompt@) }),
        r.max_tokens == Some(2048u32),
        r.temperature matches Some(t) && t@ == Json::Number("0.3"@),
        r.system is None && r.blackboard_context is None && r.tools is None && r.thinking is None,
        r.tool_choice is None && !r.supports_web_tools,
{
    let m = ChatMessage { role: to_owned_string("user"), content: MessageContent::Text(prompt) };
    GenerateRequest {
        messages: vec![m],
        max_tokens: Some(2048),
        temperature: Some(JsonValue::Number(to_owned_string("0.3"))),
        system: None,
        blackboard_context: None,
        tools: None,
        supports_web_tools: false,
        thinking: None,
        tool_choice: None,
    }
}

/// The summary a model returned, trimmed; an error when nothing is left.
pub fn summary_of_reply(content: &str) -> (r: Result<String, String>)
    ensures
        match r {
            Ok(t) => t@ == trim(content@) && t@.len() > 0,
            Err(e) => trim(content@).len() == 0 && e@ == EMPTY_SUMMARY_ERROR@,
        },
{
    let t = crate::text::trim_chars(&chars_of(content));
    if t.len() == 0 {
        return Err(to_owned_string(EMPTY_SUMMARY_ERROR));
    }
    Ok(string_of(&t))
}

/// Law: compaction never summarizes the live tail. When a plan is made,
/// more than [`TAIL_SIZE`] messages take part, the plan summarizes up to the
/// message just before the last [`TAIL_SIZE`] of them (so those come after
/// it), and the prompt opens with the summarizing instructions; with
/// [`TAIL_SIZE`] or fewer messages taking part, nothing is planned.
pub proof fn law_compaction_keeps_the_tail(history: Seq<AIConversationMessage>)
    ensures
        compactable(history).len() <= TAIL_SIZE ==> compaction_plan_spec(history) is None,
        compaction_plan_spec(history) matches Some((upto, prompt)) ==> {
            let normal = compactable(history);
            &&& normal.len() > TAIL_SIZE
            &&& upto == normal[normal.len() - TAIL_SIZE - 1].iri@
            &&& starts_with(prompt, SUMMARY_PROMPT_HEAD@)
        },
{
    let normal = compactable(history);
    if normal.len() > TAIL_SIZE {
        let to_compact = normal.take(normal.len() - TAIL_SIZE);
        assert(to_compact.last() == normal[normal.len() - TAIL_SIZE - 1]);
        let text = join(summary_lines(to_compact), "\n"@);
        assert((SUMMARY_PROMPT_HEAD@ + text).subrange(0, SUMMARY_PROMPT_HEAD@.len() as int) =~= SUMMARY_PROMPT_HEAD@);
    }
}

} // verus!
