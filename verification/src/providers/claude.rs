//! The wire format of the Anthropic messages API: request bodies, prompt
//! cache breakpoints, and the reading of replies.
use vstd::prelude::*;
use crate::json::{
    Json, JsonValue, jstr, member, object1, object2, object3, object4, json_view, items_view, entries_view,
    insert_spec, lemma_items_view, lemma_entries_view, object_insert, clone_json,
};
use crate::providers::{
    BlockView, ContentBlock, ContentView, ChatMessage, MessageContent, MessageView, blocks_view, messages_view,
    ToolDefinition, ThinkingConfig, GenerateRequest,
};
use crate::text::{copy_string, to_owned_string};
use crate::tool_calls::usize_to_string;
use crate::number_text::decimal_text;

verus! {

/// A media source as the API takes it (members in key order).
pub open spec fn source_json(source_type: Seq<char>, media_type: Seq<char>, data: Seq<char>) -> Json {
    Json::Object(
        seq![
            ("data"@, Json::Str(data)),
            ("media_type"@, Json::Str(media_type)),
            ("type"@, Json::Str(source_type)),
        ],
    )
}

/// A content block as the API takes it: an object tagged by `type`, the
/// error flag of a tool result left out when unknown.
pub open spec fn block_json(b: BlockView) -> Json {
    match b {
        BlockView::Text(t) => Json::Object(seq![("text"@, Json::Str(t)), ("type"@, Json::Str("text"@))]),
        BlockView::Image(st, mt, d) => Json::Object(
            seq![("source"@, source_json(st, mt, d)), ("type"@, Json::Str("image"@))],
        ),
        BlockView::Document(st, mt, d) => Json::Object(
            seq![("source"@, source_json(st, mt, d)), ("type"@, Json::Str("document"@))],
        ),
        BlockView::ToolUse(id, name, input) => Json::Object(
            seq![
                ("id"@, Json::Str(id)),
                ("input"@, input),
                ("name"@, Json::Str(name)),
                ("type"@, Json::Str("tool_use"@)),
            ],
        ),
        BlockView::ToolResult(id, content, err) => match err {
            Some(e) => Json::Object(
                seq![
                    ("content"@, content),
                    ("is_error"@, Json::Bool(e)),
                    ("tool_use_id"@, Json::Str(id)),
                    ("type"@, Json::Str("tool_result"@)),
                ],
            ),
            None => Json::Object(
                seq![("content"@, content), ("tool_use_id"@, Json::Str(id)), ("type"@, Json::Str("tool_result"@))],
            ),
        },
        BlockView::Thinking(t, sig) => Json::Object(
            seq![("signature"@, Json::Str(sig)), ("thinking"@, Json::Str(t)), ("type"@, Json::Str("thinking"@))],
        ),
        BlockView::RedactedThinking(d) => Json::Object(
            seq![("data"@, Json::Str(d)), ("type"@, Json::Str("redacted_thinking"@))],
        ),
    }
}

/// A message's content as the API takes it: its text, or its blocks.
pub open spec fn content_json(c: ContentView) -> Json {
    match c {
        ContentView::Text(t) => Json::Str(t),
        ContentView::Blocks(bs) => Json::Array(bs.map_values(|b: BlockView| block_json(b))),
    }
}

fn source_to_json(source_type: &String, media_type: &String, data: &String) -> (r: JsonValue)
    ensures
        r@ == source_json(source_type@, media_type@, data@),
{
    object3(
        member("data", JsonValue::Str(copy_string(data))),
        member("media_type", JsonValue::Str(copy_string(media_type))),
        member("type", JsonValue::Str(copy_string(source_type))),
    )
}

/// A content block as the API takes it (see [`block_json`]).
pub fn block_to_json(b: &ContentBlock) -> (r: JsonValue)
    ensures
        r@ == block_json(b@),
{
    match b {
        ContentBlock::Text { text } => object2(member("text", JsonValue::Str(copy_string(text))), member("type", jstr("text"))),
        ContentBlock::Image { source } => object2(
            member("source", source_to_json(&source.source_type, &source.media_type, &source.data)),
            member("type", jstr("image")),
        ),
        ContentBlock::Document { source } => object2(
            member("source", source_to_json(&source.source_type, &source.media_type, &source.data)),
            member("type", jstr("document")),
        ),
        ContentBlock::ToolUse { id, name, input } => object4(
            member("id", JsonValue::Str(copy_string(id))),
            member("input", clone_json(input)),
            member("name", JsonValue::Str(copy_string(name))),
            member("type", jstr("tool_use")),
        ),
        ContentBlock::ToolResult { tool_use_id, content, is_error } => match is_error {
            Some(e) => object4(
                member("content", clone_json(content)),
                member("is_error", JsonValue::Bool(*e)),
                member("tool_use_id", JsonValue::Str(copy_string(tool_use_id))),
                member("type", jstr("tool_result")),
            ),
            None => object3(
                member("content", clone_json(content)),
                member("tool_use_id", JsonValue::Str(copy_string(tool_use_id))),
                member("type", jstr("tool_result")),
            ),
        },
        ContentBlock::Thinking { thinking, signature } => object3(
            member("signature", JsonValue::Str(copy_string(signature))),
            member("thinking", JsonValue::Str(copy_string(thinking))),
            member("type", jstr("thinking")),
        ),
        ContentBlock::RedactedThinking { data } => object2(
            member("data", JsonValue::Str(copy_string(data))),
            member("type", jstr("redacted_thinking")),
        ),
    }
}

/// The blocks as a JSON array (see [`block_json`]).
pub fn blocks_to_json(bs: &Vec<ContentBlock>) -> (r: JsonValue)
    ensures
        r@ == Json::Array(blocks_view(bs@).map_values(|b: BlockView| block_json(b))),
{
    let mut items: Vec<JsonValue> = Vec::new();
    let mut i: usize = 0;
    while i < bs.len()
        invariant
            i <= bs@.len(),
            items@.len() == i,
            forall|k: int| 0 <= k < i ==> #[trigger] json_view(items@[k]) == block_json(bs@[k]@),
        decreases bs.len() - i,
    {
        items.push(block_to_json(&bs[i]));
        i = i + 1;
    }
    proof {
        lemma_items_view(items@);
        assert(items_view(items@) =~= blocks_view(bs@).map_values(|b: BlockView| block_json(b)));
    }
    JsonValue::Array(items)
}

/// A message's content as the API takes it (see [`content_json`]).
pub fn content_to_json(c: &MessageContent) -> (r: JsonValue)
    ensures
        r@ == content_json(c@),
{
    match c {
        MessageContent::Text(t) => JsonValue::Str(copy_string(t)),
        MessageContent::ContentBlocks(bs) => blocks_to_json(bs),
    }
}

/// A message as the API takes it: a role and a content, text or blocks.
#[derive(Debug)]
pub struct ClaudeMessage {
    pub role: String,
    pub content: JsonValue,
}

/// The prompt cache marker.
pub open spec fn ephemeral() -> Json {
    Json::Object(seq![("type"@, Json::Str("ephemeral"@))])
}

fn ephemeral_json() -> (r: JsonValue)
    ensures
        r@ == ephemeral(),
{
    object1(member("type", jstr("ephemeral")))
}

/// A content with a cache breakpoint: on the last block when it is an
/// object; a text becomes one text block that carries it; anything else
/// stays.
pub open spec fn cache_marked(content: Json) -> Json {
    match content {
        Json::Array(items) => if items.len() > 0 && items.last() is Object {
            Json::Array(
                items.update(
                    items.len() - 1,
                    Json::Object(insert_spec(items.last()->Object_0, "cache_control"@, ephemeral())),
                ),
            )
        } else {
            content
        },
        Json::Str(t) => Json::Array(
            seq![
                Json::Object(
                    seq![("cache_control"@, ephemeral()), ("text"@, Json::Str(t)), ("type"@, Json::Str("text"@))],
                ),
            ],
        ),
        _ => content,
    }
}

/// Puts a prompt cache breakpoint on the message (see [`cache_marked`]).
pub fn add_cache_breakpoint(message: &mut ClaudeMessage)
    ensures
        final(message).role == old(message).role,
        final(message).content@ == cache_marked(old(message).content@),
{
    let mut content = JsonValue::Null;
    std::mem::swap(&mut content, &mut message.content);
    let ghost c0 = content@;
    let new_content = match content {
        JsonValue::Array(mut items) => {
            let ghost old_items = items@;
            proof {
                lemma_items_view(old_items);
            }
            let n = items.len();
            if n > 0 {
                let last = items.pop().unwrap();
                match last {
                    JsonValue::Object(mut m) => {
                        object_insert(&mut m, to_owned_string("cache_control"), ephemeral_json());
                        let ghost lv = Json::Object(entries_view(m@));
                        items.push(JsonValue::Object(m));
                        proof {
                            lemma_items_view(items@);
                            assert(items_view(items@) =~= items_view(old_items).update(n - 1, lv));
                        }
                        JsonValue::Array(items)
                    },
                    other => {
                        items.push(other);
                        proof {
                            lemma_items_view(items@);
                            assert(items@ =~= old_items);
                        }
                        JsonValue::Array(items)
                    },
                }
            } else {
                JsonValue::Array(items)
            }
        },
        JsonValue::Str(t) => {
            let block = object3(member("cache_control", ephemeral_json()), member("text", JsonValue::Str(t)), member("type", jstr("text")));
            let v = vec![block];
            proof {
                lemma_items_view(v@);
                assert(items_view(v@) =~= seq![json_view(v@[0])]);
            }
            JsonValue::Array(v)
        },
        other => other,
    };
    message.content = new_content;
}

/// The messages that get a prompt cache breakpoint, out of `n`: with `k`
/// the number of whole twenties below the last message, the messages `20k`
/// and `20(k-1)` (counting from one) when `k >= 2`, the twentieth when
/// `k == 1`. The breakpoints move up twenty messages at a time, so the lower
/// one was written by an earlier request and is read from the cache.
pub open spec fn is_breakpoint(n: int, i: int) -> bool {
    let k = if n == 0 {
        0
    } else {
        (n - 1) / 20
    };
    if k >= 2 {
        i == 20 * k - 1 || i == 20 * (k - 1) - 1
    } else if k == 1 {
        i == 19
    } else {
        false
    }
}

/// The messages as the API takes them, with prompt cache breakpoints (see
/// [`is_breakpoint`] and [`cache_marked`]).
pub fn claude_messages(messages: Vec<ChatMessage>) -> (r: Vec<ClaudeMessage>)
    ensures
        r@.len() == messages@.len(),
        forall|i: int|
            0 <= i < r@.len() ==> {
                &&& (#[trigger] r@[i]).role@ == messages@[i].role@
                &&& r@[i].content@ == if is_breakpoint(messages@.len() as int, i) {
                    cache_marked(content_json(messages@[i].content@))
                } else {
                    content_json(messages@[i].content@)
                }
            },
{
    let n = messages.len();
    let k: usize = if n == 0 {
        0
    } else {
        (n - 1) / 20
    };
    let mut out: Vec<ClaudeMessage> = Vec::new();
    let mut i: usize = 0;
    while i < n
        invariant
            n == messages@.len(),
            i <= n,
            k == (if n == 0 {
                0
            } else {
                (n - 1) / 20
            }),
            out@.len() == i,
            forall|j: int|
                0 <= j < i ==> {
                    &&& (#[trigger] out@[j]).role@ == messages@[j].role@
                    &&& out@[j].content@ == if is_breakpoint(n as int, j) {
                        cache_marked(content_json(messages@[j].content@))
                    } else {
                        content_json(messages@[j].content@)
                    }
                },
        decreases n - i,
    {
        let mut m = ClaudeMessage { role: copy_string(&messages[i].role), content: content_to_json(&messages[i].content) };
        let mark = if k >= 2 {
            i == 20 * k - 1 || i == 20 * (k - 1) - 1
        } else {
            k == 1 && i == 19
        };
        if mark {
            add_cache_breakpoint(&mut m);
        }
        out.push(m);
        i = i + 1;
    }
    out
}

/// A tool as the API takes it.
pub open spec fn tool_json(t: ToolDefinition) -> Json {
    Json::Object(
        seq![
            ("description"@, Json::Str(t.description@)),
            ("input_schema"@, t.input_schema@),
            ("name"@, Json::Str(t.name@)),
        ],
    )
}

/// The provider's web search tool.
pub open spec fn web_search_json() -> Json {
    Json::Object(
        seq![
            ("max_uses"@, Json::Number("5"@)),
            ("name"@, Json::Str("web_search"@)),
            ("type"@, Json::Str("web_search_20260209"@)),
        ],
    )
}

/// The provider's web fetch tool.
pub open spec fn web_fetch_json() -> Json {
    Json::Object(
        seq![
            ("citations"@, Json::Object(seq![("enabled"@, Json::Bool(true))])),
            ("max_content_tokens"@, Json::Number("100000"@)),
            ("max_uses"@, Json::Number("5"@)),
            ("name"@, Json::Str("web_fetch"@)),
            ("type"@, Json::Str("web_fetch_20260209"@)),
        ],
    )
}

/// The items with a prompt cache breakpoint on the last one, when it is an
/// object.
pub open spec fn last_cache_marked(items: Seq<Json>) -> Seq<Json> {
    if items.len() > 0 && items.last() is Object {
        items.update(items.len() - 1, Json::Object(insert_spec(items.last()->Object_0, "cache_control"@, ephemeral())))
    } else {
        items
    }
}

/// The tools of a streaming request: the given ones, then the web tools
/// when the model supports them; the last one carries a cache breakpoint.
pub open spec fn stream_tools_json(tools: Seq<ToolDefinition>, web: bool) -> Seq<Json> {
    last_cache_marked(
        tools.map_values(|t: ToolDefinition| tool_json(t)) + if web {
            seq![web_search_json(), web_fetch_json()]
        } else {
            Seq::empty()
        },
    )
}

/// A tool as the API takes it (see [`tool_json`]).
pub fn tool_to_json(t: &ToolDefinition) -> (r: JsonValue)
    ensures
        r@ == tool_json(*t),
{
    object3(
        member("description", JsonValue::Str(copy_string(&t.description))),
        member("input_schema", clone_json(&t.input_schema)),
        member("name", JsonValue::Str(copy_string(&t.name))),
    )
}

fn number(n: usize) -> (r: JsonValue)
    ensures
        r@ == Json::Number(decimal_text(n as int)),
{
    JsonValue::Number(usize_to_string(n))
}

fn web_search_tool() -> (r: JsonValue)
    ensures
        r@ == web_search_json(),
{
    object3(member("max_uses", JsonValue::Number(to_owned_string("5"))), member("name", jstr("web_search")), member("type", jstr("web_search_20260209")))
}

fn web_fetch_tool() -> (r: JsonValue)
    ensures
        r@ == web_fetch_json(),
{
    let citations = object1(member("enabled", JsonValue::Bool(true)));
    let v = vec![
        member("citations", citations),
        member("max_content_tokens", JsonValue::Number(to_owned_string("100000"))),
        member("max_uses", JsonValue::Number(to_owned_string("5"))),
        member("name", jstr("web_fetch")),
        member("type", jstr("web_fetch_20260209")),
    ];
    proof {
        lemma_entries_view(v@);
        assert(entries_view(v@) =~= web_fetch_json()->Object_0);
    }
    JsonValue::Object(v)
}

fn mark_last(items: &mut Vec<JsonValue>)
    ensures
        items_view(final(items)@) == last_cache_marked(items_view(old(items)@)),
{
    let ghost old_items = items@;
    proof {
        lemma_items_view(old_items);
    }
    let n = items.len();
    if n == 0 {
        return;
    }
    let last = items.pop().unwrap();
    match last {
        JsonValue::Object(mut m) => {
            object_insert(&mut m, to_owned_string("cache_control"), ephemeral_json());
            let ghost lv = Json::Object(entries_view(m@));
            items.push(JsonValue::Object(m));
            proof {
                lemma_items_view(items@);
                assert(items_view(items@) =~= items_view(old_items).update(n - 1, lv));
            }
        },
        other => {
            items.push(other);
            proof {
                lemma_items_view(items@);
                assert(items@ =~= old_items);
            }
        },
    }
}

/// The tools of a streaming request (see [`stream_tools_json`]).
pub fn stream_tools(tools: &Vec<ToolDefinition>, supports_web_tools: bool) -> (r: Vec<JsonValue>)
    ensures
        items_view(r@) == stream_tools_json(tools@, supports_web_tools),
{
    let mut out: Vec<JsonValue> = Vec::new();
    let mut i: usize = 0;
    while i < tools.len()
        invariant
            i <= tools@.len(),
            out@.len() == i,
            forall|k: int| 0 <= k < i ==> #[trigger] json_view(out@[k]) == tool_json(tools@[k]),
        decreases tools.len() - i,
    {
        out.push(tool_to_json(&tools[i]));
        i = i + 1;
    }
    let ghost base = tools@.map_values(|t: ToolDefinition| tool_json(t));
    proof {
        lemma_items_view(out@);
        assert(items_view(out@) =~= base);
    }
    if supports_web_tools {
        out.push(web_search_tool());
        out.push(web_fetch_tool());
        proof {
            lemma_items_view(out@);
            assert(items_view(out@) =~= base + seq![web_search_json(), web_fetch_json()]);
        }
    } else {
        assert(base + Seq::<Json>::empty() =~= base);
    }
    mark_last(&mut out);
    out
}

/// The system prompt as text blocks: the prompt itself, cached, then the
/// context that changes from turn to turn; none when both are absent.
pub open spec fn system_json(system: Option<Seq<char>>, context: Option<Seq<char>>) -> Option<Json> {
    let blocks = (match system {
        Some(s) => seq![
            Json::Object(seq![("cache_control"@, ephemeral()), ("text"@, Json::Str(s)), ("type"@, Json::Str("text"@))]),
        ],
        None => Seq::empty(),
    }) + (match context {
        Some(c) => seq![Json::Object(seq![("text"@, Json::Str(c)), ("type"@, Json::Str("text"@))])],
        None => Seq::empty(),
    });
    if blocks.len() == 0 {
        None
    } else {
        Some(Json::Array(blocks))
    }
}

pub open spec fn opt_view(o: Option<String>) -> Option<Seq<char>> {
    match o {
        Some(s) => Some(s@),
        None => None,
    }
}

/// The system prompt blocks (see [`system_json`]).
pub fn system_blocks(system: Option<String>, context: Option<String>) -> (r: Option<JsonValue>)
    ensures
        match r {
            Some(v) => system_json(opt_view(system), opt_view(context)) == Some(v@),
            None => system_json(opt_view(system), opt_view(context)) is None,
        },
{
    let mut blocks: Vec<JsonValue> = Vec::new();
    let ghost sv = opt_view(system);
    let ghost cv = opt_view(context);
    match system {
        Some(s) => {
            blocks.push(object3(member("cache_control", ephemeral_json()), member("text", JsonValue::Str(s)), member("type", jstr("text"))));
        },
        None => {},
    }
    let ghost first = items_view(blocks@);
    proof {
        lemma_items_view(blocks@);
    }
    match context {
        Some(c) => {
            blocks.push(object2(member("text", JsonValue::Str(c)), member("type", jstr("text"))));
        },
        None => {},
    }
    proof {
        lemma_items_view(blocks@);
        let want = (match sv {
            Some(s) => seq![
                Json::Object(seq![("cache_control"@, ephemeral()), ("text"@, Json::Str(s)), ("type"@, Json::Str("text"@))]),
            ],
            None => Seq::empty(),
        }) + (match cv {
            Some(c) => seq![Json::Object(seq![("text"@, Json::Str(c)), ("type"@, Json::Str("text"@))])],
            None => Seq::empty(),
        });
        assert(items_view(blocks@) =~= want);
    }
    if blocks.len() == 0 {
        None
    } else {
        Some(JsonValue::Array(blocks))
    }
}

/// The error when no model is configured.
pub const NO_MODEL_ERROR: &'static str = "No AI model configured. Please configure a model in Settings.";

/// The maximum of output tokens when the request names none.
pub const DEFAULT_MAX_TOKENS: u32 = 4096;

/// A thinking configuration as the API takes it.
pub open spec fn thinking_json(t: ThinkingConfig) -> Json {
    match t {
        ThinkingConfig::Adaptive => Json::Object(seq![("type"@, Json::Str("adaptive"@))]),
    }
}

/// The messages of a streaming request (see [`claude_messages`]).
pub open spec fn messages_json(ms: Seq<MessageView>) -> Seq<Json> {
    Seq::new(
        ms.len(),
        |i: int|
            Json::Object(
                seq![
                    (
                        "content"@,
                        if is_breakpoint(ms.len() as int, i) {
                            cache_marked(content_json(ms[i].content))
                        } else {
                            content_json(ms[i].content)
                        },
                    ),
                    ("role"@, Json::Str(ms[i].role)),
                ],
            ),
    )
}

/// A member present only when there is a value.
pub open spec fn opt_member(k: Seq<char>, v: Option<Json>) -> Seq<(Seq<char>, Json)> {
    match v {
        Some(x) => seq![(k, x)],
        None => Seq::empty(),
    }
}

pub open spec fn opt_json(v: Option<JsonValue>) -> Option<Json> {
    match v {
        Some(x) => Some(x@),
        None => None,
    }
}

/// The body of a streaming request: the output limit (4096 when the request
/// names none), the messages with their cache breakpoints, the model and
/// `stream`; then, where present, the system blocks, the temperature, the
/// thinking configuration, the tool choice and the tools (members in key
/// order).
pub open spec fn stream_body(req: GenerateRequest, model: Seq<char>) -> Json {
    Json::Object(
        seq![
            (
                "max_tokens"@,
                Json::Number(
                    decimal_text(
                        match req.max_tokens {
                            Some(n) => n as int,
                            None => DEFAULT_MAX_TOKENS as int,
                        },
                    ),
                ),
            ),
            ("messages"@, Json::Array(messages_json(messages_view(req.messages@)))),
            ("model"@, Json::Str(model)),
            ("stream"@, Json::Bool(true)),
        ] + opt_member("system"@, system_json(opt_view(req.system), opt_view(req.blackboard_context))) + opt_member(
            "temperature"@,
            opt_json(req.temperature),
        ) + opt_member(
            "thinking"@,
            match req.thinking {
                Some(t) => Some(thinking_json(t)),
                None => None,
            },
        ) + opt_member("tool_choice"@, opt_json(req.tool_choice)) + opt_member(
            "tools"@,
            match req.tools {
                Some(ts) => Some(Json::Array(stream_tools_json(ts@, req.supports_web_tools))),
                None => None,
            },
        ),
    )
}

fn push_opt(v: &mut Vec<(String, JsonValue)>, k: &str, x: Option<JsonValue>)
    ensures
        entries_view(final(v)@) == entries_view(old(v)@) + opt_member(k@, opt_json(x)),
{
    proof {
        lemma_entries_view(old(v)@);
    }
    match x {
        Some(val) => {
            let ghost xv = val@;
            v.push((to_owned_string(k), val));
            proof {
                lemma_entries_view(v@);
                assert(entries_view(v@) =~= entries_view(old(v)@) + seq![(k@, xv)]);
            }
        },
        None => {
            assert(entries_view(v@) =~= entries_view(old(v)@) + Seq::<(Seq<char>, Json)>::empty());
        },
    }
}

/// The body of a streaming request (see [`stream_body`]); an error when no
/// model is configured.
pub fn claude_stream_body(request: GenerateRequest, model_identifier: Option<String>) -> (r: Result<JsonValue, String>)
    ensures
        match model_identifier {
            Some(m) => r matches Ok(v) && v@ == stream_body(request, m@),
            None => r matches Err(e) && e@ == NO_MODEL_ERROR@,
        },
{
    let ghost req = request;
    let model = match model_identifier {
        Some(m) => m,
        None => {
            return Err(to_owned_string(NO_MODEL_ERROR));
        },
    };
    let GenerateRequest {
        messages,
        max_tokens,
        temperature,
        system,
        blackboard_context,
        tools,
        supports_web_tools,
        thinking,
        tool_choice,
    } = request;
    let ghost mv = messages_view(messages@);
    let cms = claude_messages(messages);
    let mut items: Vec<JsonValue> = Vec::new();
    let mut i: usize = 0;
    while i < cms.len()
        invariant
            i <= cms@.len(),
            cms@.len() == mv.len(),
            mv == messages_view(req.messages@),
            forall|j: int|
                0 <= j < cms@.len() ==> {
                    &&& (#[trigger] cms@[j]).role@ == req.messages@[j].role@
                    &&& cms@[j].content@ == if is_breakpoint(req.messages@.len() as int, j) {
                        cache_marked(content_json(req.messages@[j].content@))
                    } else {
                        content_json(req.messages@[j].content@)
                    }
                },
            items@.len() == i,
            forall|j: int| 0 <= j < i ==> #[trigger] json_view(items@[j]) == messages_json(mv)[j],
        decreases cms.len() - i,
    {
        assert(mv[i as int] == req.messages@[i as int]@);
        items.push(object2(member("content", clone_json(&cms[i].content)), member("role", JsonValue::Str(copy_string(&cms[i].role)))));
        i = i + 1;
    }
    proof {
        lemma_items_view(items@);
        assert(items_view(items@) =~= messages_json(mv));
    }
    let limit: u32 = match max_tokens {
        Some(n) => n,
        None => DEFAULT_MAX_TOKENS,
    };
    let ghost model_v = model@;
    let ghost items_v = items_view(items@);
    let mut body: Vec<(String, JsonValue)> = vec![
        member("max_tokens", number(limit as usize)),
        member("messages", JsonValue::Array(items)),
        member("model", JsonValue::Str(model)),
        member("stream", JsonValue::Bool(true)),
    ];
    proof {
        lemma_entries_view(body@);
        assert(entries_view(body@) =~= seq![
            ("max_tokens"@, Json::Number(decimal_text(limit as int))),
            ("messages"@, Json::Array(items_v)),
            ("model"@, Json::Str(model_v)),
            ("stream"@, Json::Bool(true)),
        ]);
    }
    push_opt(&mut body, "system", system_blocks(system, blackboard_context));
    push_opt(&mut body, "temperature", temperature);
    let thinking_value = match thinking {
        Some(ThinkingConfig::Adaptive) => Some(object1(member("type", jstr("adaptive")))),
        None => None,
    };
    push_opt(&mut body, "thinking", thinking_value);
    push_opt(&mut body, "tool_choice", tool_choice);
    let tools_value = match tools {
        Some(ts) => Some(JsonValue::Array(stream_tools(&ts, supports_web_tools))),
        None => None,
    };
    push_opt(&mut body, "tools", tools_value);
    assert(entries_view(body@) =~= stream_body(req, model_v)->Object_0);
    Ok(JsonValue::Object(body))
}

/// The beta features a streaming request asks for: prompt caching, and the
/// web tools when the model supports them.
pub fn beta_header(supports_web_tools: bool) -> (r: &'static str)
    ensures
        r@ == (if supports_web_tools {
            "prompt-caching-2024-07-31,code-execution-web-tools-2026-02-09"@
        } else {
            "prompt-caching-2024-07-31"@
        }),
{
    if supports_web_tools {
        "prompt-caching-2024-07-31,code-execution-web-tools-2026-02-09"
    } else {
        "prompt-caching-2024-07-31"
    }
}

/// The error when no model is configured, for a request that does not
/// stream.
pub const NO_MODEL_PLAIN_ERROR: &'static str = "No AI model configured";

/// The messages of a request that does not stream: role and content, with
/// no cache breakpoints.
pub open spec fn plain_messages_json(ms: Seq<MessageView>) -> Seq<Json> {
    ms.map_values(
        |m: MessageView| Json::Object(seq![("content"@, content_json(m.content)), ("role"@, Json::Str(m.role))]),
    )
}

/// The body of a request that does not stream: the output limit (4096 when
/// the request names none), the messages, the model; then, where present,
/// the system prompt as one cached block, the temperature, the tool choice
/// and the tools. No thinking, no context blocks and no web tools.
pub open spec fn plain_body(req: GenerateRequest, model: Seq<char>) -> Json {
    Json::Object(
        seq![
            (
                "max_tokens"@,
                Json::Number(
                    decimal_text(
                        match req.max_tokens {
                            Some(n) => n as int,
                            None => DEFAULT_MAX_TOKENS as int,
                        },
                    ),
                ),
            ),
            ("messages"@, Json::Array(plain_messages_json(messages_view(req.messages@)))),
            ("model"@, Json::Str(model)),
        ] + opt_member("system"@, system_json(opt_view(req.system), None)) + opt_member(
            "temperature"@,
            opt_json(req.temperature),
        ) + opt_member("tool_choice"@, opt_json(req.tool_choice)) + opt_member(
            "tools"@,
            match req.tools {
                Some(ts) => Some(Json::Array(ts@.map_values(|t: ToolDefinition| tool_json(t)))),
                None => None,
            },
        ),
    )
}

fn plain_messages(messages: &Vec<ChatMessage>) -> (r: Vec<JsonValue>)
    ensures
        items_view(r@) == plain_messages_json(messages_view(messages@)),
{
    let ghost mv = messages_view(messages@);
    let mut items: Vec<JsonValue> = Vec::new();
    let mut i: usize = 0;
    while i < messages.len()
        invariant
            i <= messages@.len(),
            mv == messages_view(messages@),
            items@.len() == i,
            forall|j: int| 0 <= j < i ==> #[trigger] json_view(items@[j]) == plain_messages_json(mv)[j],
        decreases messages.len() - i,
    {
        assert(mv[i as int] == messages@[i as int]@);
        items.push(
            object2(
                member("content", content_to_json(&messages[i].content)),
                member("role", JsonValue::Str(copy_string(&messages[i].role))),
            ),
        );
        i = i + 1;
    }
    proof {
        lemma_items_view(items@);
    }
    assert(items_view(items@) =~= plain_messages_json(mv));
    items
}

fn plain_tools(tools: &Vec<ToolDefinition>) -> (r: Vec<JsonValue>)
    ensures
        items_view(r@) == tools@.map_values(|t: ToolDefinition| tool_json(t)),
{
    let mut out: Vec<JsonValue> = Vec::new();
    let mut i: usize = 0;
    while i < tools.len()
        invariant
            i <= tools@.len(),
            out@.len() == i,
            forall|j: int| 0 <= j < i ==> #[trigger] json_view(out@[j]) == tool_json(tools@[j]),
        decreases tools.len() - i,
    {
        out.push(tool_to_json(&tools[i]));
        i = i + 1;
    }
    proof {
        lemma_items_view(out@);
    }
    assert(items_view(out@) =~= tools@.map_values(|t: ToolDefinition| tool_json(t)));
    out
}

/// The body of a request that does not stream (see [`plain_body`]); an
/// error when no model is configured.
pub fn claude_plain_body(request: GenerateRequest, model_identifier: Option<String>) -> (r: Result<JsonValue, String>)
    ensures
        match model_identifier {
            Some(m) => r matches Ok(v) && v@ == plain_body(request, m@),
            None => r matches Err(e) && e@ == NO_MODEL_PLAIN_ERROR@,
        },
{
    let ghost req = request;
    let items = plain_messages(&request.messages);
    let model = match model_identifier {
        Some(m) => m,
        None => {
            return Err(to_owned_string(NO_MODEL_PLAIN_ERROR));
        },
    };
    let GenerateRequest { messages, max_tokens, temperature, system, tools, tool_choice, .. } = request;
    let limit: u32 = match max_tokens {
        Some(n) => n,
        None => DEFAULT_MAX_TOKENS,
    };
    let ghost model_v = model@;
    let ghost items_v = items_view(items@);
    let mut body: Vec<(String, JsonValue)> = vec![
        member("max_tokens", number(limit as usize)),
        member("messages", JsonValue::Array(items)),
        member("model", JsonValue::Str(model)),
    ];
    proof {
        lemma_entries_view(body@);
        assert(entries_view(body@) =~= seq![
            ("max_tokens"@, Json::Number(decimal_text(limit as int))),
            ("messages"@, Json::Array(items_v)),
            ("model"@, Json::Str(model_v)),
        ]);
    }
    push_opt(&mut body, "system", system_blocks(system, None));
    push_opt(&mut body, "temperature", temperature);
    push_opt(&mut body, "tool_choice", tool_choice);
    let tools_value = match tools {
        Some(ts) => Some(JsonValue::Array(plain_tools(&ts))),
        None => None,
    };
    push_opt(&mut body, "tools", tools_value);
    assert(entries_view(body@) =~= plain_body(req, model_v)->Object_0);
    Ok(JsonValue::Object(body))
}

pub const STATUS_ERROR_HEAD: &'static str = "API request failed with status ";

/// The error for a reply with a failure status: the status (code and
/// reason) and the body of the reply.
pub fn api_status_error(status_text: &str, body: &str) -> (r: String)
    ensures
        r@ == STATUS_ERROR_HEAD@ + status_text@ + ": "@ + body@,
{
    let a = crate::text::str_concat(STATUS_ERROR_HEAD, status_text);
    let b = crate::text::str_concat(a.as_str(), ": ");
    crate::text::str_concat(b.as_str(), body)
}

/// The prompt cache breakpoints of a conversation of `n` messages leave
/// the latest messages fresh: each falls on a message whose position is a
/// multiple of twenty (index `20k - 1`) before the last message; there are
/// at most two; and once there are more than twenty messages, the highest
/// one leaves between one and twenty messages after it.
pub proof fn law_breakpoints_leave_recent_fresh(n: int, i: int, j: int, k: int)
    requires
        n >= 0,
    ensures
        is_breakpoint(n, i) ==> 0 <= i <= n - 2 && (i + 1) % 20 == 0,
        is_breakpoint(n, i) && is_breakpoint(n, j) && is_breakpoint(n, k) ==> i == j || j == k || i == k,
        n <= 20 ==> !is_breakpoint(n, i),
        n > 20 ==> is_breakpoint(n, 20 * ((n - 1) / 20) - 1) && 1 <= n - 20 * ((n - 1) / 20) <= 20,
        n > 20 && is_breakpoint(n, i) ==> i <= 20 * ((n - 1) / 20) - 1,
{
}

} // verus!
