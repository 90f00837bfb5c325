//! The wire format of the OpenAI-compatible chat completions API that
//! OpenRouter exposes: messages, tools, request bodies, the reading of
//! replies and of errors.
use vstd::prelude::*;
use crate::json::{
    Json, JsonValue, jstr, member, object1, object2, object3, json_view, items_view, entries_view, json_text,
    json_to_string, insert_spec, member_get, member_index, lemma_items_view, lemma_entries_view, object_insert,
    clone_json, find_member, lemma_member_index_bounds,
};
use crate::providers::{
    BlockView, ContentBlock, ContentView, ChatMessage, MessageContent, MessageView, ClaudeTool, ToolDefinition,
    blocks_view, messages_view, GenerateRequest,
};
use crate::number_text::decimal_text;
use crate::tool_calls::usize_to_string;
use crate::providers::claude::{
    block_json, blocks_to_json, last_cache_marked, ephemeral, opt_view, opt_json, opt_member, DEFAULT_MAX_TOKENS,
    NO_MODEL_ERROR, NO_MODEL_PLAIN_ERROR,
};
use crate::text::{
    copy_string, to_owned_string, str_eq, str_concat, strings_view, join, join_strings, contains, find_chars, chars_of,
};
use crate::json::{json_parse, parse_json};
use crate::providers::claude_stream::{index_spec, index_of};

verus! {

/// The system prompt and the turn's context, joined by a blank line, as a
/// system message; none when both are absent.
pub open spec fn system_message(system: Option<Seq<char>>, context: Option<Seq<char>>) -> Seq<Json> {
    let parts = (match system {
        Some(s) => seq![s],
        None => Seq::empty(),
    }) + (match context {
        Some(c) => seq![c],
        None => Seq::empty(),
    });
    if parts.len() == 0 {
        Seq::empty()
    } else {
        seq![Json::Object(seq![("content"@, Json::Str(join(parts, "\n\n"@))), ("role"@, Json::Str("system"@))])]
    }
}

/// A tool result as the text of a `tool` message: a string as it is, any
/// other value as its JSON text.
pub open spec fn result_text(content: Json) -> Seq<char> {
    match content {
        Json::Str(s) => s,
        _ => json_text(content),
    }
}

/// The `tool` messages for the tool results among the blocks, in order.
pub open spec fn tool_messages(bs: Seq<BlockView>) -> Seq<Json>
    decreases bs.len(),
{
    if bs.len() == 0 {
        Seq::empty()
    } else {
        match bs.last() {
            BlockView::ToolResult(id, content, _) => tool_messages(bs.drop_last()).push(
                Json::Object(
                    seq![
                        ("content"@, Json::Str(result_text(content))),
                        ("role"@, Json::Str("tool"@)),
                        ("tool_call_id"@, Json::Str(id)),
                    ],
                ),
            ),
            _ => tool_messages(bs.drop_last()),
        }
    }
}

/// The texts of the text blocks, in order.
pub open spec fn block_texts(bs: Seq<BlockView>) -> Seq<Seq<char>>
    decreases bs.len(),
{
    if bs.len() == 0 {
        Seq::empty()
    } else {
        match bs.last() {
            BlockView::Text(t) => block_texts(bs.drop_last()).push(t),
            _ => block_texts(bs.drop_last()),
        }
    }
}

/// A text part of a user message.
pub open spec fn text_part(t: Seq<char>) -> Json {
    Json::Object(seq![("text"@, Json::Str(t)), ("type"@, Json::Str("text"@))])
}

/// A user message with blocks: a `tool` message for each tool result, then
/// the texts as one user message (the text itself when there is one, the
/// list of text parts when there are more).
pub open spec fn user_messages(bs: Seq<BlockView>) -> Seq<Json> {
    let texts = block_texts(bs);
    tool_messages(bs) + if texts.len() == 0 {
        Seq::empty()
    } else {
        seq![
            Json::Object(
                seq![
                    (
                        "content"@,
                        if texts.len() == 1 {
                            Json::Str(texts[0])
                        } else {
                            Json::Array(texts.map_values(|t: Seq<char>| text_part(t)))
                        },
                    ),
                    ("role"@, Json::Str("user"@)),
                ],
            ),
        ]
    }
}

/// A call as a function call: id, name and arguments as JSON text.
pub open spec fn function_call(id: Seq<char>, name: Seq<char>, input: Json) -> Json {
    Json::Object(
        seq![
            (
                "function"@,
                Json::Object(seq![("arguments"@, Json::Str(json_text(input))), ("name"@, Json::Str(name))]),
            ),
            ("id"@, Json::Str(id)),
            ("type"@, Json::Str("function"@)),
        ],
    )
}

/// The calls among the blocks as function calls, in order.
pub open spec fn function_calls(bs: Seq<BlockView>) -> Seq<Json>
    decreases bs.len(),
{
    if bs.len() == 0 {
        Seq::empty()
    } else {
        match bs.last() {
            BlockView::ToolUse(id, name, input) => function_calls(bs.drop_last()).push(function_call(id, name, input)),
            _ => function_calls(bs.drop_last()),
        }
    }
}

/// An assistant message with blocks: its texts joined by new lines (an empty
/// text when it only calls tools, null when it has neither) and its calls.
pub open spec fn assistant_message(bs: Seq<BlockView>) -> Json {
    let texts = block_texts(bs);
    let calls = function_calls(bs);
    Json::Object(
        seq![
            (
                "content"@,
                if texts.len() > 0 {
                    Json::Str(join(texts, "\n"@))
                } else if calls.len() > 0 {
                    Json::Str(Seq::empty())
                } else {
                    Json::Null
                },
            ),
            ("role"@, Json::Str("assistant"@)),
        ] + if calls.len() > 0 {
            seq![("tool_calls"@, Json::Array(calls))]
        } else {
            Seq::empty()
        },
    )
}

/// The messages that one message becomes.
pub open spec fn openai_message(m: MessageView) -> Seq<Json> {
    match m.content {
        ContentView::Text(t) => seq![Json::Object(seq![("content"@, Json::Str(t)), ("role"@, Json::Str(m.role))])],
        ContentView::Blocks(bs) => if m.role == "user"@ {
            user_messages(bs)
        } else if m.role == "assistant"@ {
            seq![assistant_message(bs)]
        } else {
            seq![
                Json::Object(
                    seq![
                        ("content"@, Json::Array(bs.map_values(|b: BlockView| block_json(b)))),
                        ("role"@, Json::Str(m.role)),
                    ],
                ),
            ]
        },
    }
}

/// The messages of a conversation, in order.
pub open spec fn openai_messages_of(ms: Seq<MessageView>) -> Seq<Json>
    decreases ms.len(),
{
    if ms.len() == 0 {
        Seq::empty()
    } else {
        openai_messages_of(ms.drop_last()) + openai_message(ms.last())
    }
}

/// The chat messages of a request: the system message, then each message
/// as it becomes one or more.
pub open spec fn openai_messages(system: Option<Seq<char>>, context: Option<Seq<char>>, ms: Seq<MessageView>) -> Seq<
    Json,
> {
    system_message(system, context) + openai_messages_of(ms)
}

fn result_text_of(content: &JsonValue) -> (r: String)
    ensures
        r@ == result_text(content@),
{
    match content {
        JsonValue::Str(s) => copy_string(s),
        _ => json_to_string(content),
    }
}

fn push_json(out: &mut Vec<JsonValue>, v: JsonValue)
    ensures
        items_view(final(out)@) == items_view(old(out)@).push(v@),
{
    proof {
        lemma_items_view(old(out)@);
    }
    out.push(v);
    proof {
        lemma_items_view(out@);
        assert(items_view(out@) =~= items_view(old(out)@).push(v@));
    }
}

fn user_messages_of(bs: &Vec<ContentBlock>, out: &mut Vec<JsonValue>)
    ensures
        items_view(final(out)@) == items_view(old(out)@) + user_messages(blocks_view(bs@)),
{
    let ghost bv = blocks_view(bs@);
    let ghost start = items_view(out@);
    let mut texts: Vec<String> = Vec::new();
    let mut i: usize = 0;
    assert(start + tool_messages(bv.take(0)) =~= start);
    while i < bs.len()
        invariant
            i <= bs@.len(),
            bv == blocks_view(bs@),
            items_view(out@) == start + tool_messages(bv.take(i as int)),
            strings_view(texts@) == block_texts(bv.take(i as int)),
        decreases bs.len() - i,
    {
        assert(bv.take(i + 1).drop_last() =~= bv.take(i as int));
        assert(bv.take(i + 1).last() == bs@[i as int]@);
        match &bs[i] {
            ContentBlock::ToolResult { tool_use_id, content, .. } => {
                let m = object3(
                    member("content", JsonValue::Str(result_text_of(content))),
                    member("role", jstr("tool")),
                    member("tool_call_id", JsonValue::Str(copy_string(tool_use_id))),
                );
                let ghost mv = m@;
                push_json(out, m);
                assert(start + tool_messages(bv.take(i + 1)) =~= start + tool_messages(bv.take(i as int)).push(mv));
            },
            ContentBlock::Text { text } => {
                let ghost prev = strings_view(texts@);
                texts.push(copy_string(text));
                assert(strings_view(texts@) =~= prev.push(text@));
            },
            _ => {},
        }
        i = i + 1;
    }
    assert(bv.take(bv.len() as int) =~= bv);
    let ghost tv = strings_view(texts@);
    let ghost mid = items_view(out@);
    if texts.len() == 0 {
        assert(mid + Seq::<Json>::empty() =~= mid);
    } else {
        let content = if texts.len() == 1 {
            JsonValue::Str(copy_string(&texts[0]))
        } else {
            let mut parts: Vec<JsonValue> = Vec::new();
            let mut k: usize = 0;
            while k < texts.len()
                invariant
                    k <= texts@.len(),
                    tv == strings_view(texts@),
                    parts@.len() == k,
                    forall|j: int| 0 <= j < k ==> #[trigger] json_view(parts@[j]) == text_part(tv[j]),
                decreases texts.len() - k,
            {
                parts.push(object2(member("text", JsonValue::Str(copy_string(&texts[k]))), member("type", jstr("text"))));
                k = k + 1;
            }
            proof {
                lemma_items_view(parts@);
                assert(items_view(parts@) =~= tv.map_values(|t: Seq<char>| text_part(t)));
            }
            JsonValue::Array(parts)
        };
        let m = object2(member("content", content), member("role", jstr("user")));
        let ghost mv = m@;
        push_json(out, m);
        assert(items_view(out@) =~= start + user_messages(bv));
    }
}

fn assistant_message_of(bs: &Vec<ContentBlock>) -> (r: JsonValue)
    ensures
        r@ == assistant_message(blocks_view(bs@)),
{
    let ghost bv = blocks_view(bs@);
    let mut texts: Vec<String> = Vec::new();
    let mut calls: Vec<JsonValue> = Vec::new();
    let mut i: usize = 0;
    assert(items_view(calls@) =~= function_calls(bv.take(0))) by {
        lemma_items_view(calls@);
    }
    while i < bs.len()
        invariant
            i <= bs@.len(),
            bv == blocks_view(bs@),
            strings_view(texts@) == block_texts(bv.take(i as int)),
            items_view(calls@) == function_calls(bv.take(i as int)),
        decreases bs.len() - i,
    {
        assert(bv.take(i + 1).drop_last() =~= bv.take(i as int));
        assert(bv.take(i + 1).last() == bs@[i as int]@);
        match &bs[i] {
            ContentBlock::Text { text } => {
                let ghost prev = strings_view(texts@);
                texts.push(copy_string(text));
                assert(strings_view(texts@) =~= prev.push(text@));
            },
            ContentBlock::ToolUse { id, name, input } => {
                let f = object2(member("arguments", JsonValue::Str(json_to_string(input))), member("name", JsonValue::Str(copy_string(name))));
                let c = object3(member("function", f), member("id", JsonValue::Str(copy_string(id))), member("type", jstr("function")));
                push_json(&mut calls, c);
            },
            _ => {},
        }
        i = i + 1;
    }
    assert(bv.take(bv.len() as int) =~= bv);
    let content = if texts.len() > 0 {
        JsonValue::Str(join_strings(&texts, "\n"))
    } else if calls.len() > 0 {
        proof {
            reveal_strlit("");
        }
        let e = jstr("");
        assert(""@ =~= Seq::<char>::empty());
        e
    } else {
        JsonValue::Null
    };
    let ghost cv = items_view(calls@);
    let ghost content_v = content@;
    let ghost texts_v = block_texts(bv);
    assert(content_v == (if texts_v.len() > 0 {
        Json::Str(join(texts_v, "\n"@))
    } else if cv.len() > 0 {
        Json::Str(Seq::empty())
    } else {
        Json::Null
    }));
    proof {
        lemma_items_view(calls@);
    }
    let mut v = vec![member("content", content), member("role", jstr("assistant"))];
    proof {
        lemma_entries_view(v@);
        assert(entries_view(v@) =~= seq![("content"@, content_v), ("role"@, Json::Str("assistant"@))]);
    }
    let ghost base = entries_view(v@);
    if calls.len() > 0 {
        v.push(member("tool_calls", JsonValue::Array(calls)));
        proof {
            lemma_entries_view(v@);
            assert(entries_view(v@) =~= base + seq![("tool_calls"@, Json::Array(cv))]);
        }
    } else {
        assert(base + Seq::<(Seq<char>, Json)>::empty() =~= base);
    }
    JsonValue::Object(v)
}

/// The chat messages of a request (see [`openai_messages`]).
pub fn build_openai_messages(system: Option<String>, blackboard_context: Option<String>, messages: Vec<ChatMessage>) -> (r:
    Vec<JsonValue>)
    ensures
        items_view(r@) == openai_messages(
            crate::providers::claude::opt_view(system),
            crate::providers::claude::opt_view(blackboard_context),
            messages_view(messages@),
        ),
{
    let ghost sv = crate::providers::claude::opt_view(system);
    let ghost cv = crate::providers::claude::opt_view(blackboard_context);
    let mut out: Vec<JsonValue> = Vec::new();
    let mut parts: Vec<String> = Vec::new();
    match system {
        Some(s) => parts.push(s),
        None => {},
    }
    match blackboard_context {
        Some(c) => parts.push(c),
        None => {},
    }
    let ghost pv = (match sv {
        Some(s) => seq![s],
        None => Seq::empty(),
    }) + (match cv {
        Some(c) => seq![c],
        None => Seq::empty(),
    });
    assert(strings_view(parts@) =~= pv);
    if parts.len() > 0 {
        let m = object2(member("content", JsonValue::Str(join_strings(&parts, "\n\n"))), member("role", jstr("system")));
        push_json(&mut out, m);
    }
    proof {
        lemma_items_view(out@);
        assert(items_view(out@) =~= system_message(sv, cv));
    }
    let ghost mv = messages_view(messages@);
    let ghost head = items_view(out@);
    let mut i: usize = 0;
    assert(head + openai_messages_of(mv.take(0)) =~= head);
    while i < messages.len()
        invariant
            i <= messages@.len(),
            mv == messages_view(messages@),
            items_view(out@) == head + openai_messages_of(mv.take(i as int)),
        decreases messages.len() - i,
    {
        assert(mv.take(i + 1).drop_last() =~= mv.take(i as int));
        assert(mv.take(i + 1).last() == messages@[i as int]@);
        let ghost before = items_view(out@);
        let m = &messages[i];
        match &m.content {
            MessageContent::Text(t) => {
                push_json(&mut out, object2(member("content", JsonValue::Str(copy_string(t))), member("role", JsonValue::Str(copy_string(&m.role)))));
            },
            MessageContent::ContentBlocks(bs) => {
                if str_eq(m.role.as_str(), "user") {
                    user_messages_of(bs, &mut out);
                } else if str_eq(m.role.as_str(), "assistant") {
                    push_json(&mut out, assistant_message_of(bs));
                } else {
                    push_json(&mut out, object2(member("content", blocks_to_json(bs)), member("role", JsonValue::Str(copy_string(&m.role)))));
                }
            },
        }
        assert(items_view(out@) =~= before + openai_message(messages@[i as int]@));
        i = i + 1;
    }
    assert(mv.take(mv.len() as int) =~= mv);
    out
}

/// A tool as a function the model may call.
pub open spec fn openai_tool(t: ClaudeTool) -> Json {
    Json::Object(
        seq![
            (
                "function"@,
                Json::Object(
                    seq![
                        ("description"@, Json::Str(t.description@)),
                        ("name"@, Json::Str(t.name@)),
                        ("parameters"@, t.input_schema@),
                    ],
                ),
            ),
            ("type"@, Json::Str("function"@)),
        ],
    )
}

/// The tools as functions the model may call, in order.
pub fn build_openai_tools(tools: &[ClaudeTool]) -> (r: Vec<JsonValue>)
    ensures
        items_view(r@) == tools@.map_values(|t: ClaudeTool| openai_tool(t)),
{
    let mut out: Vec<JsonValue> = Vec::new();
    let mut i: usize = 0;
    while i < tools.len()
        invariant
            i <= tools@.len(),
            out@.len() == i,
            forall|k: int| 0 <= k < i ==> #[trigger] json_view(out@[k]) == openai_tool(tools@[k]),
        decreases tools.len() - i,
    {
        let t = &tools[i];
        let f = object3(
            member("description", JsonValue::Str(copy_string(&t.description))),
            member("name", JsonValue::Str(copy_string(&t.name))),
            member("parameters", clone_json(&t.input_schema)),
        );
        out.push(object2(member("function", f), member("type", jstr("function"))));
        i = i + 1;
    }
    proof {
        lemma_items_view(out@);
        assert(items_view(out@) =~= tools@.map_values(|t: ClaudeTool| openai_tool(t)));
    }
    out
}

/// The members with the value of `k` replaced where it is, or the member
/// added in key order when there is none.
pub open spec fn set_member(m: Seq<(Seq<char>, Json)>, k: Seq<char>, v: Json) -> Seq<(Seq<char>, Json)> {
    match member_index(m, k) {
        Some(i) => m.update(i, (k, v)),
        None => insert_spec(m, k, v),
    }
}

/// A message with a prompt cache breakpoint: a text content becomes one
/// text block that carries it; a list of blocks gets it on its last block
/// when that is an object. Anything else stays.
pub open spec fn openrouter_cache_marked(message: Json) -> Json {
    match message {
        Json::Object(m) => match member_get(m, "content"@) {
            Some(Json::Str(s)) => Json::Object(
                set_member(
                    m,
                    "content"@,
                    Json::Array(
                        seq![
                            Json::Object(
                                seq![
                                    ("cache_control"@, ephemeral()),
                                    ("text"@, Json::Str(s)),
                                    ("type"@, Json::Str("text"@)),
                                ],
                            ),
                        ],
                    ),
                ),
            ),
            Some(Json::Array(items)) => Json::Object(set_member(m, "content"@, Json::Array(last_cache_marked(items)))),
            _ => message,
        },
        _ => message,
    }
}

fn mark_last_item(items: &mut Vec<JsonValue>)
    ensures
        items_view(final(items)@) == last_cache_marked(items_view(old(items)@)),
{
    let ghost old_items = items@;
    proof {
        lemma_items_view(old_items);
    }
    let n = items.len();
    if n == 0 {
        return;
    }
    let last = items.pop().unwrap();
    match last {
        JsonValue::Object(mut m) => {
            object_insert(&mut m, to_owned_string("cache_control"), object1(member("type", jstr("ephemeral"))));
            let ghost lv = Json::Object(entries_view(m@));
            items.push(JsonValue::Object(m));
            proof {
                lemma_items_view(items@);
                assert(items_view(items@) =~= items_view(old_items).update(n - 1, lv));
            }
        },
        other => {
            items.push(other);
            proof {
                lemma_items_view(items@);
                assert(items@ =~= old_items);
            }
        },
    }
}

/// Puts a prompt cache breakpoint on a message (see
/// [`openrouter_cache_marked`]).
pub fn inject_cache_control_openrouter(message: &mut JsonValue)
    ensures
        final(message)@ == openrouter_cache_marked(old(message)@),
{
    let mut taken = JsonValue::Null;
    std::mem::swap(&mut taken, message);
    let ghost mv0 = taken@;
    let mut m = match taken {
        JsonValue::Object(m) => m,
        other => {
            *message = other;
            return;
        },
    };
    let ghost ev = entries_view(m@);
    let i = match find_member(&m, "content") {
        Some(i) => i,
        None => {
            *message = JsonValue::Object(m);
            return;
        },
    };
    proof {
        lemma_entries_view(m@);
        lemma_member_index_bounds(ev, "content"@);
    }
    let (k, v) = m.remove(i);
    let ghost removed = m@;
    let new_value = match v {
        JsonValue::Str(s) => {
            let block = object3(
                member("cache_control", object1(member("type", jstr("ephemeral")))),
                member("text", JsonValue::Str(s)),
                member("type", jstr("text")),
            );
            let items = vec![block];
            proof {
                lemma_items_view(items@);
                assert(items_view(items@) =~= seq![json_view(items@[0])]);
            }
            JsonValue::Array(items)
        },
        JsonValue::Array(mut items) => {
            mark_last_item(&mut items);
            JsonValue::Array(items)
        },
        other => {
            let ghost ov = other@;
            m.insert(i, (k, other));
            proof {
                lemma_entries_view(m@);
                assert(entries_view(m@) =~= ev);
            }
            *message = JsonValue::Object(m);
            return;
        },
    };
    let ghost nv = new_value@;
    m.insert(i, (k, new_value));
    proof {
        lemma_entries_view(m@);
        assert(entries_view(m@) =~= ev.update(i as int, ("content"@, nv)));
    }
    *message = JsonValue::Object(m);
}

/// A tool definition as the tools of the chat completions API take it.
pub open spec fn definition_tool(t: ToolDefinition) -> Json {
    openai_tool(ClaudeTool { name: t.name, description: t.description, input_schema: t.input_schema })
}

/// The model member: the model, or the list of models to try in order when
/// there are fallbacks.
pub open spec fn model_entry(model: Seq<char>, fallbacks: Seq<Seq<char>>) -> (Seq<char>, Json) {
    if fallbacks.len() > 0 {
        ("models"@, Json::Array((seq![model] + fallbacks).map_values(|m: Seq<char>| Json::Str(m))))
    } else {
        ("model"@, Json::Str(model))
    }
}

/// The tool members: when there are tools, the tool choice (`auto` unless
/// the request names one) and the tools.
pub open spec fn tools_entries(tools: Option<Seq<ToolDefinition>>, tool_choice: Option<Json>) -> Seq<
    (Seq<char>, Json),
> {
    match tools {
        Some(ts) => if ts.len() > 0 {
            seq![
                (
                    "tool_choice"@,
                    match tool_choice {
                        Some(c) => c,
                        None => Json::Str("auto"@),
                    },
                ),
                ("tools"@, Json::Array(ts.map_values(|t: ToolDefinition| definition_tool(t)))),
            ]
        } else {
            Seq::empty()
        },
        None => Seq::empty(),
    }
}

/// The body of a chat completions request: the output limit (4096 when the
/// request names none) and the messages; the model (see [`model_entry`]);
/// for a stream, `stream` and the request to report usage; the temperature
/// when given; and the tools (see [`tools_entries`]). Members in key order.
pub open spec fn openrouter_body(
    messages: Seq<Json>,
    max_tokens: Option<u32>,
    model: Seq<char>,
    fallbacks: Seq<Seq<char>>,
    temperature: Option<Json>,
    tools: Option<Seq<ToolDefinition>>,
    tool_choice: Option<Json>,
    stream: bool,
) -> Json {
    Json::Object(
        seq![
            (
                "max_tokens"@,
                Json::Number(
                    decimal_text(
                        match max_tokens {
                            Some(n) => n as int,
                            None => DEFAULT_MAX_TOKENS as int,
                        },
                    ),
                ),
            ),
            ("messages"@, Json::Array(messages)),
            model_entry(model, fallbacks),
        ] + (if stream {
            seq![
                ("stream"@, Json::Bool(true)),
                ("stream_options"@, Json::Object(seq![("include_usage"@, Json::Bool(true))])),
            ]
        } else {
            Seq::empty()
        }) + opt_member("temperature"@, temperature) + tools_entries(tools, tool_choice),
    )
}

fn push_member(v: &mut Vec<(String, JsonValue)>, k: &str, x: JsonValue)
    ensures
        entries_view(final(v)@) == entries_view(old(v)@).push((k@, x@)),
{
    proof {
        lemma_entries_view(old(v)@);
    }
    let ghost xv = x@;
    v.push((to_owned_string(k), x));
    proof {
        lemma_entries_view(v@);
        assert(entries_view(v@) =~= entries_view(old(v)@).push((k@, xv)));
    }
}

fn model_member(model: String, fallback_models: &Vec<String>) -> (r: (String, JsonValue))
    ensures
        (r.0@, r.1@) == model_entry(model@, strings_view(fallback_models@)),
{
    let ghost model_v = model@;
    if fallback_models.len() == 0 {
        return (to_owned_string("model"), JsonValue::Str(model));
    }
    let mut all: Vec<JsonValue> = Vec::new();
    all.push(JsonValue::Str(model));
    let mut i: usize = 0;
    while i < fallback_models.len()
        invariant
            i <= fallback_models@.len(),
            all@.len() == i + 1,
            json_view(all@[0]) == Json::Str(model_v),
            forall|k: int| 0 <= k < i ==> #[trigger] json_view(all@[k + 1]) == Json::Str(fallback_models@[k]@),
        decreases fallback_models.len() - i,
    {
        all.push(JsonValue::Str(copy_string(&fallback_models[i])));
        i = i + 1;
    }
    proof {
        lemma_items_view(all@);
        let want = (seq![model_v] + strings_view(fallback_models@)).map_values(|m: Seq<char>| Json::Str(m));
        assert forall|k: int| 0 <= k < all@.len() implies #[trigger] items_view(all@)[k] == want[k] by {
            if k > 0 {
                assert(json_view(all@[(k - 1) + 1]) == Json::Str(fallback_models@[k - 1]@));
            }
        }
        assert(items_view(all@) =~= want);
    }
    (to_owned_string("models"), JsonValue::Array(all))
}

fn tools_members(tools: Option<Vec<ToolDefinition>>, tool_choice: Option<JsonValue>) -> (r: Vec<(String, JsonValue)>)
    ensures
        entries_view(r@) == tools_entries(
            match tools {
                Some(ts) => Some(ts@),
                None => None,
            },
            opt_json(tool_choice),
        ),
{
    let mut out: Vec<(String, JsonValue)> = Vec::new();
    let ts = match tools {
        Some(ts) => ts,
        None => {
            assert(entries_view(out@) =~= Seq::<(Seq<char>, Json)>::empty());
            return out;
        },
    };
    if ts.len() == 0 {
        assert(entries_view(out@) =~= Seq::<(Seq<char>, Json)>::empty());
        return out;
    }
    let choice = match tool_choice {
        Some(c) => c,
        None => jstr("auto"),
    };
    let ghost cv = choice@;
    let mut converted: Vec<ClaudeTool> = Vec::new();
    let mut rest = ts;
    let ghost tv = rest@;
    let ghost mut k: int = 0;
    assert(tv.skip(0) =~= tv);
    while rest.len() > 0
        invariant
            0 <= k <= tv.len(),
            rest@ == tv.skip(k),
            converted@.len() == k,
            forall|j: int| 0 <= j < k ==> openai_tool(#[trigger] converted@[j]) == definition_tool(tv[j]),
        decreases rest.len(),
    {
        let t = rest.remove(0);
        assert(t == tv[k]);
        assert(rest@ =~= tv.skip(k + 1));
        let ToolDefinition { name, description, input_schema } = t;
        converted.push(ClaudeTool { name, description, input_schema });
        proof {
            k = k + 1;
        }
    }
    let fs = build_openai_tools(converted.as_slice());
    let ghost fv = items_view(fs@);
    assert(fv =~= tv.map_values(|t: ToolDefinition| definition_tool(t)));
    out.push((to_owned_string("tool_choice"), choice));
    out.push((to_owned_string("tools"), JsonValue::Array(fs)));
    proof {
        lemma_entries_view(out@);
        assert(entries_view(out@) =~= seq![("tool_choice"@, cv), ("tools"@, Json::Array(fv))]);
    }
    out
}

/// The body of a chat completions request (see [`openrouter_body`]).
pub fn openrouter_request_body(
    messages: Vec<JsonValue>,
    max_tokens: Option<u32>,
    model: String,
    fallback_models: &Vec<String>,
    temperature: Option<JsonValue>,
    tools: Option<Vec<ToolDefinition>>,
    tool_choice: Option<JsonValue>,
    stream: bool,
) -> (r: JsonValue)
    ensures
        r@ == openrouter_body(
            items_view(messages@),
            max_tokens,
            model@,
            strings_view(fallback_models@),
            opt_json(temperature),
            match tools {
                Some(ts) => Some(ts@),
                None => None,
            },
            opt_json(tool_choice),
            stream,
        ),
{
    let ghost msgs_v = items_view(messages@);
    let ghost temp_v = opt_json(temperature);
    let ghost model_v = model@;
    let ghost fb_v = strings_view(fallback_models@);
    let ghost tools_v = match &tools {
        Some(ts) => Some(ts@),
        None => None,
    };
    let ghost choice_v = opt_json(tool_choice);
    let ghost want = openrouter_body(msgs_v, max_tokens, model_v, fb_v, temp_v, tools_v, choice_v, stream);
    let limit: u32 = match max_tokens {
        Some(n) => n,
        None => DEFAULT_MAX_TOKENS,
    };
    let mut body: Vec<(String, JsonValue)> = Vec::new();
    assert(entries_view(body@) =~= Seq::<(Seq<char>, Json)>::empty());
    push_member(&mut body, "max_tokens", JsonValue::Number(usize_to_string(limit as usize)));
    push_member(&mut body, "messages", JsonValue::Array(messages));
    let (mk, mv) = model_member(model, fallback_models);
    let ghost b0 = entries_view(body@);
    let ghost b0_raw = body@;
    let ghost me = (mk@, mv@);
    body.push((mk, mv));
    proof {
        lemma_entries_view(body@);
        lemma_entries_view(b0_raw);
        assert(body@.drop_last() =~= b0_raw);
        assert(entries_view(body@) =~= b0.push(me));
    }
    let ghost b1 = entries_view(body@);
    let ghost head = seq![
        (
            "max_tokens"@,
            Json::Number(
                decimal_text(
                    match max_tokens {
                        Some(n) => n as int,
                        None => DEFAULT_MAX_TOKENS as int,
                    },
                ),
            ),
        ),
        ("messages"@, Json::Array(msgs_v)),
        model_entry(model_v, fb_v),
    ];
    assert(b1 =~= head);
    if stream {
        push_member(&mut body, "stream", JsonValue::Bool(true));
        push_member(&mut body, "stream_options", object1(member("include_usage", JsonValue::Bool(true))));
    }
    let ghost b2 = entries_view(body@);
    let ghost stream_part: Seq<(Seq<char>, Json)> = if stream {
        seq![
            ("stream"@, Json::Bool(true)),
            ("stream_options"@, Json::Object(seq![("include_usage"@, Json::Bool(true))])),
        ]
    } else {
        Seq::empty()
    };
    assert(b2 =~= b1 + stream_part);
    match temperature {
        Some(t) => {
            push_member(&mut body, "temperature", t);
        },
        None => {},
    }
    let ghost b3 = entries_view(body@);
    assert(b3 =~= b2 + opt_member("temperature"@, temp_v));
    let mut tm = tools_members(tools, tool_choice);
    let ghost tmv = entries_view(tm@);
    assert(tmv == tools_entries(tools_v, choice_v));
    let ghost body_raw = body@;
    let ghost tm_raw = tm@;
    body.append(&mut tm);
    proof {
        lemma_entries_view(body@);
        lemma_entries_view(body_raw);
        lemma_entries_view(tm_raw);
        assert(body@ =~= body_raw + tm_raw);
        assert(entries_view(body@) =~= b3 + tmv);
        assert(entries_view(body@) =~= head + stream_part + opt_member("temperature"@, temp_v) + tools_entries(
            tools_v,
            choice_v,
        ));
        assert(want == Json::Object(entries_view(body@)));
    }
    JsonValue::Object(body)
}

/// `base_url` without its trailing slashes, followed by
/// `/chat/completions`.
pub open spec fn completions_url(base_url: Seq<char>) -> Seq<char>
    decreases base_url.len(),
{
    if base_url.len() > 0 && base_url.last() == '/' {
        completions_url(base_url.drop_last())
    } else {
        base_url + "/chat/completions"@
    }
}

/// The address of the chat completions endpoint (see [`completions_url`]).
pub fn chat_completions_url(base_url: &str) -> (r: String)
    ensures
        r@ == completions_url(base_url@),
{
    let cs = crate::text::chars_of(base_url);
    let mut n = cs.len();
    assert(cs@.subrange(0, n as int) =~= cs@);
    while n > 0 && cs[n - 1] == '/'
        invariant
            n <= cs@.len(),
            cs@ == base_url@,
            completions_url(base_url@) == completions_url(cs@.subrange(0, n as int)),
        decreases n,
    {
        assert(cs@.subrange(0, n as int).drop_last() =~= cs@.subrange(0, n - 1));
        n = n - 1;
    }
    proof {
        if n > 0 {
            assert(cs@.subrange(0, n as int).last() == cs@[n - 1]);
        }
    }
    let trimmed = crate::text::string_of(&crate::text::slice_chars(&cs, 0, n));
    str_concat(trimmed.as_str(), "/chat/completions")
}

// ---------------------------------------------------------------------------
// Errors
// ---------------------------------------------------------------------------

/// What an error reply says: when its body is JSON, the provider's own
/// message (`error.metadata.raw`), else `error.message`; else the body.
pub open spec fn error_detail(body: Seq<char>) -> Seq<char> {
    match json_parse(body) {
        Some(v) => {
            let e = index_spec(v, "error"@);
            match index_spec(index_spec(e, "metadata"@), "raw"@) {
                Json::Str(raw) => raw,
                _ => match index_spec(e, "message"@) {
                    Json::Str(m) => m,
                    _ => body,
                },
            }
        },
        None => body,
    }
}

pub const RATE_LIMITED_HEAD: &'static str = "Limite de requisições atingido: ";

pub const RATE_LIMITED_TAIL: &'static str =
    "\n\nTente novamente em alguns segundos, ou configure sua própria chave de API nas configurações.";

pub const TOO_MANY_HEAD: &'static str = "Muitas requisições (429): ";

pub const BAD_KEY_HEAD: &'static str =
    "Chave de API inválida ou expirada. Verifique suas configurações.\n\nDetalhes: ";

pub const DENIED_HEAD: &'static str = "Acesso negado. Verifique suas permissões ou chave de API.\n\nDetalhes: ";

pub const SERVER_HEAD: &'static str = "Erro no servidor do provedor (";

pub const SERVER_MID: &'static str = "). Tente novamente em alguns minutos.\n\nDetalhes: ";

pub const OTHER_HEAD: &'static str = "Erro ";

pub const OTHER_MID: &'static str = " do OpenRouter: ";

/// The message shown for a failed request, by its status code (with
/// `status_text`, the code and its reason, where the message names it) and
/// the detail of its body (see [`error_detail`]): a rate limit, too many
/// requests, a bad key, access denied, a server error, or any other.
pub open spec fn error_message_text(status: u16, status_text: Seq<char>, body: Seq<char>) -> Seq<char> {
    let d = error_detail(body);
    if status == 429 {
        if contains(d, "rate-limited"@) || contains(d, "rate limit"@) {
            RATE_LIMITED_HEAD@ + d + RATE_LIMITED_TAIL@
        } else {
            TOO_MANY_HEAD@ + d
        }
    } else if status == 401 {
        BAD_KEY_HEAD@ + d
    } else if status == 403 {
        DENIED_HEAD@ + d
    } else if status == 500 || status == 502 || status == 503 || status == 504 {
        SERVER_HEAD@ + status_text + SERVER_MID@ + d
    } else {
        OTHER_HEAD@ + status_text + OTHER_MID@ + d
    }
}

/// The detail of an error reply (see [`error_detail`]).
pub fn error_detail_of(body: &str) -> (r: String)
    ensures
        r@ == error_detail(body@),
{
    let v = match parse_json(body) {
        Some(v) => v,
        None => {
            return to_owned_string(body);
        },
    };
    let e = index_of(&v, "error");
    let raw = match e {
        Some(ev) => match index_of(ev, "metadata") {
            Some(m) => index_of(m, "raw"),
            None => None,
        },
        None => None,
    };
    match raw {
        Some(JsonValue::Str(x)) => {
            return copy_string(x);
        },
        _ => {},
    }
    let msg = match e {
        Some(ev) => index_of(ev, "message"),
        None => None,
    };
    match msg {
        Some(JsonValue::Str(x)) => copy_string(x),
        _ => to_owned_string(body),
    }
}

fn contains_text(s: &str, pat: &str) -> (r: bool)
    ensures
        r == contains(s@, pat@),
{
    find_chars(&chars_of(s), &chars_of(pat)).is_some()
}

/// The message shown for a failed request (see [`error_message_text`]).
pub fn openrouter_error_message(status: u16, status_text: &str, error_body: &str) -> (r: String)
    ensures
        r@ == error_message_text(status, status_text@, error_body@),
{
    let d = error_detail_of(error_body);
    let ds = d.as_str();
    if status == 429 {
        if contains_text(ds, "rate-limited") || contains_text(ds, "rate limit") {
            let head = str_concat(RATE_LIMITED_HEAD, ds);
            str_concat(head.as_str(), RATE_LIMITED_TAIL)
        } else {
            str_concat(TOO_MANY_HEAD, ds)
        }
    } else if status == 401 {
        str_concat(BAD_KEY_HEAD, ds)
    } else if status == 403 {
        str_concat(DENIED_HEAD, ds)
    } else if status == 500 || status == 502 || status == 503 || status == 504 {
        let a = str_concat(SERVER_HEAD, status_text);
        let b = str_concat(a.as_str(), SERVER_MID);
        str_concat(b.as_str(), ds)
    } else {
        let a = str_concat(OTHER_HEAD, status_text);
        let b = str_concat(a.as_str(), OTHER_MID);
        str_concat(b.as_str(), ds)
    }
}

// ---------------------------------------------------------------------------
// Whole requests
// ---------------------------------------------------------------------------

/// The index of the first message whose role is `user`.
pub open spec fn first_user_index(ms: Seq<Json>) -> Option<int>
    decreases ms.len(),
{
    if ms.len() == 0 {
        None
    } else if index_spec(ms[0], "role"@) == Json::Str("user"@) {
        Some(0)
    } else {
        match first_user_index(ms.drop_first()) {
            Some(i) => Some(i + 1),
            None => None,
        }
    }
}

/// For an Anthropic model (its identifier starts with `anthropic/`), the
/// messages with a prompt cache breakpoint on the first user message (see
/// [`openrouter_cache_marked`]); for any other model, the messages as they
/// are.
pub open spec fn anthropic_marked(model: Seq<char>, ms: Seq<Json>) -> Seq<Json> {
    if crate::text::starts_with(model, "anthropic/"@) {
        match first_user_index(ms) {
            Some(i) => ms.update(i, openrouter_cache_marked(ms[i])),
            None => ms,
        }
    } else {
        ms
    }
}

proof fn lemma_first_user_bounds(ms: Seq<Json>)
    ensures
        first_user_index(ms) matches Some(i) ==> 0 <= i < ms.len() && index_spec(ms[i], "role"@) == Json::Str(
            "user"@,
        ) && forall|j: int| 0 <= j < i ==> index_spec(#[trigger] ms[j], "role"@) != Json::Str("user"@),
        first_user_index(ms) is None ==> forall|j: int| 0 <= j < ms.len() ==> index_spec(#[trigger] ms[j], "role"@) != Json::Str("user"@),
    decreases ms.len(),
{
    if ms.len() > 0 {
        lemma_first_user_bounds(ms.drop_first());
        assert forall|j: int| 0 < j < ms.len() implies ms[j] == ms.drop_first()[j - 1] by {}
    }
}

fn mark_first_user(model: &str, messages: &mut Vec<JsonValue>)
    ensures
        items_view(final(messages)@) == anthropic_marked(model@, items_view(old(messages)@)),
{
    let ghost mv = items_view(messages@);
    proof {
        lemma_items_view(messages@);
        lemma_first_user_bounds(mv);
        reveal_strlit("anthropic/");
    }
    if !crate::text::starts_with_chars(&crate::text::chars_of(model), &crate::text::chars_of("anthropic/")) {
        return;
    }
    let mut i: usize = 0;
    while i < messages.len()
        invariant
            i <= messages@.len(),
            mv == items_view(messages@),
            mv.len() == messages@.len(),
            mv == items_view(old(messages)@),
            crate::text::starts_with(model@, "anthropic/"@),
            forall|j: int| 0 <= j < i ==> index_spec(#[trigger] mv[j], "role"@) != Json::Str("user"@),
        decreases messages.len() - i,
    {
        proof {
            lemma_items_view(messages@);
        }
        let is_user = match index_of(&messages[i], "role") {
            Some(JsonValue::Str(r)) => str_eq(r.as_str(), "user"),
            _ => false,
        };
        if is_user {
            proof {
                lemma_first_user_bounds(mv);
                match first_user_index(mv) {
                    Some(k) => {
                        if k > i {
                            assert(index_spec(mv[i as int], "role"@) != Json::Str("user"@));
                        }
                    },
                    None => {},
                }
            }
            let mut m = messages.remove(i);
            inject_cache_control_openrouter(&mut m);
            let ghost nv = m@;
            messages.insert(i, m);
            proof {
                lemma_items_view(messages@);
                assert(items_view(messages@) =~= mv.update(i as int, nv));
            }
            return;
        }
        i = i + 1;
    }
    proof {
        lemma_first_user_bounds(mv);
    }
}

/// The body of a streaming request to OpenRouter: the messages built from
/// the request (see [`openai_messages`]), marked for an Anthropic model (see
/// [`anthropic_marked`]), in a streaming body (see [`openrouter_body`]).
pub open spec fn stream_request_body(req: GenerateRequest, model: Seq<char>, fallbacks: Seq<Seq<char>>) -> Json {
    openrouter_body(
        anthropic_marked(
            model,
            openai_messages(opt_view(req.system), opt_view(req.blackboard_context), messages_view(req.messages@)),
        ),
        req.max_tokens,
        model,
        fallbacks,
        opt_json(req.temperature),
        match req.tools {
            Some(ts) => Some(ts@),
            None => None,
        },
        opt_json(req.tool_choice),
        true,
    )
}

/// The body of a request to OpenRouter that does not stream: the messages
/// built from the request, unmarked, in a body without `stream`.
pub open spec fn plain_request_body(req: GenerateRequest, model: Seq<char>, fallbacks: Seq<Seq<char>>) -> Json {
    openrouter_body(
        openai_messages(opt_view(req.system), opt_view(req.blackboard_context), messages_view(req.messages@)),
        req.max_tokens,
        model,
        fallbacks,
        opt_json(req.temperature),
        match req.tools {
            Some(ts) => Some(ts@),
            None => None,
        },
        opt_json(req.tool_choice),
        false,
    )
}

/// The body of a streaming request (see [`stream_request_body`]); an error
/// when no model is configured.
pub fn openrouter_stream_body(
    request: GenerateRequest,
    model_identifier: Option<String>,
    fallback_models: &Vec<String>,
) -> (r: Result<JsonValue, String>)
    ensures
        match model_identifier {
            Some(m) => r matches Ok(v) && v@ == stream_request_body(request, m@, strings_view(fallback_models@)),
            None => r matches Err(e) && e@ == NO_MODEL_ERROR@,
        },
{
    let model = match model_identifier {
        Some(m) => m,
        None => {
            return Err(to_owned_string(NO_MODEL_ERROR));
        },
    };
    let GenerateRequest { messages, max_tokens, temperature, system, blackboard_context, tools, tool_choice, .. } =
        request;
    let mut ms = build_openai_messages(system, blackboard_context, messages);
    mark_first_user(model.as_str(), &mut ms);
    Ok(openrouter_request_body(ms, max_tokens, model, fallback_models, temperature, tools, tool_choice, true))
}

/// The body of a request that does not stream (see
/// [`plain_request_body`]); an error when no model is configured.
pub fn openrouter_plain_body(
    request: GenerateRequest,
    model_identifier: Option<String>,
    fallback_models: &Vec<String>,
) -> (r: Result<JsonValue, String>)
    ensures
        match model_identifier {
            Some(m) => r matches Ok(v) && v@ == plain_request_body(request, m@, strings_view(fallback_models@)),
            None => r matches Err(e) && e@ == NO_MODEL_PLAIN_ERROR@,
        },
{
    let model = match model_identifier {
        Some(m) => m,
        None => {
            return Err(to_owned_string(NO_MODEL_PLAIN_ERROR));
        },
    };
    let GenerateRequest { messages, max_tokens, temperature, system, blackboard_context, tools, tool_choice, .. } =
        request;
    let ms = build_openai_messages(system, blackboard_context, messages);
    Ok(openrouter_request_body(ms, max_tokens, model, fallback_models, temperature, tools, tool_choice, false))
}

} // verus!
