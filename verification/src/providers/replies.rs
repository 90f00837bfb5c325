//! Reading the reply to a request that does not stream, for both wire
//! formats: the text, the tool calls, the stop reason, the usage and, for
//! the chat completions API, the model that answered.
use vstd::prelude::*;
use crate::json::{
    Json, JsonValue, json_parse, parse_json, items_view, lemma_items_view, entries_view, member_get, item_spec,
    json_item, json_as_array, clone_json,
};
use crate::providers::{UsageInfo, GenerateResponse, ToolCall};
use crate::providers::claude_stream::{index_spec, str_or_empty, index_of, text_or_empty, calls_view, call_input};
use crate::providers::openrouter_stream::{count_u32, chunk_usage};
use crate::text::{copy_string, to_owned_string, str_eq};

verus! {

/// `value[i]` in `serde_json`: the item, or null when there is none.
pub open spec fn at_spec(v: Json, i: int) -> Json {
    match item_spec(v, i) {
        Some(x) => x,
        None => Json::Null,
    }
}

/// `Value::as_str` as an optional text.
pub open spec fn opt_str(v: Json) -> Option<Seq<char>> {
    match v {
        Json::Str(s) => Some(s),
        _ => None,
    }
}

/// The items of an array; none for any other value.
pub open spec fn items_or_empty(v: Json) -> Seq<Json> {
    match v {
        Json::Array(a) => a,
        _ => Seq::empty(),
    }
}

/// A usage object holds each of `keys`: indexing it by a key it lacks
/// would panic.
pub open spec fn has_keys(v: Json, keys: Seq<Seq<char>>) -> bool {
    v is Object ==> forall|i: int| 0 <= i < keys.len() ==> (#[trigger] member_get(v->Object_0, keys[i])) is Some
}

pub open spec fn claude_usage_keys() -> Seq<Seq<char>> {
    seq!["input_tokens"@, "output_tokens"@, "cache_creation_input_tokens"@, "cache_read_input_tokens"@]
}

pub open spec fn completion_usage_keys() -> Seq<Seq<char>> {
    seq!["prompt_tokens"@, "completion_tokens"@]
}

// ---------------------------------------------------------------------------
// Anthropic messages API
// ---------------------------------------------------------------------------

/// The text of the first block whose type is `text` (empty when that
/// block's text is not a string, or when there is no such block).
pub open spec fn first_text(bs: Seq<Json>) -> Seq<char>
    decreases bs.len(),
{
    if bs.len() == 0 {
        Seq::empty()
    } else if index_spec(bs[0], "type"@) == Json::Str("text"@) {
        str_or_empty(index_spec(bs[0], "text"@))
    } else {
        first_text(bs.drop_first())
    }
}

/// The `tool_use` blocks that have a string id and name: id, name and
/// input (null when absent), in order.
pub open spec fn tool_use_parts(bs: Seq<Json>) -> Seq<(Seq<char>, Seq<char>, Json)>
    decreases bs.len(),
{
    if bs.len() == 0 {
        Seq::empty()
    } else {
        let b = bs.last();
        let rest = tool_use_parts(bs.drop_last());
        if index_spec(b, "type"@) == Json::Str("tool_use"@) {
            match (index_spec(b, "id"@), index_spec(b, "name"@)) {
                (Json::Str(id), Json::Str(name)) => rest.push((id, name, index_spec(b, "input"@))),
                _ => rest,
            }
        } else {
            rest
        }
    }
}

/// The usage of a reply: the four counts, each cut to 32 bits, when the
/// usage is an object.
pub open spec fn message_usage(u: Json) -> Option<UsageInfo> {
    match u {
        Json::Object(_) => Some(
            UsageInfo {
                input_tokens: count_u32(index_spec(u, "input_tokens"@)),
                output_tokens: count_u32(index_spec(u, "output_tokens"@)),
                cache_creation_input_tokens: count_u32(index_spec(u, "cache_creation_input_tokens"@)),
                cache_read_input_tokens: count_u32(index_spec(u, "cache_read_input_tokens"@)),
            },
        ),
        _ => None,
    }
}

fn count_at(u: &JsonValue, k: &str) -> (r: u32)
    ensures
        r == count_u32(index_spec(u@, k@)),
{
    match crate::providers::claude_stream::as_u64(index_of(u, k)) {
        Some(n) => n as u32,
        None => 0,
    }
}

fn opt_text(v: Option<&JsonValue>) -> (r: Option<String>)
    ensures
        match r {
            Some(s) => opt_str(
                match v {
                    Some(x) => x@,
                    None => Json::Null,
                },
            ) == Some(s@),
            None => opt_str(
                match v {
                    Some(x) => x@,
                    None => Json::Null,
                },
            ) is None,
        },
{
    match v {
        Some(JsonValue::Str(s)) => Some(copy_string(s)),
        _ => None,
    }
}

fn first_text_of(blocks: &Vec<JsonValue>) -> (r: String)
    ensures
        r@ == first_text(items_view(blocks@)),
{
    let ghost bv = items_view(blocks@);
    proof {
        lemma_items_view(blocks@);
    }
    let mut i: usize = 0;
    assert(bv.skip(0) =~= bv);
    while i < blocks.len()
        invariant
            i <= blocks@.len(),
            bv == items_view(blocks@),
            bv.len() == blocks@.len(),
            first_text(bv) == first_text(bv.skip(i as int)),
        decreases blocks.len() - i,
    {
        proof {
            lemma_items_view(blocks@);
        }
        let b = &blocks[i];
        assert(bv.skip(i as int)[0] == b@);
        let is_text = match index_of(b, "type") {
            Some(JsonValue::Str(t)) => str_eq(t.as_str(), "text"),
            _ => false,
        };
        if is_text {
            return text_or_empty(index_of(b, "text"));
        }
        assert(bv.skip(i as int).drop_first() =~= bv.skip(i + 1));
        i = i + 1;
    }
    assert(bv.skip(i as int) =~= Seq::<Json>::empty());
    crate::providers::claude_stream::empty_string()
}

fn tool_uses_of(blocks: &Vec<JsonValue>) -> (r: Vec<ToolCall>)
    ensures
        calls_view(r@) == tool_use_parts(items_view(blocks@)),
{
    let ghost bv = items_view(blocks@);
    proof {
        lemma_items_view(blocks@);
    }
    let mut calls: Vec<ToolCall> = Vec::new();
    let mut j: usize = 0;
    assert(bv.take(0) =~= Seq::<Json>::empty());
    while j < blocks.len()
        invariant
            j <= blocks@.len(),
            bv == items_view(blocks@),
            bv.len() == blocks@.len(),
            calls_view(calls@) == tool_use_parts(bv.take(j as int)),
        decreases blocks.len() - j,
    {
        proof {
            lemma_items_view(blocks@);
        }
        let b = &blocks[j];
        assert(bv.take(j + 1).drop_last() =~= bv.take(j as int));
        assert(bv.take(j + 1).last() == b@);
        let is_use = match index_of(b, "type") {
            Some(JsonValue::Str(t)) => str_eq(t.as_str(), "tool_use"),
            _ => false,
        };
        if is_use {
            match (index_of(b, "id"), index_of(b, "name")) {
                (Some(JsonValue::Str(id)), Some(JsonValue::Str(name))) => {
                    let input = match index_of(b, "input") {
                        Some(x) => clone_json(x),
                        None => JsonValue::Null,
                    };
                    let ghost prev = calls_view(calls@);
                    let ghost iv = input@;
                    calls.push(ToolCall { id: copy_string(id), name: copy_string(name), input });
                    assert(calls_view(calls@) =~= prev.push((id@, name@, iv)));
                },
                _ => {},
            }
        }
        j = j + 1;
    }
    assert(bv.take(j as int) =~= bv);
    calls
}

/// The reply of the messages API: the text of its first text block, its
/// tool calls (see [`tool_use_parts`]), its stop reason and its usage (see
/// [`message_usage`]); no thinking and no model.
pub fn read_message_reply(body: &JsonValue) -> (r: GenerateResponse)
    requires
        has_keys(index_spec(body@, "usage"@), claude_usage_keys()),
    ensures
        r.content@ == first_text(items_or_empty(index_spec(body@, "content"@))),
        calls_view(r.tool_calls@) == tool_use_parts(items_or_empty(index_spec(body@, "content"@))),
        r.thinking_blocks@.len() == 0,
        crate::providers::openrouter_stream::opt_string_view(r.stop_reason) == opt_str(
            index_spec(body@, "stop_reason"@),
        ),
        r.usage == message_usage(index_spec(body@, "usage"@)),
        r.model_used is None,
{
    let stop_reason = opt_text(index_of(body, "stop_reason"));
    let (content, calls) = match index_of(body, "content") {
        Some(JsonValue::Array(blocks)) => (first_text_of(blocks), tool_uses_of(blocks)),
        _ => {
            let calls: Vec<ToolCall> = Vec::new();
            assert(calls_view(calls@) =~= Seq::<(Seq<char>, Seq<char>, Json)>::empty());
            (crate::providers::claude_stream::empty_string(), calls)
        },
    };
    let usage = match index_of(body, "usage") {
        Some(u) => match u {
            JsonValue::Object(_) => Some(
                UsageInfo {
                    input_tokens: count_at(u, "input_tokens"),
                    output_tokens: count_at(u, "output_tokens"),
                    cache_creation_input_tokens: count_at(u, "cache_creation_input_tokens"),
                    cache_read_input_tokens: count_at(u, "cache_read_input_tokens"),
                },
            ),
            _ => None,
        },
        None => None,
    };
    GenerateResponse {
        content,
        tool_calls: calls,
        thinking_blocks: Vec::new(),
        stop_reason,
        usage,
        model_used: None,
    }
}

// ---------------------------------------------------------------------------
// Chat completions API
// ---------------------------------------------------------------------------

/// The message of the first choice.
pub open spec fn first_message(resp: Json) -> Json {
    index_spec(at_spec(index_spec(resp, "choices"@), 0), "message"@)
}

/// The calls of a message that have a string id and a string function
/// name: id, name and the arguments parsed (`{}` when they are not a
/// string; an empty object when they do not parse), in order.
pub open spec fn function_call_parts(tcs: Seq<Json>) -> Seq<(Seq<char>, Seq<char>, Json)>
    decreases tcs.len(),
{
    if tcs.len() == 0 {
        Seq::empty()
    } else {
        let tc = tcs.last();
        let rest = function_call_parts(tcs.drop_last());
        let f = index_spec(tc, "function"@);
        match (index_spec(tc, "id"@), index_spec(f, "name"@)) {
            (Json::Str(id), Json::Str(name)) => rest.push(
                (
                    id,
                    name,
                    call_input(
                        match index_spec(f, "arguments"@) {
                            Json::Str(a) => a,
                            _ => "{}"@,
                        },
                    ),
                ),
            ),
            _ => rest,
        }
    }
}

/// The usage of a completion: prompt and completion tokens, each cut to 32
/// bits, when the usage is an object.
pub open spec fn completion_usage(u: Json) -> Option<UsageInfo> {
    match u {
        Json::Object(_) => Some(chunk_usage(u)),
        _ => None,
    }
}

fn function_calls_of(tcs: &Vec<JsonValue>) -> (r: Vec<ToolCall>)
    ensures
        calls_view(r@) == function_call_parts(items_view(tcs@)),
{
    let ghost tv = items_view(tcs@);
    proof {
        lemma_items_view(tcs@);
    }
    let mut calls: Vec<ToolCall> = Vec::new();
    let mut j: usize = 0;
    assert(tv.take(0) =~= Seq::<Json>::empty());
    while j < tcs.len()
        invariant
            j <= tcs@.len(),
            tv == items_view(tcs@),
            tv.len() == tcs@.len(),
            calls_view(calls@) == function_call_parts(tv.take(j as int)),
        decreases tcs.len() - j,
    {
        proof {
            lemma_items_view(tcs@);
        }
        let tc = &tcs[j];
        assert(tv.take(j + 1).drop_last() =~= tv.take(j as int));
        assert(tv.take(j + 1).last() == tc@);
        let f = index_of(tc, "function");
        let name = match f {
            Some(fv) => index_of(fv, "name"),
            None => None,
        };
        match (index_of(tc, "id"), name) {
            (Some(JsonValue::Str(id)), Some(JsonValue::Str(name))) => {
                let args = match f {
                    Some(fv) => match index_of(fv, "arguments") {
                        Some(JsonValue::Str(a)) => copy_string(a),
                        _ => to_owned_string("{}"),
                    },
                    None => to_owned_string("{}"),
                };
                let input = match parse_json(args.as_str()) {
                    Some(v) => v,
                    None => JsonValue::Object(Vec::new()),
                };
                proof {
                    if json_parse(args@) is None {
                        assert(entries_view(Seq::<(String, JsonValue)>::empty()) =~= Seq::<(Seq<char>, Json)>::empty());
                    }
                }
                let ghost prev = calls_view(calls@);
                let ghost iv = input@;
                calls.push(ToolCall { id: copy_string(id), name: copy_string(name), input });
                assert(calls_view(calls@) =~= prev.push((id@, name@, iv)));
            },
            _ => {},
        }
        j = j + 1;
    }
    assert(tv.take(j as int) =~= tv);
    calls
}

/// The reply of the chat completions API: of the first choice, the finish
/// reason, the content (empty when it is not a string) and the tool calls
/// (see [`function_call_parts`]); the usage (see [`completion_usage`]) and
/// the model that answered; no thinking.
pub fn read_completion_reply(resp: &JsonValue) -> (r: GenerateResponse)
    requires
        has_keys(index_spec(resp@, "usage"@), completion_usage_keys()),
    ensures
        crate::providers::openrouter_stream::opt_string_view(r.stop_reason) == opt_str(
            index_spec(at_spec(index_spec(resp@, "choices"@), 0), "finish_reason"@),
        ),
        r.content@ == str_or_empty(index_spec(first_message(resp@), "content"@)),
        calls_view(r.tool_calls@) == function_call_parts(
            items_or_empty(index_spec(first_message(resp@), "tool_calls"@)),
        ),
        r.thinking_blocks@.len() == 0,
        r.usage == completion_usage(index_spec(resp@, "usage"@)),
        crate::providers::openrouter_stream::opt_string_view(r.model_used) == opt_str(index_spec(resp@, "model"@)),
{
    let choice = match index_of(resp, "choices") {
        Some(cs) => json_item(cs, 0),
        None => None,
    };
    let stop_reason = match choice {
        Some(c) => opt_text(index_of(c, "finish_reason")),
        None => None,
    };
    let message = match choice {
        Some(c) => index_of(c, "message"),
        None => None,
    };
    let content = match message {
        Some(m) => text_or_empty(index_of(m, "content")),
        None => crate::providers::claude_stream::empty_string(),
    };
    let model_used = opt_text(index_of(resp, "model"));
    let tcs = match message {
        Some(m) => index_of(m, "tool_calls"),
        None => None,
    };
    let calls = match tcs {
        Some(JsonValue::Array(a)) => function_calls_of(a),
        _ => {
            let calls: Vec<ToolCall> = Vec::new();
            assert(calls_view(calls@) =~= Seq::<(Seq<char>, Seq<char>, Json)>::empty());
            calls
        },
    };
    let usage = match index_of(resp, "usage") {
        Some(u) => match u {
            JsonValue::Object(_) => Some(
                UsageInfo {
                    input_tokens: count_at(u, "prompt_tokens"),
                    output_tokens: count_at(u, "completion_tokens"),
                    cache_creation_input_tokens: 0,
                    cache_read_input_tokens: 0,
                },
            ),
            _ => None,
        },
        None => None,
    };
    GenerateResponse { content, tool_calls: calls, thinking_blocks: Vec::new(), stop_reason, usage, model_used }
}

} // verus!
