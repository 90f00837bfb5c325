//! The chat as the UI shows it: stored messages folded into display units
//! (a user message, a question with its answer, a round of tool calls with
//! their results, a reply, a compaction summary).
use vstd::prelude::*;
use crate::chat_storage::{ContentBlock, StoredBlockView, stored_blocks_view};
use crate::json::{
    Json, JsonValue, get_spec, json_get, json_as_array, items_view, lemma_items_view, clone_json, entries_view,
    lemma_entries_view, member,
};
use crate::loop_tools::string_items;
use crate::number_text::{decimal_text, i64_to_string, u64_to_string};
use crate::recovery::{rfc3339_millis, parse_rfc3339_millis};
use crate::text::{copy_string, to_owned_string, str_eq, join, join_strings, strings_view};

verus! {

/// A file attached to a user message, as the store resolves it.
#[derive(Debug)]
pub struct Attachment {
    pub file_name: String,
    pub file_path: String,
    pub file_size: i64,
    pub mime_type: String,
}

/// A stored message with what the store knows of it besides its blocks.
#[derive(Debug)]
pub struct DisplayMessage {
    pub iri: String,
    pub role: String,
    pub blocks: Vec<ContentBlock>,
    /// When the message was sent, as RFC 3339 text.
    pub sent_at: Option<String>,
    /// The files its file blocks refer to, in order.
    pub attachments: Vec<Attachment>,
    /// The entities recalled for the message, as JSON.
    pub subconscious_entities: JsonValue,
    pub input_tokens: Option<i64>,
    pub output_tokens: Option<i64>,
    /// The estimated cost of the reply, as a JSON number.
    pub estimated_cost: Option<JsonValue>,
}

// ---------------------------------------------------------------------------
// What a message holds
// ---------------------------------------------------------------------------

pub open spec fn blocks_of(m: DisplayMessage) -> Seq<StoredBlockView> {
    stored_blocks_view(m.blocks@)
}

pub open spec fn is_question_block(b: StoredBlockView) -> bool {
    b is QuestionOutput || (b matches StoredBlockView::ToolUse(_, n, _, _) && n == "ask_question"@)
}

pub open spec fn is_call_block(b: StoredBlockView) -> bool {
    b matches StoredBlockView::ToolUse(_, n, _, _) && n != "ask_question"@
}

pub open spec fn has_text(bs: Seq<StoredBlockView>) -> bool {
    exists|i: int| 0 <= i < bs.len() && (#[trigger] bs[i]) is Text
}

pub open spec fn has_thinking(bs: Seq<StoredBlockView>) -> bool {
    exists|i: int| 0 <= i < bs.len() && (#[trigger] bs[i]) is Thinking
}

pub open spec fn has_question(bs: Seq<StoredBlockView>) -> bool {
    exists|i: int| 0 <= i < bs.len() && is_question_block(#[trigger] bs[i])
}

pub open spec fn has_call(bs: Seq<StoredBlockView>) -> bool {
    exists|i: int| 0 <= i < bs.len() && is_call_block(#[trigger] bs[i])
}

pub open spec fn only_results(bs: Seq<StoredBlockView>) -> bool {
    forall|i: int| 0 <= i < bs.len() ==> (#[trigger] bs[i]) is ToolResult
}

/// The texts of the text blocks, in order.
pub open spec fn texts(bs: Seq<StoredBlockView>) -> Seq<Seq<char>>
    decreases bs.len(),
{
    if bs.len() == 0 {
        Seq::empty()
    } else {
        match bs.last() {
            StoredBlockView::Text(t) => texts(bs.drop_last()).push(t),
            _ => texts(bs.drop_last()),
        }
    }
}

/// The texts of the thinking blocks, in order.
pub open spec fn thoughts(bs: Seq<StoredBlockView>) -> Seq<Seq<char>>
    decreases bs.len(),
{
    if bs.len() == 0 {
        Seq::empty()
    } else {
        match bs.last() {
            StoredBlockView::Thinking(t, _) => thoughts(bs.drop_last()).push(t),
            _ => thoughts(bs.drop_last()),
        }
    }
}

/// The parts joined by a blank line; null when there are none.
pub open spec fn joined_or_null(parts: Seq<Seq<char>>) -> Json {
    if parts.len() == 0 {
        Json::Null
    } else {
        Json::Str(join(parts, "\n\n"@))
    }
}

// ---------------------------------------------------------------------------
// Tool results
// ---------------------------------------------------------------------------

/// The last result among the blocks for the call `id`: its content, whether
/// it was an error, and how long the tool ran.
pub open spec fn result_in(bs: Seq<StoredBlockView>, id: Seq<char>) -> Option<(Seq<char>, bool, Option<u64>)>
    decreases bs.len(),
{
    if bs.len() == 0 {
        None
    } else {
        match bs.last() {
            StoredBlockView::ToolResult(t, c, e, d) => if t == id {
                Some(
                    (
                        c,
                        match e {
                            Some(x) => x,
                            None => false,
                        },
                        d,
                    ),
                )
            } else {
                result_in(bs.drop_last(), id)
            },
            _ => result_in(bs.drop_last(), id),
        }
    }
}

/// The last result for the call `id` in the messages.
pub open spec fn result_for(ms: Seq<DisplayMessage>, id: Seq<char>) -> Option<(Seq<char>, bool, Option<u64>)>
    decreases ms.len(),
{
    if ms.len() == 0 {
        None
    } else {
        match result_in(blocks_of(ms.last()), id) {
            Some(r) => Some(r),
            None => result_for(ms.drop_last(), id),
        }
    }
}

// ---------------------------------------------------------------------------
// Units
// ---------------------------------------------------------------------------

pub open spec fn opt_str_json(o: Option<Seq<char>>) -> Json {
    match o {
        Some(s) => Json::Str(s),
        None => Json::Null,
    }
}

pub open spec fn opt_count_json(o: Option<i64>) -> Json {
    match o {
        Some(n) => Json::Number(decimal_text(n as int)),
        None => Json::Null,
    }
}

/// When the message was sent, in milliseconds; zero when unknown.
pub open spec fn timestamp_of(m: DisplayMessage) -> i64 {
    match m.sent_at {
        Some(s) => match rfc3339_millis(s@) {
            Some(t) => t,
            None => 0,
        },
        None => 0,
    }
}

pub open spec fn attachment_json(a: Attachment) -> Json {
    Json::Object(
        seq![
            ("fileName"@, Json::Str(a.file_name@)),
            ("filePath"@, Json::Str(a.file_path@)),
            ("fileSize"@, Json::Number(decimal_text(a.file_size as int))),
            ("mimeType"@, Json::Str(a.mime_type@)),
        ],
    )
}

/// A tool call with its result, when there is one.
pub open spec fn call_json(b: StoredBlockView, ctx: Seq<DisplayMessage>) -> Json {
    match b {
        StoredBlockView::ToolUse(id, name, input, reason) => {
            let r = result_for(ctx, id);
            Json::Object(
                seq![
                    (
                        "duration_ms"@,
                        match r {
                            Some((_, _, Some(d))) => Json::Number(decimal_text(d as int)),
                            _ => Json::Null,
                        },
                    ),
                    ("input"@, input),
                    (
                        "is_error"@,
                        Json::Bool(
                            match r {
                                Some((_, e, _)) => e,
                                None => false,
                            },
                        ),
                    ),
                    ("name"@, Json::Str(name)),
                    ("reason"@, opt_str_json(reason)),
                    (
                        "result"@,
                        match r {
                            Some((c, _, _)) => Json::Str(c),
                            None => Json::Null,
                        },
                    ),
                ],
            )
        },
        _ => Json::Null,
    }
}

/// The tool calls of the blocks (not the questions), in order.
pub open spec fn calls_json(bs: Seq<StoredBlockView>, ctx: Seq<DisplayMessage>) -> Seq<Json>
    decreases bs.len(),
{
    if bs.len() == 0 {
        Seq::empty()
    } else if is_call_block(bs.last()) {
        calls_json(bs.drop_last(), ctx).push(call_json(bs.last(), ctx))
    } else {
        calls_json(bs.drop_last(), ctx)
    }
}

/// What a call of `ask_question` asks: the question (empty when absent), its
/// type (`text` when absent) and the options that are strings.
pub open spec fn asked(input: Json) -> (Seq<char>, Seq<char>, Seq<Seq<char>>) {
    (
        match get_spec(input, "question"@) {
            Some(Json::Str(q)) => q,
            _ => Seq::empty(),
        },
        match get_spec(input, "type"@) {
            Some(Json::Str(t)) => t,
            _ => "text"@,
        },
        match get_spec(input, "options"@) {
            Some(Json::Array(a)) => string_items(a),
            _ => Seq::empty(),
        },
    )
}

/// The first question of the blocks: id, question, type and options.
pub open spec fn first_question(bs: Seq<StoredBlockView>) -> Option<(Seq<char>, Seq<char>, Seq<char>, Seq<Seq<char>>)>
    decreases bs.len(),
{
    if bs.len() == 0 {
        None
    } else {
        match bs[0] {
            StoredBlockView::ToolUse(id, name, input, _) => if name == "ask_question"@ {
                let (q, t, o) = asked(input);
                Some((id, q, t, o))
            } else {
                first_question(bs.drop_first())
            },
            StoredBlockView::QuestionOutput(id, q, t, o) => Some((id, q, t, o)),
            _ => first_question(bs.drop_first()),
        }
    }
}

/// The first compaction summary of the blocks; empty when there is none.
pub open spec fn summary_text(bs: Seq<StoredBlockView>) -> Seq<char>
    decreases bs.len(),
{
    if bs.len() == 0 {
        Seq::empty()
    } else {
        match bs[0] {
            StoredBlockView::CompactionSummary(t) => t,
            _ => summary_text(bs.drop_first()),
        }
    }
}

pub open spec fn user_unit(m: DisplayMessage) -> Json {
    Json::Object(
        seq![
            ("attachments"@, Json::Array(m.attachments@.map_values(|a: Attachment| attachment_json(a)))),
            ("iri"@, Json::Str(m.iri@)),
            ("subconscious_entities"@, m.subconscious_entities@),
            ("text"@, Json::Str(join(texts(blocks_of(m)), " "@))),
            ("timestamp"@, Json::Number(decimal_text(timestamp_of(m) as int))),
            ("type"@, Json::Str("user"@)),
        ],
    )
}

pub open spec fn question_unit(
    m: DisplayMessage,
    q: (Seq<char>, Seq<char>, Seq<char>, Seq<Seq<char>>),
    ctx: Seq<DisplayMessage>,
) -> Json {
    Json::Object(
        seq![
            (
                "answer"@,
                match result_for(ctx, q.0) {
                    Some((c, _, _)) => Json::Str(c),
                    None => Json::Null,
                },
            ),
            ("id"@, Json::Str(q.0)),
            ("iri"@, Json::Str(m.iri@)),
            ("options"@, Json::Array(q.3.map_values(|o: Seq<char>| Json::Str(o)))),
            ("question"@, Json::Str(q.1)),
            ("question_type"@, Json::Str(q.2)),
            ("timestamp"@, Json::Number(decimal_text(timestamp_of(m) as int))),
            ("type"@, Json::Str("question"@)),
        ],
    )
}

pub open spec fn tool_use_unit(m: DisplayMessage, ctx: Seq<DisplayMessage>) -> Json {
    Json::Object(
        seq![
            ("iri"@, Json::Str(m.iri@)),
            ("reasoning"@, joined_or_null(thoughts(blocks_of(m)))),
            ("text"@, joined_or_null(texts(blocks_of(m)))),
            ("timestamp"@, Json::Number(decimal_text(timestamp_of(m) as int))),
            ("tool_calls"@, Json::Array(calls_json(blocks_of(m), ctx))),
            ("type"@, Json::Str("tool_use"@)),
        ],
    )
}

pub open spec fn text_unit(m: DisplayMessage) -> Json {
    Json::Object(
        seq![
            (
                "estimated_cost"@,
                match m.estimated_cost {
                    Some(c) => c@,
                    None => Json::Null,
                },
            ),
            ("input_tokens"@, opt_count_json(m.input_tokens)),
            ("iri"@, Json::Str(m.iri@)),
            ("output_tokens"@, opt_count_json(m.output_tokens)),
            ("reasoning"@, joined_or_null(thoughts(blocks_of(m)))),
            ("text"@, Json::Str(join(texts(blocks_of(m)), "\n\n"@))),
            ("timestamp"@, Json::Number(decimal_text(timestamp_of(m) as int))),
            ("type"@, Json::Str("text"@)),
        ],
    )
}

pub open spec fn compaction_unit(m: DisplayMessage) -> Json {
    Json::Object(
        seq![
            ("iri"@, Json::Str(m.iri@)),
            ("text"@, Json::Str(summary_text(blocks_of(m)))),
            ("timestamp"@, Json::Number(decimal_text(timestamp_of(m) as int))),
            ("type"@, Json::Str("compaction"@)),
        ],
    )
}

/// The unit a message is shown as, if any; results are looked up in `ctx`,
/// and a question is shown only when `questions` holds.
/// - A user message with text, and not only tool results: its texts joined
///   by spaces, its attachments and the entities recalled for it.
/// - An assistant message that asks a question: the first question, with
///   the answer given to it.
/// - Else one that calls tools: the calls with their results, its text and
///   its thinking, each joined by blank lines (null when absent).
/// - Else one with text or thinking: the text, the thinking, the tokens
///   and the cost; nothing when both are empty.
/// - A compaction message: its summary, when not empty.
/// A message without blocks, or of another role, is not shown.
pub open spec fn display_unit(m: DisplayMessage, ctx: Seq<DisplayMessage>, questions: bool) -> Option<Json> {
    let bs = blocks_of(m);
    if bs.len() == 0 {
        None
    } else if m.role@ == "user"@ {
        if only_results(bs) || !has_text(bs) {
            None
        } else {
            Some(user_unit(m))
        }
    } else if m.role@ == "assistant"@ {
        if has_question(bs) {
            if questions {
                match first_question(bs) {
                    Some(q) => Some(question_unit(m, q, ctx)),
                    None => None,
                }
            } else {
                None
            }
        } else if has_call(bs) {
            Some(tool_use_unit(m, ctx))
        } else if has_text(bs) || has_thinking(bs) {
            if join(texts(bs), "\n\n"@).len() > 0 || thoughts(bs).len() > 0 {
                Some(text_unit(m))
            } else {
                None
            }
        } else {
            None
        }
    } else if m.role@ == "compaction"@ {
        if summary_text(bs).len() > 0 {
            Some(compaction_unit(m))
        } else {
            None
        }
    } else {
        None
    }
}

/// The units of the messages, in order.
pub open spec fn units_of(ms: Seq<DisplayMessage>, ctx: Seq<DisplayMessage>) -> Seq<Json>
    decreases ms.len(),
{
    if ms.len() == 0 {
        Seq::empty()
    } else {
        match display_unit(ms.last(), ctx, true) {
            Some(u) => units_of(ms.drop_last(), ctx).push(u),
            None => units_of(ms.drop_last(), ctx),
        }
    }
}

/// The units kept for the view: when there are more than `limit`, the last
/// `limit + 1` of them.
pub open spec fn recent_units(units: Seq<Json>, limit: usize) -> Seq<Json> {
    if units.len() > limit {
        units.subrange(units.len() - limit - 1, units.len() as int)
    } else {
        units
    }
}

/// The recent messages of a conversation as the view takes them: whether
/// a reply is being produced, and the recent units.
pub open spec fn recent_messages_json(ms: Seq<DisplayMessage>, limit: usize, processing: bool) -> Json {
    Json::Object(
        seq![
            ("is_processing"@, Json::Bool(processing)),
            ("messages"@, Json::Array(recent_units(units_of(ms, ms), limit))),
        ],
    )
}

// ---------------------------------------------------------------------------
// Reading the blocks
// ---------------------------------------------------------------------------

/// The five facts about the blocks that decide how a message is shown:
/// text, thinking, a question, a tool call, only tool results.
fn block_flags(bs: &Vec<ContentBlock>) -> (r: (bool, bool, bool, bool, bool))
    ensures
        r.0 == has_text(stored_blocks_view(bs@)),
        r.1 == has_thinking(stored_blocks_view(bs@)),
        r.2 == has_question(stored_blocks_view(bs@)),
        r.3 == has_call(stored_blocks_view(bs@)),
        r.4 == only_results(stored_blocks_view(bs@)),
{
    let ghost bv = stored_blocks_view(bs@);
    let mut t = false;
    let mut th = false;
    let mut q = false;
    let mut c = false;
    let mut only = true;
    let mut i: usize = 0;
    while i < bs.len()
        invariant
            i <= bs@.len(),
            bv == stored_blocks_view(bs@),
            t == exists|j: int| 0 <= j < i && (#[trigger] bv[j]) is Text,
            th == exists|j: int| 0 <= j < i && (#[trigger] bv[j]) is Thinking,
            q == exists|j: int| 0 <= j < i && is_question_block(#[trigger] bv[j]),
            c == exists|j: int| 0 <= j < i && is_call_block(#[trigger] bv[j]),
            only == forall|j: int| 0 <= j < i ==> (#[trigger] bv[j]) is ToolResult,
        decreases bs.len() - i,
    {
        assert(bv[i as int] == bs@[i as int]@);
        match &bs[i] {
            ContentBlock::Text { .. } => {
                t = true;
            },
            ContentBlock::Thinking { .. } => {
                th = true;
            },
            ContentBlock::QuestionOutput { .. } => {
                q = true;
            },
            ContentBlock::ToolUse { name, .. } => {
                if str_eq(name.as_str(), "ask_question") {
                    q = true;
                } else {
                    c = true;
                }
            },
            _ => {},
        }
        match &bs[i] {
            ContentBlock::ToolResult { .. } => {},
            _ => {
                only = false;
            },
        }
        i = i + 1;
    }
    (t, th, q, c, only)
}

/// The texts of the text blocks (see [`texts`]).
pub(crate) fn texts_of(bs: &Vec<ContentBlock>) -> (r: Vec<String>)
    ensures
        strings_view(r@) == texts(stored_blocks_view(bs@)),
{
    let ghost bv = stored_blocks_view(bs@);
    let mut out: Vec<String> = Vec::new();
    let mut i: usize = 0;
    assert(strings_view(out@) =~= texts(bv.take(0)));
    while i < bs.len()
        invariant
            i <= bs@.len(),
            bv == stored_blocks_view(bs@),
            strings_view(out@) == texts(bv.take(i as int)),
        decreases bs.len() - i,
    {
        assert(bv.take(i + 1).drop_last() =~= bv.take(i as int));
        assert(bv.take(i + 1).last() == bs@[i as int]@);
        match &bs[i] {
            ContentBlock::Text { text } => {
                let ghost prev = strings_view(out@);
                out.push(copy_string(text));
                assert(strings_view(out@) =~= prev.push(text@));
            },
            _ => {},
        }
        i = i + 1;
    }
    assert(bv.take(i as int) =~= bv);
    out
}

/// The texts of the thinking blocks (see [`thoughts`]).
fn thoughts_of(bs: &Vec<ContentBlock>) -> (r: Vec<String>)
    ensures
        strings_view(r@) == thoughts(stored_blocks_view(bs@)),
{
    let ghost bv = stored_blocks_view(bs@);
    let mut out: Vec<String> = Vec::new();
    let mut i: usize = 0;
    assert(strings_view(out@) =~= thoughts(bv.take(0)));
    while i < bs.len()
        invariant
            i <= bs@.len(),
            bv == stored_blocks_view(bs@),
            strings_view(out@) == thoughts(bv.take(i as int)),
        decreases bs.len() - i,
    {
        assert(bv.take(i + 1).drop_last() =~= bv.take(i as int));
        assert(bv.take(i + 1).last() == bs@[i as int]@);
        match &bs[i] {
            ContentBlock::Thinking { thinking, .. } => {
                let ghost prev = strings_view(out@);
                out.push(copy_string(thinking));
                assert(strings_view(out@) =~= prev.push(thinking@));
            },
            _ => {},
        }
        i = i + 1;
    }
    assert(bv.take(i as int) =~= bv);
    out
}

fn joined_or_null_of(parts: &Vec<String>) -> (r: JsonValue)
    ensures
        r@ == joined_or_null(strings_view(parts@)),
{
    if parts.len() == 0 {
        JsonValue::Null
    } else {
        JsonValue::Str(join_strings(parts, "\n\n"))
    }
}

/// The last result for the call `id` among the blocks (see [`result_in`]).
fn result_in_blocks(bs: &Vec<ContentBlock>, id: &str) -> (r: Option<(String, bool, Option<u64>)>)
    ensures
        match r {
            Some((c, e, d)) => result_in(stored_blocks_view(bs@), id@) == Some((c@, e, d)),
            None => result_in(stored_blocks_view(bs@), id@) is None,
        },
{
    let ghost bv = stored_blocks_view(bs@);
    let mut n = bs.len();
    assert(bv.take(n as int) =~= bv);
    while n > 0
        invariant
            n <= bs@.len(),
            bv == stored_blocks_view(bs@),
            result_in(bv, id@) == result_in(bv.take(n as int), id@),
        decreases n,
    {
        assert(bv.take(n as int).drop_last() =~= bv.take(n - 1));
        assert(bv.take(n as int).last() == bs@[n - 1]@);
        match &bs[n - 1] {
            ContentBlock::ToolResult { tool_use_id, content, is_error, duration_ms } => {
                if str_eq(tool_use_id.as_str(), id) {
                    let e = match is_error {
                        Some(x) => *x,
                        None => false,
                    };
                    return Some((copy_string(content), e, *duration_ms));
                }
            },
            _ => {},
        }
        n = n - 1;
    }
    None
}

/// The last result for the call `id` in the messages (see [`result_for`]).
fn result_lookup(ctx: &[DisplayMessage], id: &str) -> (r: Option<(String, bool, Option<u64>)>)
    ensures
        match r {
            Some((c, e, d)) => result_for(ctx@, id@) == Some((c@, e, d)),
            None => result_for(ctx@, id@) is None,
        },
{
    let ghost ms = ctx@;
    let mut n = ctx.len();
    assert(ms.take(n as int) =~= ms);
    while n > 0
        invariant
            n <= ms.len(),
            ms == ctx@,
            result_for(ms, id@) == result_for(ms.take(n as int), id@),
        decreases n,
    {
        assert(ms.take(n as int).drop_last() =~= ms.take(n - 1));
        assert(ms.take(n as int).last() == ms[n - 1]);
        match result_in_blocks(&ctx[n - 1].blocks, id) {
            Some(r) => {
                return Some(r);
            },
            None => {},
        }
        n = n - 1;
    }
    None
}

fn opt_text_json(o: &Option<String>) -> (r: JsonValue)
    ensures
        r@ == opt_str_json(crate::chat_storage::opt_string_view(*o)),
{
    match o {
        Some(x) => JsonValue::Str(copy_string(x)),
        None => JsonValue::Null,
    }
}

fn opt_count_of(o: Option<i64>) -> (r: JsonValue)
    ensures
        r@ == opt_count_json(o),
{
    match o {
        Some(n) => JsonValue::Number(i64_to_string(n)),
        None => JsonValue::Null,
    }
}

/// When the message was sent (see [`timestamp_of`]).
fn timestamp_json(m: &DisplayMessage) -> (r: JsonValue)
    ensures
        r@ == Json::Number(decimal_text(timestamp_of(*m) as int)),
{
    let t: i64 = match &m.sent_at {
        Some(s) => match parse_rfc3339_millis(s.as_str()) {
            Some(t) => t,
            None => 0,
        },
        None => 0,
    };
    JsonValue::Number(i64_to_string(t))
}

/// A tool call with its result (see [`call_json`]).
fn call_json_of(id: &String, name: &String, input: &JsonValue, reason: &Option<String>, ctx: &[DisplayMessage]) -> (r:
    JsonValue)
    ensures
        r@ == call_json(
            StoredBlockView::ToolUse(id@, name@, input@, crate::chat_storage::opt_string_view(*reason)),
            ctx@,
        ),
{
    let found = result_lookup(ctx, id.as_str());
    let ghost rv = result_for(ctx@, id@);
    let (duration, is_error, result) = match found {
        Some((c, e, d)) => (
            match d {
                Some(x) => JsonValue::Number(u64_to_string(x)),
                None => JsonValue::Null,
            },
            e,
            JsonValue::Str(c),
        ),
        None => (JsonValue::Null, false, JsonValue::Null),
    };
    assert(duration@ == match rv {
        Some((_, _, Some(d))) => Json::Number(decimal_text(d as int)),
        _ => Json::Null,
    });
    assert(result@ == match rv {
        Some((c, _, _)) => Json::Str(c),
        None => Json::Null,
    });
    assert(is_error == match rv {
        Some((_, e, _)) => e,
        None => false,
    });
    let entries = vec![
        member("duration_ms", duration),
        member("input", clone_json(input)),
        member("is_error", JsonValue::Bool(is_error)),
        member("name", JsonValue::Str(copy_string(name))),
        member("reason", opt_text_json(reason)),
        member("result", result),
    ];
    proof {
        lemma_entries_view(entries@);
    }
    let ghost ev = entries_view(entries@);
    assert(ev[0].1 == duration@ && ev[2].1 == Json::Bool(is_error) && ev[5].1 == result@);
    let ghost want = call_json(
        StoredBlockView::ToolUse(id@, name@, input@, crate::chat_storage::opt_string_view(*reason)),
        ctx@,
    );
    assert(ev =~= want->Object_0);
    JsonValue::Object(entries)
}

/// The tool calls of the blocks (see [`calls_json`]).
fn calls_json_of(bs: &Vec<ContentBlock>, ctx: &[DisplayMessage]) -> (r: Vec<JsonValue>)
    ensures
        items_view(r@) == calls_json(stored_blocks_view(bs@), ctx@),
{
    let ghost bv = stored_blocks_view(bs@);
    let mut out: Vec<JsonValue> = Vec::new();
    let mut i: usize = 0;
    proof {
        lemma_items_view(out@);
    }
    assert(items_view(out@) =~= calls_json(bv.take(0), ctx@));
    while i < bs.len()
        invariant
            i <= bs@.len(),
            bv == stored_blocks_view(bs@),
            items_view(out@) == calls_json(bv.take(i as int), ctx@),
        decreases bs.len() - i,
    {
        assert(bv.take(i + 1).drop_last() =~= bv.take(i as int));
        assert(bv.take(i + 1).last() == bs@[i as int]@);
        match &bs[i] {
            ContentBlock::ToolUse { id, name, input, reason } => {
                if !str_eq(name.as_str(), "ask_question") {
                    let ghost prev = items_view(out@);
                    let ghost prev_raw = out@;
                    let j = call_json_of(id, name, input, reason, ctx);
                    let ghost jv = j@;
                    out.push(j);
                    proof {
                        lemma_items_view(out@);
                        lemma_items_view(prev_raw);
                    }
                    assert(items_view(out@) =~= prev.push(jv));
                }
            },
            _ => {},
        }
        i = i + 1;
    }
    assert(bv.take(i as int) =~= bv);
    out
}

/// What a call of `ask_question` asks (see [`asked`]).
fn asked_of(input: &JsonValue) -> (r: (String, String, Vec<String>))
    ensures
        (r.0@, r.1@, strings_view(r.2@)) == asked(input@),
{
    let q = match json_get(input, "question") {
        Some(JsonValue::Str(x)) => copy_string(x),
        _ => {
            let e = to_owned_string("");
            proof {
                reveal_strlit("");
            }
            assert(e@ =~= Seq::<char>::empty());
            e
        },
    };
    let t = match json_get(input, "type") {
        Some(JsonValue::Str(x)) => copy_string(x),
        _ => to_owned_string("text"),
    };
    let o = match json_get(input, "options") {
        Some(JsonValue::Array(a)) => crate::loop_tools::string_items_exec(a),
        _ => {
            let v: Vec<String> = Vec::new();
            assert(strings_view(v@) =~= Seq::<Seq<char>>::empty());
            v
        },
    };
    (q, t, o)
}

/// The first question of the blocks (see [`first_question`]).
fn first_question_of(bs: &Vec<ContentBlock>) -> (r: Option<(String, String, String, Vec<String>)>)
    ensures
        match r {
            Some((id, q, t, o)) => first_question(stored_blocks_view(bs@)) == Some(
                (id@, q@, t@, strings_view(o@)),
            ),
            None => first_question(stored_blocks_view(bs@)) is None,
        },
{
    let ghost bv = stored_blocks_view(bs@);
    let mut i: usize = 0;
    assert(bv.skip(0) =~= bv);
    while i < bs.len()
        invariant
            i <= bs@.len(),
            bv == stored_blocks_view(bs@),
            first_question(bv) == first_question(bv.skip(i as int)),
        decreases bs.len() - i,
    {
        assert(bv.skip(i as int)[0] == bs@[i as int]@);
        assert(bv.skip(i as int).drop_first() =~= bv.skip(i + 1));
        match &bs[i] {
            ContentBlock::ToolUse { id, name, input, .. } => {
                if str_eq(name.as_str(), "ask_question") {
                    let (q, t, o) = asked_of(input);
                    return Some((copy_string(id), q, t, o));
                }
            },
            ContentBlock::QuestionOutput { id, question, question_type, options } => {
                let mut os: Vec<String> = Vec::new();
                let mut k: usize = 0;
                while k < options.len()
                    invariant
                        k <= options@.len(),
                        os@.len() == k,
                        forall|x: int| 0 <= x < k ==> #[trigger] os@[x]@ == options@[x]@,
                    decreases options.len() - k,
                {
                    os.push(copy_string(&options[k]));
                    k = k + 1;
                }
                assert(strings_view(os@) =~= strings_view(options@));
                return Some((copy_string(id), copy_string(question), copy_string(question_type), os));
            },
            _ => {},
        }
        i = i + 1;
    }
    assert(bv.skip(i as int) =~= Seq::<StoredBlockView>::empty());
    None
}

/// The first compaction summary of the blocks (see [`summary_text`]).
fn summary_text_of(bs: &Vec<ContentBlock>) -> (r: String)
    ensures
        r@ == summary_text(stored_blocks_view(bs@)),
{
    let ghost bv = stored_blocks_view(bs@);
    let mut i: usize = 0;
    assert(bv.skip(0) =~= bv);
    while i < bs.len()
        invariant
            i <= bs@.len(),
            bv == stored_blocks_view(bs@),
            summary_text(bv) == summary_text(bv.skip(i as int)),
        decreases bs.len() - i,
    {
        assert(bv.skip(i as int)[0] == bs@[i as int]@);
        assert(bv.skip(i as int).drop_first() =~= bv.skip(i + 1));
        match &bs[i] {
            ContentBlock::CompactionSummary { text } => {
                return copy_string(text);
            },
            _ => {},
        }
        i = i + 1;
    }
    assert(bv.skip(i as int) =~= Seq::<StoredBlockView>::empty());
    let e = to_owned_string("");
    proof {
        reveal_strlit("");
    }
    assert(e@ =~= Seq::<char>::empty());
    e
}

fn attachments_json(atts: &Vec<Attachment>) -> (r: JsonValue)
    ensures
        r@ == Json::Array(atts@.map_values(|a: Attachment| attachment_json(a))),
{
    let mut out: Vec<JsonValue> = Vec::new();
    let mut i: usize = 0;
    while i < atts.len()
        invariant
            i <= atts@.len(),
            out@.len() == i,
            forall|k: int| 0 <= k < i ==> #[trigger] crate::json::json_view(out@[k]) == attachment_json(atts@[k]),
        decreases atts.len() - i,
    {
        let a = &atts[i];
        let entries = vec![
            member("fileName", JsonValue::Str(copy_string(&a.file_name))),
            member("filePath", JsonValue::Str(copy_string(&a.file_path))),
            member("fileSize", JsonValue::Number(i64_to_string(a.file_size))),
            member("mimeType", JsonValue::Str(copy_string(&a.mime_type))),
        ];
        proof {
            lemma_entries_view(entries@);
        }
        assert(entries_view(entries@) =~= attachment_json(atts@[i as int])->Object_0);
        out.push(JsonValue::Object(entries));
        i = i + 1;
    }
    proof {
        lemma_items_view(out@);
    }
    assert(items_view(out@) =~= atts@.map_values(|a: Attachment| attachment_json(a)));
    JsonValue::Array(out)
}

fn user_unit_of(m: &DisplayMessage) -> (r: JsonValue)
    ensures
        r@ == user_unit(*m),
{
    let ts = texts_of(&m.blocks);
    let entries = vec![
        member("attachments", attachments_json(&m.attachments)),
        member("iri", JsonValue::Str(copy_string(&m.iri))),
        member("subconscious_entities", clone_json(&m.subconscious_entities)),
        member("text", JsonValue::Str(join_strings(&ts, " "))),
        member("timestamp", timestamp_json(m)),
        member("type", JsonValue::Str(to_owned_string("user"))),
    ];
    proof {
        lemma_entries_view(entries@);
    }
    assert(entries_view(entries@) =~= user_unit(*m)->Object_0);
    JsonValue::Object(entries)
}

fn question_unit_of(m: &DisplayMessage, q: (String, String, String, Vec<String>), ctx: &[DisplayMessage]) -> (r:
    JsonValue)
    ensures
        r@ == question_unit(*m, (q.0@, q.1@, q.2@, strings_view(q.3@)), ctx@),
{
    let ghost qv = (q.0@, q.1@, q.2@, strings_view(q.3@));
    let (id, question, question_type, options) = q;
    let answer = match result_lookup(ctx, id.as_str()) {
        Some((c, _, _)) => JsonValue::Str(c),
        None => JsonValue::Null,
    };
    let mut opts: Vec<JsonValue> = Vec::new();
    let mut i: usize = 0;
    while i < options.len()
        invariant
            i <= options@.len(),
            opts@.len() == i,
            forall|k: int| 0 <= k < i ==> #[trigger] crate::json::json_view(opts@[k]) == Json::Str(options@[k]@),
        decreases options.len() - i,
    {
        opts.push(JsonValue::Str(copy_string(&options[i])));
        i = i + 1;
    }
    proof {
        lemma_items_view(opts@);
    }
    assert(items_view(opts@) =~= qv.3.map_values(|o: Seq<char>| Json::Str(o)));
    let entries = vec![
        member("answer", answer),
        member("id", JsonValue::Str(id)),
        member("iri", JsonValue::Str(copy_string(&m.iri))),
        member("options", JsonValue::Array(opts)),
        member("question", JsonValue::Str(question)),
        member("question_type", JsonValue::Str(question_type)),
        member("timestamp", timestamp_json(m)),
        member("type", JsonValue::Str(to_owned_string("question"))),
    ];
    proof {
        lemma_entries_view(entries@);
    }
    assert(entries_view(entries@) =~= question_unit(*m, qv, ctx@)->Object_0);
    JsonValue::Object(entries)
}

fn tool_use_unit_of(m: &DisplayMessage, ctx: &[DisplayMessage]) -> (r: JsonValue)
    ensures
        r@ == tool_use_unit(*m, ctx@),
{
    let calls = calls_json_of(&m.blocks, ctx);
    let entries = vec![
        member("iri", JsonValue::Str(copy_string(&m.iri))),
        member("reasoning", joined_or_null_of(&thoughts_of(&m.blocks))),
        member("text", joined_or_null_of(&texts_of(&m.blocks))),
        member("timestamp", timestamp_json(m)),
        member("tool_calls", JsonValue::Array(calls)),
        member("type", JsonValue::Str(to_owned_string("tool_use"))),
    ];
    proof {
        lemma_entries_view(entries@);
    }
    assert(entries_view(entries@) =~= tool_use_unit(*m, ctx@)->Object_0);
    JsonValue::Object(entries)
}

fn text_unit_of(m: &DisplayMessage, text: String, reasoning: JsonValue) -> (r: JsonValue)
    requires
        text@ == join(texts(blocks_of(*m)), "\n\n"@),
        reasoning@ == joined_or_null(thoughts(blocks_of(*m))),
    ensures
        r@ == text_unit(*m),
{
    let cost = match &m.estimated_cost {
        Some(c) => clone_json(c),
        None => JsonValue::Null,
    };
    let entries = vec![
        member("estimated_cost", cost),
        member("input_tokens", opt_count_of(m.input_tokens)),
        member("iri", JsonValue::Str(copy_string(&m.iri))),
        member("output_tokens", opt_count_of(m.output_tokens)),
        member("reasoning", reasoning),
        member("text", JsonValue::Str(text)),
        member("timestamp", timestamp_json(m)),
        member("type", JsonValue::Str(to_owned_string("text"))),
    ];
    proof {
        lemma_entries_view(entries@);
    }
    assert(entries_view(entries@) =~= text_unit(*m)->Object_0);
    JsonValue::Object(entries)
}

fn compaction_unit_of(m: &DisplayMessage, text: String) -> (r: JsonValue)
    requires
        text@ == summary_text(blocks_of(*m)),
    ensures
        r@ == compaction_unit(*m),
{
    let entries = vec![
        member("iri", JsonValue::Str(copy_string(&m.iri))),
        member("text", JsonValue::Str(text)),
        member("timestamp", timestamp_json(m)),
        member("type", JsonValue::Str(to_owned_string("compaction"))),
    ];
    proof {
        lemma_entries_view(entries@);
    }
    assert(entries_view(entries@) =~= compaction_unit(*m)->Object_0);
    JsonValue::Object(entries)
}

/// The unit a message is shown as (see [`display_unit`]).
pub fn display_unit_of(m: &DisplayMessage, ctx: &[DisplayMessage], questions: bool) -> (r: Option<JsonValue>)
    ensures
        match r {
            Some(u) => display_unit(*m, ctx@, questions) == Some(u@),
            None => display_unit(*m, ctx@, questions) is None,
        },
{
    if m.blocks.len() == 0 {
        return None;
    }
    let (t, th, q, c, only) = block_flags(&m.blocks);
    if str_eq(m.role.as_str(), "user") {
        if only || !t {
            return None;
        }
        return Some(user_unit_of(m));
    }
    if str_eq(m.role.as_str(), "assistant") {
        if q {
            if !questions {
                return None;
            }
            return match first_question_of(&m.blocks) {
                Some(found) => Some(question_unit_of(m, found, ctx)),
                None => None,
            };
        }
        if c {
            return Some(tool_use_unit_of(m, ctx));
        }
        if t || th {
            let ts = texts_of(&m.blocks);
            let text = join_strings(&ts, "\n\n");
            let parts = thoughts_of(&m.blocks);
            let reasoning = joined_or_null_of(&parts);
            if crate::text::chars_of(text.as_str()).len() > 0 || parts.len() > 0 {
                return Some(text_unit_of(m, text, reasoning));
            }
        }
        return None;
    }
    if str_eq(m.role.as_str(), "compaction") {
        let text = summary_text_of(&m.blocks);
        if crate::text::chars_of(text.as_str()).len() > 0 {
            return Some(compaction_unit_of(m, text));
        }
    }
    None
}

/// The unit of one message read on its own: no question is shown, and no
/// tool result is looked up.
pub fn message_unit(m: &DisplayMessage) -> (r: Option<JsonValue>)
    ensures
        match r {
            Some(u) => display_unit(*m, Seq::empty(), false) == Some(u@),
            None => display_unit(*m, Seq::empty(), false) is None,
        },
{
    let none: Vec<DisplayMessage> = Vec::new();
    assert(none@ =~= Seq::<DisplayMessage>::empty());
    display_unit_of(m, none.as_slice(), false)
}

/// The units of the messages (see [`units_of`]), results and answers
/// looked up among all of them.
pub fn display_units(ms: &[DisplayMessage]) -> (r: Vec<JsonValue>)
    ensures
        items_view(r@) == units_of(ms@, ms@),
{
    let mut out: Vec<JsonValue> = Vec::new();
    let mut i: usize = 0;
    proof {
        lemma_items_view(out@);
    }
    assert(items_view(out@) =~= units_of(ms@.take(0), ms@));
    while i < ms.len()
        invariant
            i <= ms@.len(),
            items_view(out@) == units_of(ms@.take(i as int), ms@),
        decreases ms.len() - i,
    {
        assert(ms@.take(i + 1).drop_last() =~= ms@.take(i as int));
        assert(ms@.take(i + 1).last() == ms@[i as int]);
        match display_unit_of(&ms[i], ms, true) {
            Some(u) => {
                let ghost prev = items_view(out@);
                let ghost prev_raw = out@;
                let ghost uv = u@;
                out.push(u);
                proof {
                    lemma_items_view(out@);
                    lemma_items_view(prev_raw);
                }
                assert(items_view(out@) =~= prev.push(uv));
            },
            None => {},
        }
        i = i + 1;
    }
    assert(ms@.take(i as int) =~= ms@);
    out
}

/// The recent messages of a conversation as the view takes them (see
/// [`recent_messages_json`]).
pub fn recent_messages(ms: &[DisplayMessage], limit: usize, processing: bool) -> (r: JsonValue)
    ensures
        r@ == recent_messages_json(ms@, limit, processing),
{
    let mut units = display_units(ms);
    let ghost uv = items_view(units@);
    proof {
        lemma_items_view(units@);
    }
    let total = units.len();
    let kept = if total > limit {
        let tail = units.split_off(total - limit - 1);
        proof {
            lemma_items_view(tail@);
        }
        assert(items_view(tail@) =~= uv.subrange(total - limit - 1, total as int));
        tail
    } else {
        units
    };
    let ghost kv = items_view(kept@);
    let entries = vec![
        member("is_processing", JsonValue::Bool(processing)),
        member("messages", JsonValue::Array(kept)),
    ];
    proof {
        lemma_entries_view(entries@);
    }
    assert(entries_view(entries@) =~= recent_messages_json(ms@, limit, processing)->Object_0);
    JsonValue::Object(entries)
}

} // verus!
