//! Reading a streamed reply of the Anthropic messages API: the server-sent
//! events arrive in chunks, each `data:` line holds one JSON event, and the
//! events build up the content blocks, the stop reason and the usage.
use vstd::prelude::*;
use crate::json::{Json, JsonValue, get_spec, json_get, json_parse, parse_json, member_get, find_member};
use crate::number_text::{all_digits, digits_value, uint_text, parse_u64};
use crate::providers::{UsageInfo, GenerateResponse, ThinkingBlock, ToolCall};
use crate::text::{
    chars_of, copy_string, to_owned_string, str_eq, str_concat, string_of, concat_chars, slice_chars,
    find_chars_from, starts_with_chars, chars_eq,
};

verus! {

// ---------------------------------------------------------------------------
// Reading values out of events
// ---------------------------------------------------------------------------

/// `value[key]` in `serde_json`: the member, or null when there is none.
pub open spec fn index_spec(v: Json, k: Seq<char>) -> Json {
    match get_spec(v, k) {
        Some(x) => x,
        None => Json::Null,
    }
}

/// `value.as_str().unwrap_or("")`.
pub open spec fn str_or_empty(v: Json) -> Seq<char> {
    match v {
        Json::Str(s) => s,
        _ => Seq::empty(),
    }
}

/// `Value::as_u64`: a number written with digits only, that fits in a `u64`.
pub open spec fn as_u64_spec(v: Json) -> Option<u64> {
    match v {
        Json::Number(t) => if t.len() >= 1 && all_digits(t) && digits_value(t) <= u64::MAX {
            Some(digits_value(t) as u64)
        } else {
            None
        },
        _ => None,
    }
}

/// A number that deserializes as a `u32`.
pub open spec fn as_u32_spec(v: Json) -> Option<u32> {
    match as_u64_spec(v) {
        Some(n) => if n <= u32::MAX {
            Some(n as u32)
        } else {
            None
        },
        None => None,
    }
}

/// A `u32` field that must be present.
pub open spec fn required_u32(v: Option<Json>) -> Option<u32> {
    match v {
        Some(x) => as_u32_spec(x),
        None => None,
    }
}

/// A `u32` field that defaults to zero when absent.
pub open spec fn defaulted_u32(v: Option<Json>) -> Option<u32> {
    match v {
        Some(x) => as_u32_spec(x),
        None => Some(0),
    }
}

/// The usage that a JSON value deserializes to: an object with the input
/// and output token counts and, optionally, the cache counts (members read
/// by their first occurrence); or an array of two to four counts in that
/// order. `None` for anything else.
pub open spec fn usage_spec(v: Json) -> Option<UsageInfo> {
    match v {
        Json::Object(m) => match (
            required_u32(member_get(m, "input_tokens"@)),
            required_u32(member_get(m, "output_tokens"@)),
            defaulted_u32(member_get(m, "cache_creation_input_tokens"@)),
            defaulted_u32(member_get(m, "cache_read_input_tokens"@)),
        ) {
            (Some(i), Some(o), Some(cc), Some(cr)) => Some(
                UsageInfo {
                    input_tokens: i,
                    output_tokens: o,
                    cache_creation_input_tokens: cc,
                    cache_read_input_tokens: cr,
                },
            ),
            _ => None,
        },
        Json::Array(a) => if 2 <= a.len() <= 4 {
            match (
                as_u32_spec(a[0]),
                as_u32_spec(a[1]),
                if a.len() > 2 {
                    as_u32_spec(a[2])
                } else {
                    Some(0u32)
                },
                if a.len() > 3 {
                    as_u32_spec(a[3])
                } else {
                    Some(0u32)
                },
            ) {
                (Some(i), Some(o), Some(cc), Some(cr)) => Some(
                    UsageInfo {
                        input_tokens: i,
                        output_tokens: o,
                        cache_creation_input_tokens: cc,
                        cache_read_input_tokens: cr,
                    },
                ),
                _ => None,
            }
        } else {
            None
        },
        _ => None,
    }
}

/// `value[key]` (see [`index_spec`]); `None` stands for null.
pub fn index_of<'a>(v: &'a JsonValue, k: &str) -> (r: Option<&'a JsonValue>)
    ensures
        match r {
            Some(x) => index_spec(v@, k@) == x@,
            None => index_spec(v@, k@) == Json::Null,
        },
{
    match json_get(v, k) {
        Some(x) => Some(x),
        None => None,
    }
}

/// The text of an optional value (see [`str_or_empty`]).
pub fn text_or_empty(v: Option<&JsonValue>) -> (r: String)
    ensures
        r@ == str_or_empty(
            match v {
                Some(x) => x@,
                None => Json::Null,
            },
        ),
{
    match v {
        Some(JsonValue::Str(s)) => copy_string(s),
        _ => {
            proof {
                reveal_strlit("");
            }
            let e = to_owned_string("");
            assert(e@ =~= Seq::<char>::empty());
            e
        },
    }
}

/// `Value::as_u64` (see [`as_u64_spec`]).
pub fn as_u64(v: Option<&JsonValue>) -> (r: Option<u64>)
    ensures
        r == as_u64_spec(
            match v {
                Some(x) => x@,
                None => Json::Null,
            },
        ),
{
    match v {
        Some(JsonValue::Number(t)) => {
            let cs = chars_of(t.as_str());
            if cs.len() == 0 || cs[0] == '+' {
                return None;
            }
            parse_u64(t.as_str())
        },
        _ => None,
    }
}

fn as_u32(v: Option<&JsonValue>) -> (r: Option<u32>)
    ensures
        r == as_u32_spec(
            match v {
                Some(x) => x@,
                None => Json::Null,
            },
        ),
{
    match as_u64(v) {
        Some(n) => if n <= 4294967295 {
            Some(n as u32)
        } else {
            None
        },
        None => None,
    }
}

fn member_of<'a>(m: &'a Vec<(String, JsonValue)>, k: &str) -> (r: Option<&'a JsonValue>)
    ensures
        match r {
            Some(x) => member_get(crate::json::entries_view(m@), k@) == Some(x@),
            None => member_get(crate::json::entries_view(m@), k@) is None,
        },
{
    match find_member(m, k) {
        Some(i) => {
            proof {
                crate::json::lemma_entries_view(m@);
                crate::json::lemma_member_index_bounds(crate::json::entries_view(m@), k@);
            }
            Some(&m[i].1)
        },
        None => None,
    }
}

/// The usage a value deserializes to (see [`usage_spec`]).
pub fn usage_of(v: Option<&JsonValue>) -> (r: Option<UsageInfo>)
    ensures
        r == usage_spec(
            match v {
                Some(x) => x@,
                None => Json::Null,
            },
        ),
{
    match v {
        Some(JsonValue::Object(m)) => {
            let i = match member_of(m, "input_tokens") {
                Some(x) => as_u32(Some(x)),
                None => None,
            };
            let o = match member_of(m, "output_tokens") {
                Some(x) => as_u32(Some(x)),
                None => None,
            };
            let cc = match member_of(m, "cache_creation_input_tokens") {
                Some(x) => as_u32(Some(x)),
                None => Some(0),
            };
            let cr = match member_of(m, "cache_read_input_tokens") {
                Some(x) => as_u32(Some(x)),
                None => Some(0),
            };
            match (i, o, cc, cr) {
                (Some(i), Some(o), Some(cc), Some(cr)) => Some(
                    UsageInfo {
                        input_tokens: i,
                        output_tokens: o,
                        cache_creation_input_tokens: cc,
                        cache_read_input_tokens: cr,
                    },
                ),
                _ => None,
            }
        },
        Some(JsonValue::Array(a)) => {
            proof {
                crate::json::lemma_items_view(a@);
            }
            let n = a.len();
            if n < 2 || n > 4 {
                return None;
            }
            let i = as_u32(Some(&a[0]));
            let o = as_u32(Some(&a[1]));
            let cc = if n > 2 {
                as_u32(Some(&a[2]))
            } else {
                Some(0)
            };
            let cr = if n > 3 {
                as_u32(Some(&a[3]))
            } else {
                Some(0)
            };
            match (i, o, cc, cr) {
                (Some(i), Some(o), Some(cc), Some(cr)) => Some(
                    UsageInfo {
                        input_tokens: i,
                        output_tokens: o,
                        cache_creation_input_tokens: cc,
                        cache_read_input_tokens: cr,
                    },
                ),
                _ => None,
            }
        },
        _ => None,
    }
}

// ---------------------------------------------------------------------------
// The state of a stream
// ---------------------------------------------------------------------------

/// A content block as it builds up.
#[derive(Debug)]
pub struct StreamBlock {
    /// `text`, `thinking` or `tool_use` (or whatever the event said).
    pub block_type: String,
    pub text: String,
    pub tool_id: String,
    pub tool_name: String,
    /// The arguments of a tool call, as JSON text received piece by piece.
    pub tool_input_json: String,
    pub signature: String,
}

/// A piece of text to show while the reply streams: of the answer, or of
/// the model's thinking.
#[derive(Debug)]
pub struct StreamDelta {
    pub thinking: bool,
    pub text: String,
}

/// The state of a streamed reply.
#[derive(Debug)]
pub struct ClaudeStream {
    pub blocks: Vec<StreamBlock>,
    pub stop_reason: Option<String>,
    pub usage: Option<UsageInfo>,
    /// Received text not yet read: the start of a line still to come.
    pub buf: String,
}

/// A block as a mathematical value.
pub struct BlockState {
    pub block_type: Seq<char>,
    pub text: Seq<char>,
    pub tool_id: Seq<char>,
    pub tool_name: Seq<char>,
    pub tool_input_json: Seq<char>,
    pub signature: Seq<char>,
}

/// The state as a mathematical value.
pub struct StreamState {
    pub blocks: Seq<BlockState>,
    pub stop_reason: Option<Seq<char>>,
    pub usage: Option<UsageInfo>,
    pub buf: Seq<char>,
}

impl View for StreamBlock {
    type V = BlockState;

    open spec fn view(&self) -> BlockState {
        BlockState {
            block_type: self.block_type@,
            text: self.text@,
            tool_id: self.tool_id@,
            tool_name: self.tool_name@,
            tool_input_json: self.tool_input_json@,
            signature: self.signature@,
        }
    }
}

pub open spec fn stream_blocks_view(bs: Seq<StreamBlock>) -> Seq<BlockState> {
    bs.map_values(|b: StreamBlock| b@)
}

impl View for ClaudeStream {
    type V = StreamState;

    open spec fn view(&self) -> StreamState {
        StreamState {
            blocks: stream_blocks_view(self.blocks@),
            stop_reason: match self.stop_reason {
                Some(s) => Some(s@),
                None => None,
            },
            usage: self.usage,
            buf: self.buf@,
        }
    }
}

/// The deltas as mathematical values.
pub open spec fn deltas_view(ds: Seq<StreamDelta>) -> Seq<(bool, Seq<char>)> {
    ds.map_values(|d: StreamDelta| (d.thinking, d.text@))
}

/// A block with nothing in it yet.
pub open spec fn empty_block() -> BlockState {
    BlockState {
        block_type: Seq::empty(),
        text: Seq::empty(),
        tool_id: Seq::empty(),
        tool_name: Seq::empty(),
        tool_input_json: Seq::empty(),
        signature: Seq::empty(),
    }
}

/// The block index of an event (zero when it has none).
pub open spec fn event_index(ev: Json) -> usize {
    match as_u64_spec(index_spec(ev, "index"@)) {
        Some(n) => n as usize,
        None => 0usize,
    }
}

/// One event applied to the state: the state after it, and the text to
/// show. A block starts (the list grows to reach its index), text, thinking,
/// call arguments or a signature is added to a block that exists, the stop
/// reason and the usage arrive. A block index that cannot grow the list (the
/// largest `usize`) is ignored.
pub open spec fn apply_event(st: StreamState, ev: Json) -> (StreamState, Seq<(bool, Seq<char>)>) {
    let t = str_or_empty(index_spec(ev, "type"@));
    let idx = event_index(ev);
    if t == "content_block_start"@ {
        if idx == usize::MAX {
            (st, Seq::empty())
        } else {
            let cb = index_spec(ev, "content_block"@);
            let bt = str_or_empty(index_spec(cb, "type"@));
            let nb = BlockState {
                block_type: bt,
                text: Seq::empty(),
                tool_id: if bt == "tool_use"@ {
                    str_or_empty(index_spec(cb, "id"@))
                } else {
                    Seq::empty()
                },
                tool_name: if bt == "tool_use"@ {
                    str_or_empty(index_spec(cb, "name"@))
                } else {
                    Seq::empty()
                },
                tool_input_json: Seq::empty(),
                signature: Seq::empty(),
            };
            let grown = if st.blocks.len() <= idx {
                st.blocks + Seq::new((idx + 1 - st.blocks.len()) as nat, |i: int| empty_block())
            } else {
                st.blocks
            };
            (StreamState { blocks: grown.update(idx as int, nb), ..st }, Seq::empty())
        }
    } else if t == "content_block_delta"@ {
        let delta = index_spec(ev, "delta"@);
        let dt = str_or_empty(index_spec(delta, "type"@));
        if idx < st.blocks.len() {
            let b = st.blocks[idx as int];
            if dt == "text_delta"@ {
                let x = str_or_empty(index_spec(delta, "text"@));
                (
                    StreamState { blocks: st.blocks.update(idx as int, BlockState { text: b.text + x, ..b }), ..st },
                    seq![(false, x)],
                )
            } else if dt == "thinking_delta"@ {
                let x = str_or_empty(index_spec(delta, "thinking"@));
                (
                    StreamState { blocks: st.blocks.update(idx as int, BlockState { text: b.text + x, ..b }), ..st },
                    seq![(true, x)],
                )
            } else if dt == "input_json_delta"@ {
                let x = str_or_empty(index_spec(delta, "partial_json"@));
                (
                    StreamState {
                        blocks: st.blocks.update(idx as int, BlockState { tool_input_json: b.tool_input_json + x, ..b }),
                        ..st
                    },
                    Seq::empty(),
                )
            } else if dt == "signature_delta"@ {
                let x = str_or_empty(index_spec(delta, "signature"@));
                (
                    StreamState {
                        blocks: st.blocks.update(idx as int, BlockState { signature: b.signature + x, ..b }),
                        ..st
                    },
                    Seq::empty(),
                )
            } else {
                (st, Seq::empty())
            }
        } else {
            (st, Seq::empty())
        }
    } else if t == "message_delta"@ {
        let sr = match index_spec(index_spec(ev, "delta"@), "stop_reason"@) {
            Json::Str(x) => Some(x),
            _ => None,
        };
        let u = usage_spec(index_spec(ev, "usage"@));
        (StreamState { stop_reason: sr, usage: if u is Some { u } else { st.usage }, ..st }, Seq::empty())
    } else if t == "message_start"@ {
        let u = usage_spec(index_spec(index_spec(ev, "message"@), "usage"@));
        (StreamState { usage: if u is Some { u } else { st.usage }, ..st }, Seq::empty())
    } else {
        (st, Seq::empty())
    }
}

/// `trim_end_matches('\r')`.
pub open spec fn trim_cr(s: Seq<char>) -> Seq<char>
    decreases s.len(),
{
    if s.len() > 0 && s.last() == '\r' {
        trim_cr(s.drop_last())
    } else {
        s
    }
}

/// The complete lines of the buffer read one at a time: each `data:` line
/// holds an event, read as JSON and applied (a line that is not JSON is
/// skipped); other lines are skipped; a `[DONE]` line ends the reading, the
/// rest waiting in the buffer.
pub open spec fn read_lines(st: StreamState) -> (StreamState, Seq<(bool, Seq<char>)>)
    decreases st.buf.len(),
{
    match crate::text::find_char_from(st.buf, '\n', 0) {
        None => (st, Seq::empty()),
        Some(pos) => {
            proof {
                crate::text::lemma_find_from_props(st.buf, seq!['\n'], 0);
            }
            let line = trim_cr(st.buf.subrange(0, pos));
            let st1 = StreamState { buf: st.buf.subrange(pos + 1, st.buf.len() as int), ..st };
            if !crate::text::starts_with(line, "data: "@) {
                read_lines(st1)
            } else {
                let payload = line.subrange(6, line.len() as int);
                if payload == "[DONE]"@ {
                    (st1, Seq::empty())
                } else {
                    match json_parse(payload) {
                        None => read_lines(st1),
                        Some(ev) => {
                            let (st2, d) = apply_event(st1, ev);
                            proof {
                                assert(st2.buf == st1.buf);
                            }
                            let (st3, ds) = read_lines(st2);
                            (st3, d + ds)
                        },
                    }
                }
            }
        },
    }
}

/// A chunk of the stream received: it joins the buffer, and the complete
/// lines are read (see [`read_lines`]).
pub open spec fn feed_spec(st: StreamState, chunk: Seq<char>) -> (StreamState, Seq<(bool, Seq<char>)>) {
    read_lines(StreamState { buf: st.buf + chunk, ..st })
}

/// Reading the complete lines of the buffer stops at a `[DONE]` line (see
/// [`read_lines`]).
pub open spec fn ends_on_done(st: StreamState) -> bool
    decreases st.buf.len(),
{
    match crate::text::find_char_from(st.buf, '\n', 0) {
        None => false,
        Some(pos) => {
            proof {
                crate::text::lemma_find_from_props(st.buf, seq!['\n'], 0);
            }
            let line = trim_cr(st.buf.subrange(0, pos));
            let st1 = StreamState { buf: st.buf.subrange(pos + 1, st.buf.len() as int), ..st };
            if !crate::text::starts_with(line, "data: "@) {
                ends_on_done(st1)
            } else {
                let payload = line.subrange(6, line.len() as int);
                if payload == "[DONE]"@ {
                    true
                } else {
                    match json_parse(payload) {
                        None => ends_on_done(st1),
                        Some(ev) => {
                            let st2 = apply_event(st1, ev).0;
                            proof {
                                assert(st2.buf == st1.buf);
                            }
                            ends_on_done(st2)
                        },
                    }
                }
            }
        },
    }
}

proof fn lemma_apply_event_ignores_buf(st: StreamState, ev: Json, b: Seq<char>)
    ensures
        apply_event(StreamState { buf: b, ..st }, ev).0 == (StreamState { buf: b, ..apply_event(st, ev).0 }),
        apply_event(StreamState { buf: b, ..st }, ev).1 == apply_event(st, ev).1,
{
}

proof fn lemma_read_lines_split(st: StreamState, q: Seq<char>)
    requires
        !ends_on_done(st),
    ensures
        ({
            let (s1, d1) = read_lines(st);
            let (s2, d2) = read_lines(StreamState { buf: s1.buf + q, ..s1 });
            read_lines(StreamState { buf: st.buf + q, ..st }) == (s2, d1 + d2)
        }),
    decreases st.buf.len(),
{
    let p = st.buf;
    let whole = StreamState { buf: p + q, ..st };
    crate::text::lemma_find_from_props(p, seq!['\n'], 0);
    crate::text::lemma_find_from_extend(p, q, seq!['\n'], 0);
    match crate::text::find_char_from(p, '\n', 0) {
        None => {
            let (s2, d2) = read_lines(whole);
            assert(Seq::<(bool, Seq<char>)>::empty() + d2 =~= d2);
        },
        Some(pos) => {
            assert((p + q).subrange(0, pos) =~= p.subrange(0, pos));
            let rest = p.subrange(pos + 1, p.len() as int);
            assert((p + q).subrange(pos + 1, (p + q).len() as int) =~= rest + q);
            let line = trim_cr(p.subrange(0, pos));
            let st1 = StreamState { buf: rest, ..st };
            if !crate::text::starts_with(line, "data: "@) {
                lemma_read_lines_split(st1, q);
            } else {
                let payload = line.subrange(6, line.len() as int);
                match json_parse(payload) {
                    None => {
                        lemma_read_lines_split(st1, q);
                    },
                    Some(ev) => {
                        let (st2, d) = apply_event(st1, ev);
                        lemma_apply_event_ignores_buf(st1, ev, rest + q);
                        lemma_read_lines_split(st2, q);
                        let (s1, d1) = read_lines(st2);
                        let (s2, d2) = read_lines(StreamState { buf: s1.buf + q, ..s1 });
                        assert(d + d1 + d2 =~= d + (d1 + d2));
                    },
                }
            }
        },
    }
}

/// Feeding a stream in two pieces reads it as feeding it whole: the same
/// state, and the same text shown, in order, as long as the first piece
/// did not end the reading at a `[DONE]` line.
pub proof fn law_feed_in_pieces(st: StreamState, a: Seq<char>, b: Seq<char>)
    requires
        !ends_on_done(StreamState { buf: st.buf + a, ..st }),
    ensures
        feed_spec(feed_spec(st, a).0, b).0 == feed_spec(st, a + b).0,
        feed_spec(st, a).1 + feed_spec(feed_spec(st, a).0, b).1 == feed_spec(st, a + b).1,
{
    lemma_read_lines_split(StreamState { buf: st.buf + a, ..st }, b);
    assert(st.buf + a + b =~= st.buf + (a + b));
}

pub(crate) fn empty_string() -> (r: String)
    ensures
        r@ == Seq::<char>::empty(),
{
    proof {
        reveal_strlit("");
    }
    let e = to_owned_string("");
    assert(e@ =~= Seq::<char>::empty());
    e
}

fn new_block() -> (r: StreamBlock)
    ensures
        r@ == empty_block(),
{
    StreamBlock {
        block_type: empty_string(),
        text: empty_string(),
        tool_id: empty_string(),
        tool_name: empty_string(),
        tool_input_json: empty_string(),
        signature: empty_string(),
    }
}

pub(crate) fn trim_cr_chars(s: &Vec<char>) -> (r: Vec<char>)
    ensures
        r@ == trim_cr(s@),
{
    let mut n = s.len();
    assert(s@.subrange(0, n as int) =~= s@);
    while n > 0 && s[n - 1] == '\r'
        invariant
            n <= s@.len(),
            trim_cr(s@) == trim_cr(s@.subrange(0, n as int)),
        decreases n,
    {
        assert(s@.subrange(0, n as int).drop_last() =~= s@.subrange(0, n - 1));
        n = n - 1;
    }
    proof {
        if n > 0 {
            assert(s@.subrange(0, n as int).last() == s@[n - 1]);
        }
    }
    slice_chars(s, 0, n)
}

impl ClaudeStream {
    /// The state before the first chunk.
    pub fn new() -> (r: Self)
        ensures
            r@ == (StreamState { blocks: Seq::empty(), stop_reason: None, usage: None, buf: Seq::empty() }),
    {
        let r = ClaudeStream { blocks: Vec::new(), stop_reason: None, usage: None, buf: empty_string() };
        assert(stream_blocks_view(r.blocks@) =~= Seq::<BlockState>::empty());
        r
    }

    /// Applies one event (see [`apply_event`]); returns the text to show.
    #[verifier::rlimit(40)]
    pub fn apply_event(&mut self, ev: &JsonValue) -> (r: Vec<StreamDelta>)
        ensures
            (final(self)@, deltas_view(r@)) == apply_event(old(self)@, ev@),
    {
        let ghost st = self@;
        let mut out: Vec<StreamDelta> = Vec::new();
        assert(deltas_view(out@) =~= Seq::<(bool, Seq<char>)>::empty());
        let t = text_or_empty(index_of(ev, "type"));
        let idx: usize = match as_u64(index_of(ev, "index")) {
            Some(n) => n as usize,
            None => 0,
        };
        if str_eq(t.as_str(), "content_block_start") {
            if idx == usize::MAX {
                return out;
            }
            let cb = index_of(ev, "content_block");
            let bt = match cb {
                Some(c) => text_or_empty(index_of(c, "type")),
                None => empty_string(),
            };
            let is_tool = str_eq(bt.as_str(), "tool_use");
            let tool_id = if is_tool {
                match cb {
                    Some(c) => text_or_empty(index_of(c, "id")),
                    None => empty_string(),
                }
            } else {
                empty_string()
            };
            let tool_name = if is_tool {
                match cb {
                    Some(c) => text_or_empty(index_of(c, "name")),
                    None => empty_string(),
                }
            } else {
                empty_string()
            };
            let nb = StreamBlock {
                block_type: bt,
                text: empty_string(),
                tool_id,
                tool_name,
                tool_input_json: empty_string(),
                signature: empty_string(),
            };
            let ghost nbv = nb@;
            let ghost b0 = stream_blocks_view(self.blocks@);
            let ghost grown = if b0.len() <= idx {
                b0 + Seq::new((idx + 1 - b0.len()) as nat, |i: int| empty_block())
            } else {
                b0
            };
            while self.blocks.len() <= idx
                invariant
                    idx < usize::MAX,
                    b0 == st.blocks,
                    b0.len() <= idx ==> stream_blocks_view(self.blocks@) == b0 + Seq::new(
                        (self.blocks@.len() - b0.len()) as nat,
                        |i: int| empty_block(),
                    ),
                    b0.len() > idx ==> stream_blocks_view(self.blocks@) == b0,
                    self.blocks@.len() >= b0.len(),
                    b0.len() <= idx ==> self.blocks@.len() <= idx + 1,
                    self.stop_reason == old(self).stop_reason,
                    self.usage == old(self).usage,
                    self.buf == old(self).buf,
                decreases idx + 1 - self.blocks.len(),
            {
                let ghost before = stream_blocks_view(self.blocks@);
                self.blocks.push(new_block());
                assert(stream_blocks_view(self.blocks@) =~= before.push(empty_block()));
                assert(stream_blocks_view(self.blocks@) =~= b0 + Seq::new(
                    (self.blocks@.len() - b0.len()) as nat,
                    |i: int| empty_block(),
                ));
            }
            assert(stream_blocks_view(self.blocks@) =~= grown);
            self.blocks.set(idx, nb);
            assert(stream_blocks_view(self.blocks@) =~= grown.update(idx as int, nbv));
            return out;
        }
        if str_eq(t.as_str(), "content_block_delta") {
            let delta = index_of(ev, "delta");
            let dt = match delta {
                Some(d) => text_or_empty(index_of(d, "type")),
                None => empty_string(),
            };
            if idx >= self.blocks.len() {
                return out;
            }
            let field = |k: &str| -> (r: String)
                ensures
                    r@ == str_or_empty(
                        index_spec(
                            match delta {
                                Some(d) => d@,
                                None => Json::Null,
                            },
                            k@,
                        ),
                    ),
                {
                    match delta {
                        Some(d) => text_or_empty(index_of(d, k)),
                        None => empty_string(),
                    }
                };
            let ghost b0 = stream_blocks_view(self.blocks@);
            let is_text = str_eq(dt.as_str(), "text_delta");
            let is_thinking = !is_text && str_eq(dt.as_str(), "thinking_delta");
            if is_text || is_thinking {
                let thinking = is_thinking;
                let x = if thinking {
                    field("thinking")
                } else {
                    field("text")
                };
                let ghost dv = index_spec(ev@, "delta"@);
                assert(x@ == str_or_empty(index_spec(dv, if thinking { "thinking"@ } else { "text"@ })));
                let mut b = self.blocks.remove(idx);
                let ghost bv = b@;
                assert(bv == b0[idx as int]);
                b.text = str_concat(b.text.as_str(), x.as_str());
                let ghost nbv = b@;
                assert(nbv == BlockState { text: bv.text + x@, ..bv });
                self.blocks.insert(idx, b);
                assert(stream_blocks_view(self.blocks@) =~= b0.update(idx as int, nbv));
                out.push(StreamDelta { thinking, text: x });
                assert(deltas_view(out@) =~= seq![(thinking, out@[0].text@)]);
            } else if str_eq(dt.as_str(), "input_json_delta") {
                let x = field("partial_json");
                let mut b = self.blocks.remove(idx);
                b.tool_input_json = str_concat(b.tool_input_json.as_str(), x.as_str());
                let ghost nbv = b@;
                self.blocks.insert(idx, b);
                assert(stream_blocks_view(self.blocks@) =~= b0.update(idx as int, nbv));
            } else if str_eq(dt.as_str(), "signature_delta") {
                let x = field("signature");
                let mut b = self.blocks.remove(idx);
                b.signature = str_concat(b.signature.as_str(), x.as_str());
                let ghost nbv = b@;
                self.blocks.insert(idx, b);
                assert(stream_blocks_view(self.blocks@) =~= b0.update(idx as int, nbv));
            }
            return out;
        }
        if str_eq(t.as_str(), "message_delta") {
            let sr = match index_of(ev, "delta") {
                Some(d) => match index_of(d, "stop_reason") {
                    Some(JsonValue::Str(x)) => Some(copy_string(x)),
                    _ => None,
                },
                None => None,
            };
            let ghost dv = index_spec(ev@, "delta"@);
            assert(match index_spec(dv, "stop_reason"@) {
                Json::Str(x) => sr matches Some(y) && y@ == x,
                _ => sr is None,
            });
            self.stop_reason = sr;
            let u = usage_of(index_of(ev, "usage"));
            match u {
                Some(u) => {
                    self.usage = Some(u);
                },
                None => {},
            }
            assert(self@ == apply_event(st, ev@).0);
            return out;
        }
        if str_eq(t.as_str(), "message_start") {
            let u = match index_of(ev, "message") {
                Some(m) => usage_of(index_of(m, "usage")),
                None => usage_of(None),
            };
            match u {
                Some(u) => {
                    self.usage = Some(u);
                },
                None => {},
            }
        }
        out
    }
}

impl ClaudeStream {
    /// Takes in a chunk of the stream and reads its complete lines (see
    /// [`feed_spec`]); returns the text to show, in order.
    pub fn feed(&mut self, chunk: &str) -> (r: Vec<StreamDelta>)
        ensures
            (final(self)@, deltas_view(r@)) == feed_spec(old(self)@, chunk@),
    {
        let ghost target = feed_spec(self@, chunk@);
        let mut buf = concat_chars(&chars_of(self.buf.as_str()), &chars_of(chunk));
        let nl = vec!['\n'];
        let data = chars_of("data: ");
        let done = chars_of("[DONE]");
        proof {
            reveal_strlit("data: ");
            reveal_strlit("[DONE]");
            assert(nl@ =~= seq!['\n']);
        }
        let mut out: Vec<StreamDelta> = Vec::new();
        assert(deltas_view(out@) =~= Seq::<(bool, Seq<char>)>::empty());
        loop
            invariant_except_break
                target.0 == read_lines(StreamState { buf: buf@, ..self@ }).0,
                target.1 == deltas_view(out@) + read_lines(StreamState { buf: buf@, ..self@ }).1,
            invariant
                nl@ == seq!['\n'],
                data@ == "data: "@,
                done@ == "[DONE]"@,
            ensures
                target.0 == (StreamState { buf: buf@, ..self@ }),
                target.1 == deltas_view(out@),
            decreases buf@.len(),
        {
            let ghost cur = StreamState { buf: buf@, ..self@ };
            let pos = match find_chars_from(&buf, &nl, 0) {
                Some(p) => p,
                None => {
                    assert(deltas_view(out@) + Seq::<(bool, Seq<char>)>::empty() =~= deltas_view(out@));
                    break;
                },
            };
            proof {
                crate::text::lemma_find_from_props(buf@, seq!['\n'], 0);
            }
            let line = trim_cr_chars(&slice_chars(&buf, 0, pos));
            let n = buf.len();
            buf = slice_chars(&buf, pos + 1, n);
            let ghost st1 = StreamState { buf: buf@, ..self@ };
            if !starts_with_chars(&line, &data) {
                continue;
            }
            proof {
                reveal_strlit("data: ");
            }
            let payload = slice_chars(&line, 6, line.len());
            if chars_eq(&payload, &done) {
                assert(deltas_view(out@) + Seq::<(bool, Seq<char>)>::empty() =~= deltas_view(out@));
                break;
            }
            match parse_json(string_of(&payload).as_str()) {
                None => {},
                Some(ev) => {
                    let ghost before = deltas_view(out@);
                    let ghost rest = read_lines(apply_event(st1, ev@).0);
                    let mut d = self.apply_event(&ev);
                    let ghost dv = deltas_view(d@);
                    out.append(&mut d);
                    assert(deltas_view(out@) =~= before + dv);
                    assert(before + dv + rest.1 =~= before + (dv + rest.1));
                },
            }
        }
        self.buf = string_of(&buf);
        assert(stream_blocks_view(self.blocks@) == target.0.blocks);
        out
    }
}

// ---------------------------------------------------------------------------
// The reply
// ---------------------------------------------------------------------------

/// The texts of the text blocks that are not empty, in order.
pub open spec fn text_parts(bs: Seq<BlockState>) -> Seq<Seq<char>>
    decreases bs.len(),
{
    if bs.len() == 0 {
        Seq::empty()
    } else if bs.last().block_type == "text"@ && bs.last().text.len() > 0 {
        text_parts(bs.drop_last()).push(bs.last().text)
    } else {
        text_parts(bs.drop_last())
    }
}

/// The thinking blocks: text and signature, in order.
pub open spec fn thinking_parts(bs: Seq<BlockState>) -> Seq<(Seq<char>, Seq<char>)>
    decreases bs.len(),
{
    if bs.len() == 0 {
        Seq::empty()
    } else if bs.last().block_type == "thinking"@ {
        thinking_parts(bs.drop_last()).push((bs.last().text, bs.last().signature))
    } else {
        thinking_parts(bs.drop_last())
    }
}

/// The arguments of a call: its JSON text parsed, an empty object when it
/// does not parse.
pub open spec fn call_input(text: Seq<char>) -> Json {
    match json_parse(text) {
        Some(v) => v,
        None => Json::Object(Seq::empty()),
    }
}

/// The tool calls: id, name and arguments, in order.
pub open spec fn call_parts(bs: Seq<BlockState>) -> Seq<(Seq<char>, Seq<char>, Json)>
    decreases bs.len(),
{
    if bs.len() == 0 {
        Seq::empty()
    } else if bs.last().block_type == "tool_use"@ {
        call_parts(bs.drop_last()).push((bs.last().tool_id, bs.last().tool_name, call_input(bs.last().tool_input_json)))
    } else {
        call_parts(bs.drop_last())
    }
}

/// The thinking blocks of a reply as mathematical values.
pub open spec fn thinking_blocks_view(ts: Seq<ThinkingBlock>) -> Seq<(Seq<char>, Seq<char>)> {
    ts.map_values(
        |t: ThinkingBlock|
            match t {
                ThinkingBlock::Thinking { thinking, signature } => (thinking@, signature@),
                ThinkingBlock::RedactedThinking { data } => (data@, Seq::empty()),
            },
    )
}

/// The tool calls of a reply as mathematical values.
pub open spec fn calls_view(cs: Seq<ToolCall>) -> Seq<(Seq<char>, Seq<char>, Json)> {
    cs.map_values(|c: ToolCall| (c.id@, c.name@, c.input@))
}

impl ClaudeStream {
    /// The reply once the stream has ended: the texts of the text blocks
    /// joined by new lines, the thinking blocks, the tool calls (arguments
    /// that do not parse become an empty object), the stop reason and the
    /// usage.
    pub fn finish(self) -> (r: GenerateResponse)
        ensures
            r.content@ == crate::text::join(text_parts(self@.blocks), "\n"@),
            thinking_blocks_view(r.thinking_blocks@) == thinking_parts(self@.blocks),
            forall|i: int| 0 <= i < r.thinking_blocks@.len() ==> (#[trigger] r.thinking_blocks@[i]) is Thinking,
            calls_view(r.tool_calls@) == call_parts(self@.blocks),
            r.stop_reason == self.stop_reason,
            r.usage == self.usage,
            r.model_used is None,
    {
        let ghost bv = self@.blocks;
        let ClaudeStream { blocks, stop_reason, usage, buf } = self;
        let mut texts: Vec<String> = Vec::new();
        let mut thinking: Vec<ThinkingBlock> = Vec::new();
        let mut calls: Vec<ToolCall> = Vec::new();
        let mut rest = blocks;
        let ghost mut k: int = 0;
        assert(bv.skip(0) =~= bv);
        assert(crate::text::strings_view(texts@) =~= text_parts(bv.take(0)));
        assert(thinking_blocks_view(thinking@) =~= thinking_parts(bv.take(0)));
        assert(calls_view(calls@) =~= call_parts(bv.take(0)));
        while rest.len() > 0
            invariant
                0 <= k <= bv.len(),
                rest@.len() + k == bv.len(),
                stream_blocks_view(rest@) == bv.skip(k),
                crate::text::strings_view(texts@) == text_parts(bv.take(k)),
                thinking_blocks_view(thinking@) == thinking_parts(bv.take(k)),
                forall|i: int| 0 <= i < thinking@.len() ==> (#[trigger] thinking@[i]) is Thinking,
                calls_view(calls@) == call_parts(bv.take(k)),
            decreases rest.len(),
        {
            let ghost r0 = rest@;
            assert(stream_blocks_view(r0)[0] == r0[0]@);
            let b = rest.remove(0);
            assert(rest@ =~= r0.subrange(1, r0.len() as int));
            assert(stream_blocks_view(rest@) =~= stream_blocks_view(r0).subrange(1, r0.len() as int));
            assert(bv.skip(k)[0] == b@);
            assert(bv.take(k + 1).drop_last() =~= bv.take(k));
            assert(bv.take(k + 1).last() == b@);
            assert(stream_blocks_view(rest@) =~= bv.skip(k + 1));
            let ghost bw = b@;
            proof {
                reveal_strlit("text");
                reveal_strlit("thinking");
                reveal_strlit("tool_use");
                assert("text"@.len() != "thinking"@.len() && "text"@.len() != "tool_use"@.len());
                assert("thinking"@ != "tool_use"@) by {
                    assert("thinking"@[1] != "tool_use"@[1]);
                }
            }
            let StreamBlock { block_type, text, tool_id, tool_name, tool_input_json, signature } = b;
            if str_eq(block_type.as_str(), "text") {
                if chars_of(text.as_str()).len() > 0 {
                    let ghost prev = crate::text::strings_view(texts@);
                    texts.push(text);
                    assert(crate::text::strings_view(texts@) =~= prev.push(bw.text));
                }
            } else if str_eq(block_type.as_str(), "thinking") {
                let ghost prev = thinking_blocks_view(thinking@);
                thinking.push(ThinkingBlock::Thinking { thinking: text, signature });
                assert(thinking_blocks_view(thinking@) =~= prev.push((bw.text, bw.signature)));
            } else if str_eq(block_type.as_str(), "tool_use") {
                let input = match parse_json(tool_input_json.as_str()) {
                    Some(v) => v,
                    None => JsonValue::Object(Vec::new()),
                };
                proof {
                    if json_parse(bw.tool_input_json) is None {
                        assert(crate::json::entries_view(Seq::<(String, JsonValue)>::empty()) =~= Seq::<(Seq<char>, Json)>::empty());
                    }
                }
                let ghost prev = calls_view(calls@);
                let ghost iv = input@;
                calls.push(ToolCall { id: tool_id, name: tool_name, input });
                assert(calls_view(calls@) =~= prev.push((bw.tool_id, bw.tool_name, iv)));
            }
            proof {
                k = k + 1;
            }
        }
        assert(bv.take(k) =~= bv);
        let content = crate::text::join_strings(&texts, "\n");
        GenerateResponse {
            content,
            tool_calls: calls,
            thinking_blocks: thinking,
            stop_reason,
            usage,
            model_used: None,
        }
    }
}

/// A block whose text the reply shows: a text block with some text.
pub open spec fn shows_text(b: BlockState) -> bool {
    b.block_type == "text"@ && b.text.len() > 0
}

/// Law: the reply's text keeps the text of every text block with some
/// text, in block order, one per line: no such block is dropped, none is
/// added, and none is moved; the finished reply's content joins exactly
/// these texts with new lines.
pub proof fn law_content_joins_every_text(bs: Seq<BlockState>)
    ensures
        text_parts(bs) == bs.filter(|b: BlockState| shows_text(b)).map_values(|b: BlockState| b.text),
        text_parts(bs).len() == bs.filter(|b: BlockState| shows_text(b)).len(),
        crate::text::join(text_parts(bs), "\n"@) == crate::text::join(
            bs.filter(|b: BlockState| shows_text(b)).map_values(|b: BlockState| b.text),
            "\n"@,
        ),
    decreases bs.len(),
{
    reveal(Seq::filter);
    let p = |b: BlockState| shows_text(b);
    if bs.len() == 0 {
        assert(bs.filter(p) =~= Seq::<BlockState>::empty());
        assert(bs.filter(p).map_values(|b: BlockState| b.text) =~= Seq::<Seq<char>>::empty());
    } else {
        law_content_joins_every_text(bs.drop_last());
        let prev = bs.drop_last().filter(p);
        if shows_text(bs.last()) {
            assert(bs.filter(p) == prev.push(bs.last()));
            assert(prev.push(bs.last()).map_values(|b: BlockState| b.text) =~= prev.map_values(|b: BlockState| b.text).push(
                bs.last().text,
            ));
        } else {
            assert(bs.filter(p) == prev);
        }
    }
}

} // verus!
