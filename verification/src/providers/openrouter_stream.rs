//! Reading a streamed reply of the chat completions API: each `data:` line
//! holds one JSON chunk, whose first choice carries text, tool call pieces
//! (by index) and the finish reason; chunks also name the model that
//! answered and, at the end, the usage.
use vstd::prelude::*;
use crate::json::{Json, JsonValue, json_parse, parse_json, items_view, lemma_items_view};
use crate::providers::{UsageInfo, GenerateResponse, ToolCall};
use crate::providers::claude_stream::{
    index_spec, str_or_empty, as_u64_spec, event_index, trim_cr, call_input, calls_view, index_of, text_or_empty,
    as_u64, empty_string, trim_cr_chars,
};
use crate::text::{
    chars_of, copy_string, to_owned_string, str_eq, str_concat, string_of, concat_chars, slice_chars,
    find_chars_from, starts_with_chars, chars_eq, strings_view,
};

verus! {

/// A tool call as it builds up: its id, its name, and its arguments as JSON
/// text received piece by piece.
#[derive(Debug)]
pub struct CallState {
    pub id: String,
    pub name: String,
    pub arguments: String,
}

/// The state of a streamed reply.
#[derive(Debug)]
pub struct OpenRouterStream {
    pub calls: Vec<CallState>,
    pub text: String,
    pub stop_reason: Option<String>,
    pub usage: Option<UsageInfo>,
    /// The model named by the first chunk that names one.
    pub model: Option<String>,
    /// Received text not yet read: the start of a line still to come.
    pub buf: String,
}

/// A call as a mathematical value.
pub struct CallView {
    pub id: Seq<char>,
    pub name: Seq<char>,
    pub arguments: Seq<char>,
}

/// The state as a mathematical value.
pub struct ReplyState {
    pub calls: Seq<CallView>,
    pub text: Seq<char>,
    pub stop_reason: Option<Seq<char>>,
    pub usage: Option<UsageInfo>,
    pub model: Option<Seq<char>>,
    pub buf: Seq<char>,
}

impl View for CallState {
    type V = CallView;

    open spec fn view(&self) -> CallView {
        CallView { id: self.id@, name: self.name@, arguments: self.arguments@ }
    }
}

pub open spec fn call_states_view(cs: Seq<CallState>) -> Seq<CallView> {
    cs.map_values(|c: CallState| c@)
}

pub open spec fn opt_string_view(s: Option<String>) -> Option<Seq<char>> {
    match s {
        Some(x) => Some(x@),
        None => None,
    }
}

impl View for OpenRouterStream {
    type V = ReplyState;

    open spec fn view(&self) -> ReplyState {
        ReplyState {
            calls: call_states_view(self.calls@),
            text: self.text@,
            stop_reason: opt_string_view(self.stop_reason),
            usage: self.usage,
            model: opt_string_view(self.model),
            buf: self.buf@,
        }
    }
}

/// A call with nothing in it yet.
pub open spec fn empty_call() -> CallView {
    CallView { id: Seq::empty(), name: Seq::empty(), arguments: Seq::empty() }
}

/// `value.as_u64().unwrap_or(0) as u32`: a count, cut to its low 32 bits.
pub open spec fn count_u32(v: Json) -> u32 {
    match as_u64_spec(v) {
        Some(n) => n as u32,
        None => 0u32,
    }
}

/// The usage of a chunk: prompt and completion tokens, no cache counts.
pub open spec fn chunk_usage(u: Json) -> UsageInfo {
    UsageInfo {
        input_tokens: count_u32(index_spec(u, "prompt_tokens"@)),
        output_tokens: count_u32(index_spec(u, "completion_tokens"@)),
        cache_creation_input_tokens: 0,
        cache_read_input_tokens: 0,
    }
}

/// One tool call piece applied to the calls: the list grows to reach its
/// index (zero when it has none), the id and the name are replaced when the
/// piece has them, and its argument text is appended. An index that cannot
/// grow the list (the largest `usize`) is ignored.
pub open spec fn apply_call_piece(calls: Seq<CallView>, tc: Json) -> Seq<CallView> {
    let idx = event_index(tc);
    if idx == usize::MAX {
        calls
    } else {
        let grown = if calls.len() <= idx {
            calls + Seq::new((idx + 1 - calls.len()) as nat, |i: int| empty_call())
        } else {
            calls
        };
        let c = grown[idx as int];
        let f = index_spec(tc, "function"@);
        let nc = CallView {
            id: match index_spec(tc, "id"@) {
                Json::Str(x) => x,
                _ => c.id,
            },
            name: match index_spec(f, "name"@) {
                Json::Str(x) => x,
                _ => c.name,
            },
            arguments: c.arguments + str_or_empty(index_spec(f, "arguments"@)),
        };
        grown.update(idx as int, nc)
    }
}

/// The pieces applied in order.
pub open spec fn apply_call_pieces(calls: Seq<CallView>, tcs: Seq<Json>) -> Seq<CallView>
    decreases tcs.len(),
{
    if tcs.len() == 0 {
        calls
    } else {
        apply_call_piece(apply_call_pieces(calls, tcs.drop_last()), tcs.last())
    }
}

/// One chunk applied to the state: the state after it, and the text to
/// show. The first model named is kept; a usage that is not null replaces
/// the usage; a chunk without choices changes nothing else. Of the first
/// choice, a finish reason other than empty or `"null"` becomes the stop
/// reason, non-empty content is appended to the text, and the tool call
/// pieces are applied (see [`apply_call_piece`]).
pub open spec fn apply_chunk(st: ReplyState, ev: Json) -> (ReplyState, Seq<Seq<char>>) {
    let st1 = match (st.model, index_spec(ev, "model"@)) {
        (None, Json::Str(m)) => ReplyState { model: Some(m), ..st },
        _ => st,
    };
    let u = index_spec(ev, "usage"@);
    let st2 = if u != Json::Null {
        ReplyState { usage: Some(chunk_usage(u)), ..st1 }
    } else {
        st1
    };
    match index_spec(ev, "choices"@) {
        Json::Array(cs) => if cs.len() > 0 {
            let choice = cs[0];
            let st3 = match index_spec(choice, "finish_reason"@) {
                Json::Str(fr) => if fr.len() > 0 && fr != "null"@ {
                    ReplyState { stop_reason: Some(fr), ..st2 }
                } else {
                    st2
                },
                _ => st2,
            };
            let delta = index_spec(choice, "delta"@);
            let (st4, shown) = match index_spec(delta, "content"@) {
                Json::Str(x) => if x.len() > 0 {
                    (ReplyState { text: st3.text + x, ..st3 }, seq![x])
                } else {
                    (st3, Seq::empty())
                },
                _ => (st3, Seq::empty()),
            };
            let st5 = match index_spec(delta, "tool_calls"@) {
                Json::Array(tcs) => ReplyState { calls: apply_call_pieces(st4.calls, tcs), ..st4 },
                _ => st4,
            };
            (st5, shown)
        } else {
            (st2, Seq::empty())
        },
        _ => (st2, Seq::empty()),
    }
}

/// The complete lines of the buffer read one at a time: each `data:` line
/// holds a chunk, read as JSON and applied (a line that is not JSON is
/// skipped); other lines are skipped; a `[DONE]` line ends the reading, the
/// rest waiting in the buffer.
pub open spec fn read_chunks(st: ReplyState) -> (ReplyState, Seq<Seq<char>>)
    decreases st.buf.len(),
{
    match crate::text::find_char_from(st.buf, '\n', 0) {
        None => (st, Seq::empty()),
        Some(pos) => {
            proof {
                crate::text::lemma_find_from_props(st.buf, seq!['\n'], 0);
            }
            let line = trim_cr(st.buf.subrange(0, pos));
            let st1 = ReplyState { buf: st.buf.subrange(pos + 1, st.buf.len() as int), ..st };
            if !crate::text::starts_with(line, "data: "@) {
                read_chunks(st1)
            } else {
                let payload = line.subrange(6, line.len() as int);
                if payload == "[DONE]"@ {
                    (st1, Seq::empty())
                } else {
                    match json_parse(payload) {
                        None => read_chunks(st1),
                        Some(ev) => {
                            let (st2, d) = apply_chunk(st1, ev);
                            proof {
                                assert(st2.buf == st1.buf);
                            }
                            let (st3, ds) = read_chunks(st2);
                            (st3, d + ds)
                        },
                    }
                }
            }
        },
    }
}

/// A chunk of the stream received: it joins the buffer, and the complete
/// lines are read (see [`read_chunks`]).
pub open spec fn feed_chunk(st: ReplyState, chunk: Seq<char>) -> (ReplyState, Seq<Seq<char>>) {
    read_chunks(ReplyState { buf: st.buf + chunk, ..st })
}

/// The tool calls of the reply: those that received a name, with their
/// arguments parsed (an empty object when they do not parse), in order.
pub open spec fn named_calls(cs: Seq<CallView>) -> Seq<(Seq<char>, Seq<char>, Json)>
    decreases cs.len(),
{
    if cs.len() == 0 {
        Seq::empty()
    } else if cs.last().name.len() > 0 {
        named_calls(cs.drop_last()).push((cs.last().id, cs.last().name, call_input(cs.last().arguments)))
    } else {
        named_calls(cs.drop_last())
    }
}

/// Reading the complete lines of the buffer stops at a `[DONE]` line (see
/// [`read_chunks`]).
pub open spec fn chunks_end_on_done(st: ReplyState) -> bool
    decreases st.buf.len(),
{
    match crate::text::find_char_from(st.buf, '\n', 0) {
        None => false,
        Some(pos) => {
            proof {
                crate::text::lemma_find_from_props(st.buf, seq!['\n'], 0);
            }
            let line = trim_cr(st.buf.subrange(0, pos));
            let st1 = ReplyState { buf: st.buf.subrange(pos + 1, st.buf.len() as int), ..st };
            if !crate::text::starts_with(line, "data: "@) {
                chunks_end_on_done(st1)
            } else {
                let payload = line.subrange(6, line.len() as int);
                if payload == "[DONE]"@ {
                    true
                } else {
                    match json_parse(payload) {
                        None => chunks_end_on_done(st1),
                        Some(ev) => {
                            let st2 = apply_chunk(st1, ev).0;
                            proof {
                                assert(st2.buf == st1.buf);
                            }
                            chunks_end_on_done(st2)
                        },
                    }
                }
            }
        },
    }
}

proof fn lemma_apply_chunk_ignores_buf(st: ReplyState, ev: Json, b: Seq<char>)
    ensures
        apply_chunk(ReplyState { buf: b, ..st }, ev).0 == (ReplyState { buf: b, ..apply_chunk(st, ev).0 }),
        apply_chunk(ReplyState { buf: b, ..st }, ev).1 == apply_chunk(st, ev).1,
{
}

proof fn lemma_read_chunks_split(st: ReplyState, q: Seq<char>)
    requires
        !chunks_end_on_done(st),
    ensures
        ({
            let (s1, d1) = read_chunks(st);
            let (s2, d2) = read_chunks(ReplyState { buf: s1.buf + q, ..s1 });
            read_chunks(ReplyState { buf: st.buf + q, ..st }) == (s2, d1 + d2)
        }),
    decreases st.buf.len(),
{
    let p = st.buf;
    let whole = ReplyState { buf: p + q, ..st };
    crate::text::lemma_find_from_props(p, seq!['\n'], 0);
    crate::text::lemma_find_from_extend(p, q, seq!['\n'], 0);
    match crate::text::find_char_from(p, '\n', 0) {
        None => {
            let (s2, d2) = read_chunks(whole);
            assert(Seq::<Seq<char>>::empty() + d2 =~= d2);
        },
        Some(pos) => {
            assert((p + q).subrange(0, pos) =~= p.subrange(0, pos));
            let rest = p.subrange(pos + 1, p.len() as int);
            assert((p + q).subrange(pos + 1, (p + q).len() as int) =~= rest + q);
            let line = trim_cr(p.subrange(0, pos));
            let st1 = ReplyState { buf: rest, ..st };
            if !crate::text::starts_with(line, "data: "@) {
                lemma_read_chunks_split(st1, q);
            } else {
                let payload = line.subrange(6, line.len() as int);
                match json_parse(payload) {
                    None => {
                        lemma_read_chunks_split(st1, q);
                    },
                    Some(ev) => {
                        let (st2, d) = apply_chunk(st1, ev);
                        lemma_apply_chunk_ignores_buf(st1, ev, rest + q);
                        lemma_read_chunks_split(st2, q);
                        let (s1, d1) = read_chunks(st2);
                        let (s2, d2) = read_chunks(ReplyState { buf: s1.buf + q, ..s1 });
                        assert(d + d1 + d2 =~= d + (d1 + d2));
                    },
                }
            }
        },
    }
}

/// Feeding a stream in two pieces reads it as feeding it whole: the same
/// state, and the same text shown, in order, as long as the first piece
/// did not end the reading at a `[DONE]` line.
pub proof fn law_feed_in_pieces(st: ReplyState, a: Seq<char>, b: Seq<char>)
    requires
        !chunks_end_on_done(ReplyState { buf: st.buf + a, ..st }),
    ensures
        feed_chunk(feed_chunk(st, a).0, b).0 == feed_chunk(st, a + b).0,
        feed_chunk(st, a).1 + feed_chunk(feed_chunk(st, a).0, b).1 == feed_chunk(st, a + b).1,
{
    lemma_read_chunks_split(ReplyState { buf: st.buf + a, ..st }, b);
    assert(st.buf + a + b =~= st.buf + (a + b));
}

fn new_call() -> (r: CallState)
    ensures
        r@ == empty_call(),
{
    CallState { id: empty_string(), name: empty_string(), arguments: empty_string() }
}

fn count_of(v: Option<&JsonValue>) -> (r: u32)
    ensures
        r == count_u32(
            match v {
                Some(x) => x@,
                None => Json::Null,
            },
        ),
{
    match as_u64(v) {
        Some(n) => n as u32,
        None => 0,
    }
}

fn apply_piece(calls: &mut Vec<CallState>, tc: &JsonValue)
    ensures
        call_states_view(final(calls)@) == apply_call_piece(call_states_view(old(calls)@), tc@),
{
    let ghost c0 = call_states_view(calls@);
    let idx: usize = match as_u64(index_of(tc, "index")) {
        Some(n) => n as usize,
        None => 0,
    };
    if idx == usize::MAX {
        return;
    }
    let ghost grown = if c0.len() <= idx {
        c0 + Seq::new((idx + 1 - c0.len()) as nat, |i: int| empty_call())
    } else {
        c0
    };
    while calls.len() <= idx
        invariant
            idx < usize::MAX,
            c0.len() <= idx ==> call_states_view(calls@) == c0 + Seq::new(
                (calls@.len() - c0.len()) as nat,
                |i: int| empty_call(),
            ),
            c0.len() > idx ==> call_states_view(calls@) == c0,
            calls@.len() >= c0.len(),
            c0.len() <= idx ==> calls@.len() <= idx + 1,
        decreases idx + 1 - calls.len(),
    {
        let ghost before = call_states_view(calls@);
        calls.push(new_call());
        assert(call_states_view(calls@) =~= before.push(empty_call()));
        assert(call_states_view(calls@) =~= c0 + Seq::new((calls@.len() - c0.len()) as nat, |i: int| empty_call()));
    }
    assert(call_states_view(calls@) =~= grown);
    let f = index_of(tc, "function");
    let mut c = calls.remove(idx);
    assert(c@ == grown[idx as int]);
    match index_of(tc, "id") {
        Some(JsonValue::Str(x)) => {
            c.id = copy_string(x);
        },
        _ => {},
    }
    let name = match f {
        Some(fv) => index_of(fv, "name"),
        None => None,
    };
    match name {
        Some(JsonValue::Str(x)) => {
            c.name = copy_string(x);
        },
        _ => {},
    }
    let args = match f {
        Some(fv) => text_or_empty(index_of(fv, "arguments")),
        None => empty_string(),
    };
    c.arguments = str_concat(c.arguments.as_str(), args.as_str());
    let ghost ncv = c@;
    calls.insert(idx, c);
    assert(call_states_view(calls@) =~= grown.update(idx as int, ncv));
}

impl OpenRouterStream {
    /// The state before the first chunk.
    pub fn new() -> (r: Self)
        ensures
            r@ == (ReplyState {
                calls: Seq::empty(),
                text: Seq::empty(),
                stop_reason: None,
                usage: None,
                model: None,
                buf: Seq::empty(),
            }),
    {
        let r = OpenRouterStream {
            calls: Vec::new(),
            text: empty_string(),
            stop_reason: None,
            usage: None,
            model: None,
            buf: empty_string(),
        };
        assert(call_states_view(r.calls@) =~= Seq::<CallView>::empty());
        r
    }

    /// Applies one chunk (see [`apply_chunk`]); returns the text to show.
    pub fn apply_chunk(&mut self, ev: &JsonValue) -> (r: Vec<String>)
        ensures
            (final(self)@, strings_view(r@)) == apply_chunk(old(self)@, ev@),
    {
        let mut out: Vec<String> = Vec::new();
        if self.model.is_none() {
            match index_of(ev, "model") {
                Some(JsonValue::Str(m)) => {
                    self.model = Some(copy_string(m));
                },
                _ => {},
            }
        }
        match index_of(ev, "usage") {
            Some(JsonValue::Null) => {},
            Some(u) => {
                self.usage = Some(
                    UsageInfo {
                        input_tokens: count_of(index_of(u, "prompt_tokens")),
                        output_tokens: count_of(index_of(u, "completion_tokens")),
                        cache_creation_input_tokens: 0,
                        cache_read_input_tokens: 0,
                    },
                );
            },
            None => {},
        }
        let ghost st2 = self@;
        let cs = match index_of(ev, "choices") {
            Some(JsonValue::Array(cs)) => cs,
            _ => {
                assert(strings_view(out@) =~= Seq::<Seq<char>>::empty());
                return out;
            },
        };
        if cs.len() == 0 {
            assert(strings_view(out@) =~= Seq::<Seq<char>>::empty());
            return out;
        }
        proof {
            lemma_items_view(cs@);
        }
        let choice = &cs[0];
        match index_of(choice, "finish_reason") {
            Some(JsonValue::Str(fr)) => {
                proof {
                    reveal_strlit("null");
                }
                if chars_of(fr.as_str()).len() > 0 && !str_eq(fr.as_str(), "null") {
                    self.stop_reason = Some(copy_string(fr));
                }
            },
            _ => {},
        }
        let delta = index_of(choice, "delta");
        let content = match delta {
            Some(d) => index_of(d, "content"),
            None => None,
        };
        match content {
            Some(JsonValue::Str(x)) => {
                if chars_of(x.as_str()).len() > 0 {
                    self.text = str_concat(self.text.as_str(), x.as_str());
                    out.push(copy_string(x));
                }
            },
            _ => {},
        }
        let tcs = match delta {
            Some(d) => index_of(d, "tool_calls"),
            None => None,
        };
        match tcs {
            Some(JsonValue::Array(tcs)) => {
                proof {
                    lemma_items_view(tcs@);
                }
                let ghost tv = items_view(tcs@);
                let ghost start = call_states_view(self.calls@);
                let ghost st4 = self@;
                let mut i: usize = 0;
                assert(tv.take(0) =~= Seq::<Json>::empty());
                while i < tcs.len()
                    invariant
                        i <= tcs@.len(),
                        tv == items_view(tcs@),
                        tv.len() == tcs@.len(),
                        call_states_view(self.calls@) == apply_call_pieces(start, tv.take(i as int)),
                        self@.text == st4.text,
                        self@.stop_reason == st4.stop_reason,
                        self.usage == st4.usage,
                        self@.model == st4.model,
                        self@.buf == st4.buf,
                    decreases tcs.len() - i,
                {
                    proof {
                        lemma_items_view(tcs@);
                    }
                    apply_piece(&mut self.calls, &tcs[i]);
                    assert(tv.take(i + 1).drop_last() =~= tv.take(i as int));
                    assert(tv[i as int] == tcs@[i as int]@);
                    i = i + 1;
                }
                assert(tv.take(i as int) =~= tv);
            },
            _ => {},
        }
        out
    }
}

impl OpenRouterStream {
    /// Takes in a chunk of the stream and reads its complete lines (see
    /// [`feed_chunk`]); returns the text to show, in order.
    pub fn feed(&mut self, chunk: &str) -> (r: Vec<String>)
        ensures
            (final(self)@, strings_view(r@)) == feed_chunk(old(self)@, chunk@),
    {
        let ghost target = feed_chunk(self@, chunk@);
        let mut buf = concat_chars(&chars_of(self.buf.as_str()), &chars_of(chunk));
        let nl = vec!['\n'];
        let data = chars_of("data: ");
        let done = chars_of("[DONE]");
        proof {
            reveal_strlit("data: ");
            reveal_strlit("[DONE]");
            assert(nl@ =~= seq!['\n']);
        }
        let mut out: Vec<String> = Vec::new();
        assert(strings_view(out@) =~= Seq::<Seq<char>>::empty());
        loop
            invariant_except_break
                target.0 == read_chunks(ReplyState { buf: buf@, ..self@ }).0,
                target.1 == strings_view(out@) + read_chunks(ReplyState { buf: buf@, ..self@ }).1,
            invariant
                nl@ == seq!['\n'],
                data@ == "data: "@,
                done@ == "[DONE]"@,
            ensures
                target.0 == (ReplyState { buf: buf@, ..self@ }),
                target.1 == strings_view(out@),
            decreases buf@.len(),
        {
            let pos = match find_chars_from(&buf, &nl, 0) {
                Some(p) => p,
                None => {
                    assert(strings_view(out@) + Seq::<Seq<char>>::empty() =~= strings_view(out@));
                    break;
                },
            };
            proof {
                crate::text::lemma_find_from_props(buf@, seq!['\n'], 0);
            }
            let line = trim_cr_chars(&slice_chars(&buf, 0, pos));
            let n = buf.len();
            buf = slice_chars(&buf, pos + 1, n);
            let ghost st1 = ReplyState { buf: buf@, ..self@ };
            if !starts_with_chars(&line, &data) {
                continue;
            }
            proof {
                reveal_strlit("data: ");
            }
            let payload = slice_chars(&line, 6, line.len());
            if chars_eq(&payload, &done) {
                assert(strings_view(out@) + Seq::<Seq<char>>::empty() =~= strings_view(out@));
                break;
            }
            match parse_json(string_of(&payload).as_str()) {
                None => {},
                Some(ev) => {
                    let ghost before = strings_view(out@);
                    let ghost rest = read_chunks(apply_chunk(st1, ev@).0);
                    let mut d = self.apply_chunk(&ev);
                    let ghost dv = strings_view(d@);
                    out.append(&mut d);
                    assert(strings_view(out@) =~= before + dv);
                    assert(before + dv + rest.1 =~= before + (dv + rest.1));
                },
            }
        }
        self.buf = string_of(&buf);
        out
    }

    /// The reply once the stream has ended: the text, the calls that
    /// received a name (see [`named_calls`]), no thinking, the stop reason,
    /// the usage and the model that answered.
    pub fn finish(self) -> (r: GenerateResponse)
        ensures
            r.content@ == self@.text,
            calls_view(r.tool_calls@) == named_calls(self@.calls),
            r.thinking_blocks@.len() == 0,
            r.stop_reason == self.stop_reason,
            r.usage == self.usage,
            r.model_used == self.model,
    {
        let ghost cv = self@.calls;
        let OpenRouterStream { calls, text, stop_reason, usage, model, buf } = self;
        let mut out: Vec<ToolCall> = Vec::new();
        let mut rest = calls;
        let ghost mut k: int = 0;
        assert(cv.skip(0) =~= cv);
        assert(calls_view(out@) =~= named_calls(cv.take(0)));
        while rest.len() > 0
            invariant
                0 <= k <= cv.len(),
                rest@.len() + k == cv.len(),
                call_states_view(rest@) == cv.skip(k),
                calls_view(out@) == named_calls(cv.take(k)),
            decreases rest.len(),
        {
            let ghost r0 = rest@;
            assert(call_states_view(r0)[0] == r0[0]@);
            let c = rest.remove(0);
            assert(rest@ =~= r0.subrange(1, r0.len() as int));
            assert(call_states_view(rest@) =~= call_states_view(r0).subrange(1, r0.len() as int));
            assert(cv.take(k + 1).drop_last() =~= cv.take(k));
            assert(cv.take(k + 1).last() == c@);
            assert(call_states_view(rest@) =~= cv.skip(k + 1));
            let ghost w = c@;
            let CallState { id, name, arguments } = c;
            if chars_of(name.as_str()).len() > 0 {
                let input = match parse_json(arguments.as_str()) {
                    Some(v) => v,
                    None => JsonValue::Object(Vec::new()),
                };
                proof {
                    if json_parse(w.arguments) is None {
                        assert(crate::json::entries_view(Seq::<(String, JsonValue)>::empty()) =~= Seq::<
                            (Seq<char>, Json),
                        >::empty());
                    }
                }
                let ghost prev = calls_view(out@);
                let ghost iv = input@;
                out.push(ToolCall { id, name, input });
                assert(calls_view(out@) =~= prev.push((w.id, w.name, iv)));
            }
            proof {
                k = k + 1;
            }
        }
        assert(cv.take(k) =~= cv);
        GenerateResponse {
            content: text,
            tool_calls: out,
            thinking_blocks: Vec::new(),
            stop_reason,
            usage,
            model_used: model,
        }
    }
}

/// A call slot that received a name.
pub open spec fn is_named(c: CallView) -> bool {
    c.name.len() > 0
}

/// Law: the finished reply holds exactly one tool call for each call slot
/// that received a name, in slot order, with that slot's id, name and
/// parsed arguments: parallel calls are all kept, and unnamed slots give
/// none.
pub proof fn law_every_named_call_is_kept(cs: Seq<CallView>)
    ensures
        named_calls(cs).len() == cs.filter(|c: CallView| is_named(c)).len(),
        named_calls(cs) == cs.filter(|c: CallView| is_named(c)).map_values(
            |c: CallView| (c.id, c.name, call_input(c.arguments)),
        ),
    decreases cs.len(),
{
    reveal(Seq::filter);
    let p = |c: CallView| is_named(c);
    let f = |c: CallView| (c.id, c.name, call_input(c.arguments));
    if cs.len() == 0 {
        assert(cs.filter(p) =~= Seq::<CallView>::empty());
        assert(cs.filter(p).map_values(f) =~= Seq::<(Seq<char>, Seq<char>, Json)>::empty());
    } else {
        law_every_named_call_is_kept(cs.drop_last());
        let prev = cs.drop_last().filter(p);
        if is_named(cs.last()) {
            assert(cs.filter(p) == prev.push(cs.last()));
            assert(prev.push(cs.last()).map_values(f) =~= prev.map_values(f).push(f(cs.last())));
        } else {
            assert(cs.filter(p) == prev);
        }
    }
}

} // verus!
