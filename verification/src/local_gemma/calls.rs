//! Tool calls in the output of a local Gemma model.
use vstd::prelude::*;
use crate::json::{Json, JsonValue};
use crate::local_gemma::args::{gemma_args, try_parse_gemma_native_args};
use crate::local_gemma::parse::{strip_eot_spec, strip_eot_chars};
use crate::providers::ToolCall;
use crate::text::{
    trim, find, find_from, starts_with, occurs_at, lemma_find_from_props, chars_of, string_of,
    slice_chars, trim_range, find_chars, find_chars_from, matches_at,
};
use crate::tool_calls::{
    CallSpec, opt_seq, json_tool_call, xml_tag_calls, json_call_syntax, calls_view, indexed_ids,
    is_indexed_id, indexed_call_id, lone_call_id, now_millis, indexed_call_id_string,
    json_tool_call_of, push_xml_tag_calls, parse_json_call_syntax,
};

verus! {

/// The call in the content of one `<|tool_call>...<tool_call|>` block:
/// `call:NAME{ARGS}` with a non-empty name. `None` when its arguments do
/// not parse to a value; `Some(None)` when the content is not such a call.
pub open spec fn native_call(content: Seq<char>) -> Option<Option<CallSpec>> {
    if starts_with(content, "call:"@) {
        let na = content.skip("call:"@.len() as int);
        match find(na, seq!['{']) {
            Some(b) => {
                let name = trim(na.take(b));
                if name.len() > 0 {
                    match gemma_args(na.skip(b)) {
                        Some(input) => Some(Some((name, input))),
                        None => None,
                    }
                } else {
                    Some(None)
                }
            },
            None => Some(None),
        }
    } else {
        Some(None)
    }
}

/// The native calls `<|tool_call>call:name{args}<tool_call|>` of `t` from
/// `offset` on, in order; a block without its closing tag runs to the end.
pub open spec fn native_calls_from(t: Seq<char>, offset: int) -> Option<Seq<CallSpec>>
    decreases t.len() - offset,
{
    if offset < 0 || offset >= t.len() {
        Some(Seq::empty())
    } else {
        match find_from(t, "<|tool_call>"@, offset) {
            None => Some(Seq::empty()),
            Some(o) => {
                let after_open = o + "<|tool_call>"@.len();
                proof {
                    reveal_strlit("<|tool_call>");
                    reveal_strlit("<tool_call|>");
                    lemma_find_from_props(t, "<|tool_call>"@, offset);
                    lemma_find_from_props(t, "<tool_call|>"@, after_open);
                }
                let content = match find_from(t, "<tool_call|>"@, after_open) {
                    Some(c) => t.subrange(after_open, c),
                    None => t.subrange(after_open, t.len() as int),
                };
                let next = match find_from(t, "<tool_call|>"@, after_open) {
                    Some(c) => c + "<tool_call|>"@.len(),
                    None => t.len() as int,
                };
                match native_call(content) {
                    None => None,
                    Some(this) => match native_calls_from(t, next) {
                        Some(more) => Some(opt_seq(this) + more),
                        None => None,
                    },
                }
            },
        }
    }
}

/// Length of the JSON text that starts at `js`: up to the first
/// `\n</tool_call>`, else the first `</tool_call>`, else the end.
pub open spec fn legacy_json_len(t: Seq<char>, js: int) -> int {
    match find_from(t, "\n</tool_call>"@, js) {
        Some(x) => x - js,
        None => match find_from(t, "</tool_call>"@, js) {
            Some(x) => x - js,
            None => t.len() - js,
        },
    }
}

/// The calls of the legacy `tool_call\n{JSON}[\n</tool_call>]` format in `t`
/// from `offset` on, in order.
pub open spec fn legacy_calls_from(t: Seq<char>, offset: int) -> Seq<CallSpec>
    decreases t.len() - offset,
{
    if offset < 0 || offset >= t.len() {
        Seq::empty()
    } else {
        match find_from(t, "tool_call\n"@, offset) {
            None => Seq::empty(),
            Some(r) => {
                let js = r + "tool_call\n"@.len();
                proof {
                    reveal_strlit("tool_call\n");
                    lemma_find_from_props(t, "tool_call\n"@, offset);
                    lemma_find_from_props(t, "\n</tool_call>"@, js);
                    lemma_find_from_props(t, "</tool_call>"@, js);
                }
                if js >= t.len() {
                    Seq::empty()
                } else {
                    let jl = legacy_json_len(t, js);
                    let next = if js + jl + 1 < t.len() {
                        js + jl + 1
                    } else {
                        t.len() as int
                    };
                    opt_seq(json_tool_call(json_parse_trimmed(t.subrange(js, js + jl))))
                        + legacy_calls_from(t, next)
                }
            },
        }
    }
}

pub open spec fn json_parse_trimmed(s: Seq<char>) -> Option<Json> {
    crate::json::json_parse(trim(s))
}

/// `parse_all_tool_calls_from_output`: the calls in the cleaned output, from
/// the first format that yields any: native Gemma blocks, the legacy
/// `tool_call\n{JSON}` format, `<tool_call>{JSON}</tool_call>` tags, and last
/// a single `name({...})` call. `None` where the native argument parser does
/// not return.
pub open spec fn gemma_tool_calls(text: Seq<char>) -> Option<Seq<CallSpec>> {
    let t = strip_eot_spec(text);
    match native_calls_from(t, 0) {
        None => None,
        Some(native) => if native.len() > 0 {
            Some(native)
        } else {
            let legacy = legacy_calls_from(t, 0);
            if legacy.len() > 0 {
                Some(legacy)
            } else {
                let xml = xml_tag_calls(t);
                if xml.len() > 0 {
                    Some(xml)
                } else {
                    Some(opt_seq(json_call_syntax(t)))
                }
            }
        },
    }
}

/// A lone call's id has the form `local_{millis}`.
pub open spec fn is_lone_id(id: Seq<char>) -> bool {
    exists|ms: i64| id == lone_call_id(ms as int)
}

/// The ids are `local_{millis}_{position}`, or the single call found by the
/// call syntax has id `local_{millis}`.
pub open spec fn call_ids_ok(cs: Seq<ToolCall>) -> bool {
    indexed_ids(cs) || (cs.len() == 1 && is_lone_id(cs[0].id@))
}

// ---------------------------------------------------------------------------
// Executable extraction
// ---------------------------------------------------------------------------

/// The call in a native block's content: `Err(())` when its arguments do not
/// parse to a value.
fn native_call_of(content: &Vec<char>) -> (r: Result<Option<(String, JsonValue)>, ()>)
    ensures
        match r {
            Ok(Some((n, i))) => native_call(content@) == Some(Some((n@, i@))),
            Ok(None) => native_call(content@) == Some(None::<CallSpec>),
            Err(()) => native_call(content@) is None,
        },
{
    let prefix = chars_of("call:");
    if !matches_at(content, &prefix, 0) {
        return Ok(None);
    }
    let na = slice_chars(content, prefix.len(), content.len());
    assert(na@ =~= content@.skip("call:"@.len() as int));
    let brace = vec!['{'];
    assert(brace@ =~= seq!['{']);
    let b = match find_chars(&na, &brace) {
        Some(b) => b,
        None => {
            return Ok(None);
        },
    };
    let name = trim_range(&na, 0, b);
    assert(na@.take(b as int) =~= na@.subrange(0, b as int));
    if name.len() == 0 {
        return Ok(None);
    }
    let args = slice_chars(&na, b, na.len());
    assert(args@ =~= na@.skip(b as int));
    match try_parse_gemma_native_args(string_of(&args).as_str()) {
        Some(input) => Ok(Some((string_of(&name), input))),
        None => Err(()),
    }
}

/// Appends the native calls of `t`; `false` when an argument list does not
/// parse to a value.
fn push_native_calls(t: &Vec<char>, calls: &mut Vec<ToolCall>) -> (ok: bool)
    requires
        old(calls)@.len() == 0,
    ensures
        ok ==> native_calls_from(t@, 0) == Some(calls_view(final(calls)@)),
        !ok ==> native_calls_from(t@, 0) is None,
        indexed_ids(final(calls)@),
{
    let open_tag = chars_of("<|tool_call>");
    let close_tag = chars_of("<tool_call|>");
    proof {
        reveal_strlit("<|tool_call>");
        reveal_strlit("<tool_call|>");
    }
    let t_len = t.len();
    let mut offset: usize = 0;
    assert(calls_view(calls@) =~= Seq::<CallSpec>::empty());
    while offset < t_len
        invariant
            t_len == t@.len(),
            offset <= t_len,
            open_tag@ == "<|tool_call>"@,
            close_tag@ == "<tool_call|>"@,
            open_tag@.len() == 12,
            close_tag@.len() == 12,
            indexed_ids(calls@),
            native_calls_from(t@, 0) == match native_calls_from(t@, offset as int) {
                Some(more) => Some(calls_view(calls@) + more),
                None => None::<Seq<CallSpec>>,
            },
        decreases t_len - offset,
    {
        let found = find_chars_from(t, &open_tag, offset);
        if found.is_none() {
            proof {
                assert(native_calls_from(t@, offset as int) == Some(Seq::<CallSpec>::empty()));
                assert(calls_view(calls@) + Seq::<CallSpec>::empty() =~= calls_view(calls@));
            }
            offset = t_len;
        } else {
            let o = found.unwrap();
            let after_open = o + open_tag.len();
            let (content, next) = match find_chars_from(t, &close_tag, after_open) {
                Some(c) => (slice_chars(t, after_open, c), c + close_tag.len()),
                None => (slice_chars(t, after_open, t_len), t_len),
            };
            let ghost prev = calls@;
            match native_call_of(&content) {
                Err(()) => {
                    return false;
                },
                Ok(Some((name, input))) => {
                    let ms = now_millis();
                    let id = indexed_call_id_string(ms, calls.len());
                    calls.push(ToolCall { id, name, input });
                    proof {
                        assert(calls_view(calls@) =~= calls_view(prev) + seq![(name@, input@)]);
                        assert forall|i: int| 0 <= i < calls@.len() implies is_indexed_id(
                            #[trigger] calls@[i].id@,
                            i,
                        ) by {
                            if i < prev.len() {
                                assert(calls@[i] == prev[i]);
                                assert(is_indexed_id(prev[i].id@, i));
                            } else {
                                assert(calls@[i].id@ == indexed_call_id(ms as int, i));
                            }
                        }
                    }
                },
                Ok(None) => {
                    assert(calls_view(calls@) =~= calls_view(prev));
                },
            }
            proof {
                match native_calls_from(t@, next as int) {
                    Some(more) => {
                        assert(calls_view(calls@) + more =~= calls_view(prev) + (opt_seq(
                            native_call(content@)->0,
                        ) + more));
                    },
                    None => {},
                }
            }
            offset = next;
        }
    }
    proof {
        assert(native_calls_from(t@, offset as int) == Some(Seq::<CallSpec>::empty()));
        assert(calls_view(calls@) + Seq::<CallSpec>::empty() =~= calls_view(calls@));
    }
    true
}

/// Appends the calls of the legacy `tool_call\n{JSON}` format in `t`.
fn push_legacy_calls(t: &Vec<char>, calls: &mut Vec<ToolCall>)
    requires
        indexed_ids(old(calls)@),
    ensures
        calls_view(final(calls)@) == calls_view(old(calls)@) + legacy_calls_from(t@, 0),
        indexed_ids(final(calls)@),
{
    let marker = chars_of("tool_call\n");
    let end_nl = chars_of("\n</tool_call>");
    let end_tag = chars_of("</tool_call>");
    proof {
        reveal_strlit("tool_call\n");
    }
    let t_len = t.len();
    let mut offset: usize = 0;
    while offset < t_len
        invariant
            t_len == t@.len(),
            offset <= t_len,
            marker@ == "tool_call\n"@,
            marker@.len() == 10,
            end_nl@ == "\n</tool_call>"@,
            end_tag@ == "</tool_call>"@,
            indexed_ids(calls@),
            calls_view(old(calls)@) + legacy_calls_from(t@, 0) == calls_view(calls@)
                + legacy_calls_from(t@, offset as int),
        decreases t_len - offset,
    {
        let found = find_chars_from(t, &marker, offset);
        let js = if found.is_some() {
            found.unwrap() + marker.len()
        } else {
            t_len
        };
        if found.is_none() || js >= t_len {
            proof {
                assert(legacy_calls_from(t@, offset as int) =~= Seq::<CallSpec>::empty());
                assert(calls_view(calls@) + Seq::<CallSpec>::empty() =~= calls_view(calls@));
                assert(legacy_calls_from(t@, t_len as int) =~= Seq::<CallSpec>::empty());
            }
            offset = t_len;
        } else {
            let jl = match find_chars_from(t, &end_nl, js) {
                Some(x) => x - js,
                None => match find_chars_from(t, &end_tag, js) {
                    Some(x) => x - js,
                    None => t_len - js,
                },
            };
            assert(jl as int == legacy_json_len(t@, js as int));
            let ghost prev = calls@;
            let body = trim_range(t, js, js + jl);
            match json_tool_call_of(&body) {
                Some((name, input)) => {
                    let ms = now_millis();
                    let id = indexed_call_id_string(ms, calls.len());
                    calls.push(ToolCall { id, name, input });
                    proof {
                        assert(calls_view(calls@) =~= calls_view(prev) + seq![(name@, input@)]);
                        assert forall|i: int| 0 <= i < calls@.len() implies is_indexed_id(
                            #[trigger] calls@[i].id@,
                            i,
                        ) by {
                            if i < prev.len() {
                                assert(calls@[i] == prev[i]);
                                assert(is_indexed_id(prev[i].id@, i));
                            } else {
                                assert(calls@[i].id@ == indexed_call_id(ms as int, i));
                            }
                        }
                    }
                },
                None => {
                    assert(calls_view(calls@) =~= calls_view(prev));
                },
            }
            let next = if js + jl < t_len - 1 {
                js + jl + 1
            } else {
                t_len
            };
            proof {
                assert(calls_view(calls@) + legacy_calls_from(t@, next as int) =~= calls_view(prev)
                    + legacy_calls_from(t@, offset as int));
            }
            offset = next;
        }
    }
    proof {
        assert(legacy_calls_from(t@, offset as int) =~= Seq::<CallSpec>::empty());
    }
}

/// Parses all tool calls from the model output, in order, or `None` where the
/// native argument parser would not return.
pub fn try_parse_all_tool_calls_from_output(text: &str) -> (r: Option<Vec<ToolCall>>)
    ensures
        match r {
            Some(cs) => gemma_tool_calls(text@) == Some(calls_view(cs@)) && call_ids_ok(cs@),
            None => gemma_tool_calls(text@) is None,
        },
{
    let t = strip_eot_chars(&chars_of(text));
    let mut calls: Vec<ToolCall> = Vec::new();
    if !push_native_calls(&t, &mut calls) {
        return None;
    }
    if calls.len() > 0 {
        return Some(calls);
    }
    assert(calls_view(calls@) =~= Seq::<CallSpec>::empty());
    push_legacy_calls(&t, &mut calls);
    if calls.len() > 0 {
        assert(calls_view(calls@) =~= legacy_calls_from(t@, 0));
        return Some(calls);
    }
    push_xml_tag_calls(&t, &mut calls);
    if calls.len() > 0 {
        assert(calls_view(calls@) =~= xml_tag_calls(t@));
        return Some(calls);
    }
    let ghost before = calls@;
    match parse_json_call_syntax(string_of(&t).as_str()) {
        Some(tc) => {
            calls.push(tc);
            assert(calls_view(calls@) =~= seq![(tc.name@, tc.input@)]);
            assert(calls@[0] == tc);
        },
        None => {
            assert(calls_view(calls@) =~= Seq::<CallSpec>::empty());
        },
    }
    Some(calls)
}

/// Parses ALL tool calls from the model output in order.
/// Primary: native Gemma 4 format `<|tool_call>call:name{args}<tool_call|>`.
/// Secondary: bare `tool_call\n{JSON}\n</tool_call>` (legacy fallback).
/// Tertiary: `<tool_call>{JSON}</tool_call>` (XML fallback).
/// Last: a single `name({...})` call.
pub fn parse_all_tool_calls_from_output(text: &str) -> (r: Vec<ToolCall>)
    requires
        gemma_tool_calls(text@) is Some,
    ensures
        gemma_tool_calls(text@) == Some(calls_view(r@)),
        call_ids_ok(r@),
{
    match try_parse_all_tool_calls_from_output(text) {
        Some(cs) => cs,
        None => Vec::new(),
    }
}

} // verus!
