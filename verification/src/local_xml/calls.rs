//! Tool calls in the output of a local model prompted with
//! `<tool_call>{JSON}</tool_call>` tags.
use vstd::prelude::*;
use crate::local_xml::parse::{strip_eot_spec, strip_eot_chars};
use crate::providers::ToolCall;
use crate::text::{chars_of, string_of};
use crate::tool_calls::{
    CallSpec, opt_seq, xml_tag_calls, json_call_syntax, calls_view, indexed_ids, lone_call_id,
    push_xml_tag_calls, parse_json_call_syntax,
};

verus! {

/// `parse_all_tool_calls_from_output`: the calls of the `<tool_call>` tags of
/// the cleaned output, or, when there are none, the single `name({...})` call.
pub open spec fn xml_tool_calls(text: Seq<char>) -> Seq<CallSpec> {
    let t = strip_eot_spec(text);
    let xml = xml_tag_calls(t);
    if xml.len() > 0 {
        xml
    } else {
        opt_seq(json_call_syntax(t))
    }
}

/// Parses all `<tool_call>` tags from the model output in order. Falls back to
/// a single `name({...})` call when no tags are found.
pub fn parse_all_tool_calls_from_output(text: &str) -> (r: Vec<ToolCall>)
    ensures
        calls_view(r@) == xml_tool_calls(text@),
        indexed_ids(r@) || (r@.len() == 1 && exists|ms: i64| r@[0].id@ == lone_call_id(ms as int)),
{
    let t = strip_eot_chars(&chars_of(text));
    let mut calls: Vec<ToolCall> = Vec::new();
    assert(calls_view(calls@) =~= Seq::<CallSpec>::empty());
    push_xml_tag_calls(&t, &mut calls);
    if calls.len() > 0 {
        assert(calls_view(calls@) =~= xml_tag_calls(t@));
        return calls;
    }
    match parse_json_call_syntax(string_of(&t).as_str()) {
        Some(tc) => {
            calls.push(tc);
            assert(calls_view(calls@) =~= seq![(tc.name@, tc.input@)]);
            assert(calls@[0] == tc);
        },
        None => {
            assert(calls_view(calls@) =~= Seq::<CallSpec>::empty());
        },
    }
    calls
}

} // verus!
