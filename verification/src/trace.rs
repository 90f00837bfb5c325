//! Traces of the agent loop: one step per tool call, with short snippets of
//! its input and result.
use vstd::prelude::*;
use crate::json::{JsonValue, json_text, json_to_string};
use crate::text::{chars_of, string_of, slice_chars, copy_string, to_owned_string};

verus! {

/// One tool call of an agent loop iteration.
#[derive(Debug)]
pub struct TraceStep {
    pub iteration: usize,
    pub tool: String,
    pub input_snippet: String,
    pub result_snippet: String,
    pub is_error: bool,
    pub duration_ms: u64,
}

/// The first `max_chars` characters of `s`, followed by `…` when `s` is longer.
pub open spec fn snippet(s: Seq<char>, max_chars: nat) -> Seq<char> {
    if s.len() <= max_chars {
        s
    } else {
        s.take(max_chars as int).push('…')
    }
}

/// Cuts `s` to `max_chars` characters, marking the cut with `…`.
pub fn truncate(s: &str, max_chars: usize) -> (r: String)
    ensures
        r@ == snippet(s@, max_chars as nat),
{
    let v = chars_of(s);
    if v.len() <= max_chars {
        string_of(&v)
    } else {
        let mut head = slice_chars(&v, 0, max_chars);
        head.push('…');
        string_of(&head)
    }
}

/// The trace step of a tool call: its input (as compact JSON) and result cut
/// to 200 characters.
pub fn make_step(
    iteration: usize,
    tool: &str,
    input: &JsonValue,
    result: &str,
    is_error: bool,
    duration_ms: u64,
) -> (r: TraceStep)
    ensures
        r.iteration == iteration,
        r.tool@ == tool@,
        r.input_snippet@ == snippet(json_text(input@), 200),
        r.result_snippet@ == snippet(result@, 200),
        r.is_error == is_error,
        r.duration_ms == duration_ms,
{
    TraceStep {
        iteration,
        tool: to_owned_string(tool),
        input_snippet: truncate(json_to_string(input).as_str(), 200),
        result_snippet: truncate(result, 200),
        is_error,
        duration_ms,
    }
}

/// Whether a finished loop leaves a trace: it made a tool call or used
/// input tokens.
pub open spec fn trace_worth_saving(step_count: nat, total_input_tokens: nat) -> bool {
    step_count > 0 || total_input_tokens > 0
}

pub fn should_save_trace(steps: &[TraceStep], total_input_tokens: usize) -> (r: bool)
    ensures
        r == trace_worth_saving(steps@.len(), total_input_tokens as nat),
{
    !(steps.len() == 0 && total_input_tokens == 0)
}

} // verus!
