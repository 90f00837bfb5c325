//! Tool-use instructions for the system prompt of local models.
use vstd::prelude::*;
use crate::json::{Json, JsonValue, };
use crate::providers::ClaudeTool;
use crate::text::{chars_of, string_of, push_all, str_eq};
use crate::tool_prompt::{flat_params, flat_params_of, signature_line, signature_line_of};

verus! {

/// The instructions that precede the list of available tools.
pub const XML_TOOL_GUIDE: &'static str = "\n\n---\n## TOOL USE\n\n\
        You were trained to call tools using <tool_call> tags. \
        You may emit one or more tool calls per response:\n\
        <tool_call>{\"name\": \"TOOL_NAME\", \"input\": {ARGUMENTS_AS_JSON}}</tool_call>\n\n\
        Rules:\n\
        - Use ONLY tools from the list below — NEVER invent tool names.\n\
        - Execute all knowledge-graph actions first, then call speak() last.\n\
        - Never repeat a tool call with identical arguments.\n\n\
        Examples of correct tool use:\n\
        \n\
        User: What is 12 × 8?\n\
        <tool_call>{\"name\": \"speak\", \"input\": {\"message\": \"12 × 8 = 96.\"}}</tool_call>\n\
        \n\
        User: Show me my tasks for today.\n\
        <tool_call>{\"name\": \"search\", \"input\": {\"query\": \"tasks due today\", \"class_iri\": \"foundation:Task\"}}</tool_call>\n\
        [tool result: {\"entities\": [{\"label\": \"Pay rent\", \"iri\": \"foundation:Task_1\"}], \"total\": 1}]\n\
        <tool_call>{\"name\": \"speak\", \"input\": {\"message\": \"You have 1 task today: Pay rent.\", \"iris\": [\"foundation:Task_1\"]}}</tool_call>\n\
        \n\
        User: What is foundation:Project_42?\n\
        <tool_call>{\"name\": \"describe_individual\", \"input\": {\"iris\": [\"foundation:Project_42\"]}}</tool_call>\n\
        [tool result: {\"label\": \"Website Redesign\", \"status\": \"InProgress\"}]\n\
        <tool_call>{\"name\": \"speak\", \"input\": {\"message\": \"Project 42 is 'Website Redesign', currently in progress.\"}}</tool_call>\n\
        \n\
        ## AVAILABLE TOOLS\n\n";

/// `schema_params_signature`: the parameter list shown for a tool.
pub fn schema_params_signature(schema: &JsonValue) -> (r: String)
    ensures
        r@ == flat_params(schema@),
{
    flat_params_of(schema)
}

/// The signature line of a tool; `None` where its description cut panics.
pub open spec fn tool_signature(tool: ClaudeTool) -> Option<Seq<char>> {
    signature_line(tool.name@, flat_params(tool.input_schema@), tool.description@)
}

/// The signature lines of the tools, each followed by a newline.
pub open spec fn tool_lines(tools: Seq<ClaudeTool>) -> Option<Seq<char>>
    decreases tools.len(),
{
    if tools.len() == 0 {
        Some(Seq::empty())
    } else {
        match tool_lines(tools.drop_last()) {
            Some(a) => match tool_signature(tools.last()) {
                Some(l) => Some(a + l + seq!['\n']),
                None => None,
            },
            None => None,
        }
    }
}

/// `format_tools_for_prompt`: nothing without tools, else the instructions
/// followed by one signature line per tool.
pub open spec fn tools_prompt(tools: Seq<ClaudeTool>) -> Option<Seq<char>> {
    if tools.len() == 0 {
        Some(Seq::empty())
    } else {
        match tool_lines(tools) {
            Some(l) => Some(XML_TOOL_GUIDE@ + l),
            None => None,
        }
    }
}

/// The signature line of a tool, `None` where its description cut panics.
pub fn try_compact_tool_signature(tool: &ClaudeTool) -> (r: Option<String>)
    ensures
        match r {
            Some(l) => tool_signature(*tool) == Some(l@),
            None => tool_signature(*tool) is None,
        },
{
    let params = schema_params_signature(&tool.input_schema);
    signature_line_of(tool.name.as_str(), params.as_str(), tool.description.as_str())
}

/// `- name(params) — description`, the description trimmed and cut to 80 bytes.
pub fn compact_tool_signature(tool: &ClaudeTool) -> (r: String)
    requires
        tool_signature(*tool) is Some,
    ensures
        tool_signature(*tool) == Some(r@),
{
    match try_compact_tool_signature(tool) {
        Some(l) => l,
        None => String::new(),
    }
}

/// The tool-use instructions for `tools`, `None` where a description cut panics.
pub fn try_format_tools_for_prompt(tools: &[ClaudeTool]) -> (r: Option<String>)
    ensures
        match r {
            Some(p) => tools_prompt(tools@) == Some(p@),
            None => tools_prompt(tools@) is None,
        },
{
    if tools.len() == 0 {
        return Some(String::new());
    }
    let mut out = chars_of(XML_TOOL_GUIDE);
    let mut i: usize = 0;
    assert(tools@.take(0) =~= Seq::<ClaudeTool>::empty());
    assert(out@ =~= XML_TOOL_GUIDE@ + Seq::<char>::empty());
    while i < tools.len()
        invariant
            i <= tools@.len(),
            tools@.len() > 0,
            tool_lines(tools@.take(i as int)) matches Some(l) && out@ == XML_TOOL_GUIDE@ + l,
        decreases tools.len() - i,
    {
        assert(tools@.take(i + 1).drop_last() =~= tools@.take(i as int));
        assert(tools@.take(i + 1).last() == tools@[i as int]);
        let line = match try_compact_tool_signature(&tools[i]) {
            Some(l) => l,
            None => {
                proof {
                    lemma_tool_lines_none(tools@, i as int + 1);
                }
                return None;
            },
        };
        push_all(&mut out, &chars_of(line.as_str()));
        out.push('\n');
        i = i + 1;
        proof {
            let l = tool_lines(tools@.take(i as int))->0;
            assert(out@ =~= XML_TOOL_GUIDE@ + l);
        }
    }
    assert(tools@.take(tools@.len() as int) =~= tools@);
    Some(string_of(&out))
}

/// Once a signature fails, every longer prefix fails.
pub proof fn lemma_tool_lines_none(tools: Seq<ClaudeTool>, k: int)
    requires
        0 < k <= tools.len(),
        tool_lines(tools.take(k)) is None,
    ensures
        tool_lines(tools) is None,
    decreases tools.len() - k,
{
    if k < tools.len() {
        assert(tools.take(k + 1).drop_last() =~= tools.take(k));
        lemma_tool_lines_none(tools, k + 1);
    } else {
        assert(tools.take(k) =~= tools);
    }
}

/// Generates the tool-calling instructions injected into the system prompt
/// of local models: nothing without tools, else the format description
/// followed by one signature line per tool.
pub fn format_tools_for_prompt(tools: &[ClaudeTool]) -> (r: String)
    requires
        tools_prompt(tools@) is Some,
    ensures
        tools_prompt(tools@) == Some(r@),
{
    match try_format_tools_for_prompt(tools) {
        Some(p) => p,
        None => String::new(),
    }
}

} // verus!
