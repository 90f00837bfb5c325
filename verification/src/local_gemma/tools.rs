//! Tool-use instructions for the system prompt of local models.
use vstd::prelude::*;
use crate::json::{Json, JsonValue, get_spec, get_str_spec, member_get, json_get, json_get_str, json_as_object, lemma_get_decreases,};
use crate::providers::ToolDefinition;
use crate::text::{chars_of, string_of, push_all, str_eq};
use crate::tool_prompt::{flat_params, flat_params_of, signature_line, signature_line_of};

verus! {

/// The instructions that precede the list of available tools.
pub const GEMMA_TOOL_GUIDE: &'static str = "\n\n---\n## TOOL USE\n\n\
        Call tools using the native Gemma 4 format:\n\
        <|tool_call>call:TOOL_NAME{arg1:<|\"|>string value<|\"|>,arg2:42}<tool_call|>\n\n\
        String values use <|\"|>...<|\"|> delimiters. Numbers and booleans are bare. \
        Arrays use [<|\"|>item<|\"|>,...] syntax.\n\n\
        Rules:\n\
        - Use ONLY tools from the list below — NEVER invent tool names.\n\
        - Never repeat a tool call with identical arguments.\n\n\
        Examples of correct tool use:\n\
        \n\
        User: Show me my tasks for today.\n\
        <|tool_call>call:search{query:<|\"|>tasks due today<|\"|>,class_iri:<|\"|>foundation:Task<|\"|>}<tool_call|>\n\
        [tool result: {\"entities\": [{\"label\": \"Pay rent\", \"iri\": \"foundation:Task_1\"}], \"total\": 1}]\n\
        \n\
        User: What is foundation:Project_42?\n\
        <|tool_call>call:describe_individual{iris:[<|\"|>foundation:Project_42<|\"|>]}<tool_call|>\n\
        [tool result: {\"label\": \"Website Redesign\", \"status\": \"InProgress\"}]\n\
        \n\
        ## AVAILABLE TOOLS\n\n";

/// The item schema of a lone `operations` property whose `items` are
/// objects (the array-mode tools).
pub open spec fn operations_items(schema: Json) -> Option<Json> {
    match get_spec(schema, "properties"@) {
        Some(Json::Object(props)) => if props.len() == 1 {
            match member_get(props, "operations"@) {
                Some(ops) => match get_spec(ops, "items"@) {
                    Some(items) => if get_str_spec(items, "type"@) == Some("object"@) {
                        Some(items)
                    } else {
                        None
                    },
                    None => None,
                },
                None => None,
            }
        } else {
            None
        },
        _ => None,
    }
}

pub proof fn lemma_operations_items_decreases(schema: Json)
    ensures
        operations_items(schema) matches Some(items) ==> decreases_to!(schema => items),
{
    lemma_get_decreases(schema, "properties"@);
    match get_spec(schema, "properties"@) {
        Some(p) => {
            lemma_get_decreases(p, "operations"@);
            match get_spec(p, "operations"@) {
                Some(ops) => {
                    lemma_get_decreases(ops, "items"@);
                },
                None => {},
            }
        },
        None => {},
    }
}

/// The parameter list of a tool schema; for an array-mode tool, the fields of
/// its operation objects as `operations: [{...}]`.
pub open spec fn gemma_params(schema: Json) -> Seq<char>
    decreases schema,
{
    proof {
        lemma_operations_items_decreases(schema);
    }
    match operations_items(schema) {
        Some(items) => "operations: [{"@ + gemma_params(items) + "}]"@,
        None => flat_params(schema),
    }
}

/// The array-mode item schema of `schema`, if it has one.
fn operations_items_of(schema: &JsonValue) -> (r: Option<&JsonValue>)
    ensures
        match r {
            Some(x) => operations_items(schema@) == Some(x@),
            None => operations_items(schema@) is None,
        },
{
    let props = match json_get(schema, "properties") {
        Some(p) => p,
        None => {
            return None;
        },
    };
    let m = match json_as_object(props) {
        Some(m) => m,
        None => {
            return None;
        },
    };
    proof {
        crate::json::lemma_entries_view(m@);
    }
    if m.len() != 1 {
        return None;
    }
    let ops = match json_get(props, "operations") {
        Some(o) => o,
        None => {
            return None;
        },
    };
    let items = match json_get(ops, "items") {
        Some(i) => i,
        None => {
            return None;
        },
    };
    match json_get_str(items, "type") {
        Some(t) => if str_eq(t.as_str(), "object") {
            Some(items)
        } else {
            None
        },
        None => None,
    }
}

/// `schema_params_signature`: the parameter list shown for a tool.
pub fn schema_params_signature(schema: &JsonValue) -> (r: String)
    ensures
        r@ == gemma_params(schema@),
    decreases schema@,
{
    proof {
        lemma_operations_items_decreases(schema@);
    }
    match operations_items_of(schema) {
        Some(items) => {
            let inner = schema_params_signature(items);
            let mut v = chars_of("operations: [{");
            push_all(&mut v, &chars_of(inner.as_str()));
            push_all(&mut v, &chars_of("}]"));
            string_of(&v)
        },
        None => flat_params_of(schema),
    }
}

/// The signature line of a tool; `None` where its description cut panics.
pub open spec fn tool_signature(tool: ToolDefinition) -> Option<Seq<char>> {
    signature_line(tool.name@, gemma_params(tool.input_schema@), tool.description@)
}

/// The signature lines of the tools, each followed by a newline.
pub open spec fn tool_lines(tools: Seq<ToolDefinition>) -> Option<Seq<char>>
    decreases tools.len(),
{
    if tools.len() == 0 {
        Some(Seq::empty())
    } else {
        match tool_lines(tools.drop_last()) {
            Some(a) => match tool_signature(tools.last()) {
                Some(l) => Some(a + l + seq!['\n']),
                None => None,
            },
            None => None,
        }
    }
}

/// `format_tools_for_prompt`: nothing without tools, else the instructions
/// followed by one signature line per tool.
pub open spec fn tools_prompt(tools: Seq<ToolDefinition>) -> Option<Seq<char>> {
    if tools.len() == 0 {
        Some(Seq::empty())
    } else {
        match tool_lines(tools) {
            Some(l) => Some(GEMMA_TOOL_GUIDE@ + l),
            None => None,
        }
    }
}

/// The signature line of a tool, `None` where its description cut panics.
pub fn try_compact_tool_signature(tool: &ToolDefinition) -> (r: Option<String>)
    ensures
        match r {
            Some(l) => tool_signature(*tool) == Some(l@),
            None => tool_signature(*tool) is None,
        },
{
    let params = schema_params_signature(&tool.input_schema);
    signature_line_of(tool.name.as_str(), params.as_str(), tool.description.as_str())
}

/// `- name(params) — description`, the description trimmed and cut to 80 bytes.
pub fn compact_tool_signature(tool: &ToolDefinition) -> (r: String)
    requires
        tool_signature(*tool) is Some,
    ensures
        tool_signature(*tool) == Some(r@),
{
    match try_compact_tool_signature(tool) {
        Some(l) => l,
        None => String::new(),
    }
}

/// The tool-use instructions for `tools`, `None` where a description cut panics.
pub fn try_format_tools_for_prompt(tools: &[ToolDefinition]) -> (r: Option<String>)
    ensures
        match r {
            Some(p) => tools_prompt(tools@) == Some(p@),
            None => tools_prompt(tools@) is None,
        },
{
    if tools.len() == 0 {
        return Some(String::new());
    }
    let mut out = chars_of(GEMMA_TOOL_GUIDE);
    let mut i: usize = 0;
    assert(tools@.take(0) =~= Seq::<ToolDefinition>::empty());
    assert(out@ =~= GEMMA_TOOL_GUIDE@ + Seq::<char>::empty());
    while i < tools.len()
        invariant
            i <= tools@.len(),
            tools@.len() > 0,
            tool_lines(tools@.take(i as int)) matches Some(l) && out@ == GEMMA_TOOL_GUIDE@ + l,
        decreases tools.len() - i,
    {
        assert(tools@.take(i + 1).drop_last() =~= tools@.take(i as int));
        assert(tools@.take(i + 1).last() == tools@[i as int]);
        let line = match try_compact_tool_signature(&tools[i]) {
            Some(l) => l,
            None => {
                proof {
                    lemma_tool_lines_none(tools@, i as int + 1);
                }
                return None;
            },
        };
        push_all(&mut out, &chars_of(line.as_str()));
        out.push('\n');
        i = i + 1;
        proof {
            let l = tool_lines(tools@.take(i as int))->0;
            assert(out@ =~= GEMMA_TOOL_GUIDE@ + l);
        }
    }
    assert(tools@.take(tools@.len() as int) =~= tools@);
    Some(string_of(&out))
}

/// Once a signature fails, every longer prefix fails.
pub proof fn lemma_tool_lines_none(tools: Seq<ToolDefinition>, k: int)
    requires
        0 < k <= tools.len(),
        tool_lines(tools.take(k)) is None,
    ensures
        tool_lines(tools) is None,
    decreases tools.len() - k,
{
    if k < tools.len() {
        assert(tools.take(k + 1).drop_last() =~= tools.take(k));
        lemma_tool_lines_none(tools, k + 1);
    } else {
        assert(tools.take(k) =~= tools);
    }
}

/// Generates the tool-calling instructions injected into the system prompt
/// of local models: nothing without tools, else the format description
/// followed by one signature line per tool.
pub fn format_tools_for_prompt(tools: &[ToolDefinition]) -> (r: String)
    requires
        tools_prompt(tools@) is Some,
    ensures
        tools_prompt(tools@) == Some(r@),
{
    match try_format_tools_for_prompt(tools) {
        Some(p) => p,
        None => String::new(),
    }
}

} // verus!
