//! Rendering of earlier turns for a Gemma prompt: past tool calls in the
//! native `<|tool_call>call:name{args}<tool_call|>` form.
use vstd::prelude::*;
use crate::json::{Json, JsonValue, get_str_spec, json_get_str, items_view, entries_view, entry_view};
use crate::local_gemma::args::gemma_delim;
use crate::message_text::{tool_result_line, tool_result_line_of, block_lines, content_text};
use crate::providers::{ContentBlock, MessageContent};
use crate::text::{join, strings_view, chars_of, string_of, push_all, copy_string, join_strings, str_eq};

verus! {

/// `format_gemma_native_value`: strings between `<|"|>` delimiters, arrays
/// as `[item,...]`, objects as `{key:value,...}`, other values as JSON.
pub open spec fn native_value_text(v: Json) -> Seq<char>
    decreases v,
{
    match v {
        Json::Null => "null"@,
        Json::Bool(b) => if b {
            "true"@
        } else {
            "false"@
        },
        Json::Number(t) => t,
        Json::Str(s) => gemma_delim() + s + gemma_delim(),
        Json::Array(a) => "["@ + join(native_item_texts(a), ","@) + "]"@,
        Json::Object(m) => "{"@ + join(native_member_texts(m), ","@) + "}"@,
    }
}

pub open spec fn native_item_texts(a: Seq<Json>) -> Seq<Seq<char>>
    decreases a,
{
    if a.len() == 0 {
        Seq::empty()
    } else {
        native_item_texts(a.drop_last()).push(native_value_text(a.last()))
    }
}

pub open spec fn native_member_texts(m: Seq<(Seq<char>, Json)>) -> Seq<Seq<char>>
    decreases m,
{
    if m.len() == 0 {
        Seq::empty()
    } else {
        native_member_texts(m.drop_last()).push(m.last().0 + ":"@ + native_value_text(m.last().1))
    }
}

/// Converts a JSON value to the Gemma 4 native argument format.
#[verifier::loop_isolation(false)]
pub fn format_gemma_native_value(value: &JsonValue) -> (r: String)
    ensures
        r@ == native_value_text(value@),
    decreases value,
{
    match value {
        JsonValue::Null => crate::text::to_owned_string("null"),
        JsonValue::Bool(b) => if *b {
            crate::text::to_owned_string("true")
        } else {
            crate::text::to_owned_string("false")
        },
        JsonValue::Number(t) => copy_string(t),
        JsonValue::Str(s) => {
            let d = vec!['<', '|', '"', '|', '>'];
            assert(d@ =~= gemma_delim());
            let mut v = d.clone();
            push_all(&mut v, &chars_of(s.as_str()));
            push_all(&mut v, &d);
            string_of(&v)
        },
        JsonValue::Array(arr) => {
            let ghost items = items_view(arr@);
            proof {
                crate::json::lemma_items_view(arr@);
            }
            let mut texts: Vec<String> = Vec::new();
            let mut i: usize = 0;
            assert(strings_view(texts@) =~= native_item_texts(items.take(0)));
            while i < arr.len()
                invariant
                    i <= arr@.len(),
                    items == arr@.map_values(|x: JsonValue| crate::json::json_view(x)),
                    strings_view(texts@) == native_item_texts(items.take(i as int)),
                decreases arr.len() - i,
            {
                proof {
                    assert(decreases_to!(*value => *arr));
                    assert(decreases_to!(*arr => arr@));
                    assert(decreases_to!(arr@ => arr@[i as int]));
                }
                assert(items.take(i + 1).drop_last() =~= items.take(i as int));
                assert(items.take(i + 1).last() == arr@[i as int]@);
                let t = format_gemma_native_value(&arr[i]);
                texts.push(t);
                i = i + 1;
                assert(strings_view(texts@) =~= native_item_texts(items.take(i as int)));
            }
            assert(items.take(items.len() as int) =~= items);
            let mut v = chars_of("[");
            push_all(&mut v, &chars_of(join_strings(&texts, ",").as_str()));
            push_all(&mut v, &chars_of("]"));
            string_of(&v)
        },
        JsonValue::Object(m) => {
            let ghost members = entries_view(m@);
            proof {
                crate::json::lemma_entries_view(m@);
            }
            let mut texts: Vec<String> = Vec::new();
            let mut i: usize = 0;
            assert(strings_view(texts@) =~= native_member_texts(members.take(0)));
            while i < m.len()
                invariant
                    i <= m@.len(),
                    members == m@.map_values(|e: (String, JsonValue)| entry_view(e)),
                    strings_view(texts@) == native_member_texts(members.take(i as int)),
                decreases m.len() - i,
            {
                proof {
                    assert(decreases_to!(*value => *m));
                    assert(decreases_to!(*m => m@));
                    assert(decreases_to!(m@ => m@[i as int]));
                    assert(decreases_to!(m@[i as int] => m@[i as int].1));
                }
                assert(members.take(i + 1).drop_last() =~= members.take(i as int));
                assert(members.take(i + 1).last() == entry_view(m@[i as int]));
                let t = format_gemma_native_value(&m[i].1);
                let mut line = chars_of(m[i].0.as_str());
                push_all(&mut line, &chars_of(":"));
                push_all(&mut line, &chars_of(t.as_str()));
                texts.push(string_of(&line));
                i = i + 1;
                assert(strings_view(texts@) =~= native_member_texts(members.take(i as int)));
            }
            assert(members.take(members.len() as int) =~= members);
            let mut v = chars_of("{");
            push_all(&mut v, &chars_of(join_strings(&texts, ",").as_str()));
            push_all(&mut v, &chars_of("}"));
            string_of(&v)
        },
    }
}

/// The line a block contributes to the flattened text of a Gemma turn: text
/// as is, a past `speak` as its message, another past call in the native
/// call form, a tool result by `tool_result_line`; other blocks none.
pub open spec fn gemma_block_line(b: ContentBlock) -> Option<Seq<char>> {
    match b {
        ContentBlock::Text { text } => Some(text@),
        ContentBlock::ToolUse { name, input, .. } => if name@ == "speak"@ {
            get_str_spec(input@, "message"@)
        } else {
            Some("<|tool_call>call:"@ + name@ + native_value_text(input@) + "<tool_call|>"@)
        },
        ContentBlock::ToolResult { content, is_error, .. } => tool_result_line(content@, is_error),
        _ => None,
    }
}

pub open spec fn gemma_content_text(content: MessageContent) -> Seq<char> {
    content_text(content, |b: ContentBlock| gemma_block_line(b))
}

fn gemma_block_line_of(b: &ContentBlock) -> (r: Option<String>)
    ensures
        match r {
            Some(l) => gemma_block_line(*b) == Some(l@),
            None => gemma_block_line(*b) is None,
        },
{
    match b {
        ContentBlock::Text { text } => Some(copy_string(text)),
        ContentBlock::ToolUse { name, input, .. } => if str_eq(name.as_str(), "speak") {
            match json_get_str(input, "message") {
                Some(m) => Some(copy_string(m)),
                None => None,
            }
        } else {
            let mut v = chars_of("<|tool_call>call:");
            push_all(&mut v, &chars_of(name.as_str()));
            push_all(&mut v, &chars_of(format_gemma_native_value(input).as_str()));
            push_all(&mut v, &chars_of("<tool_call|>"));
            Some(string_of(&v))
        },
        ContentBlock::ToolResult { content, is_error, .. } => tool_result_line_of(content, *is_error),
        _ => None,
    }
}

/// The text of a message as a Gemma prompt shows it: its text, or the lines
/// of its blocks joined by newlines.
pub fn extract_text_content(content: &MessageContent) -> (r: String)
    ensures
        r@ == gemma_content_text(*content),
{
    match content {
        MessageContent::Text(t) => copy_string(t),
        MessageContent::ContentBlocks(blocks) => {
            let ghost f = |b: ContentBlock| gemma_block_line(b);
            let mut lines: Vec<String> = Vec::new();
            let mut i: usize = 0;
            assert(strings_view(lines@) =~= block_lines(blocks@.take(0), f));
            while i < blocks.len()
                invariant
                    i <= blocks@.len(),
                    f == (|b: ContentBlock| gemma_block_line(b)),
                    strings_view(lines@) == block_lines(blocks@.take(i as int), f),
                decreases blocks.len() - i,
            {
                assert(blocks@.take(i + 1).drop_last() =~= blocks@.take(i as int));
                assert(blocks@.take(i + 1).last() == blocks@[i as int]);
                match gemma_block_line_of(&blocks[i]) {
                    Some(l) => {
                        lines.push(l);
                        assert(strings_view(lines@) =~= block_lines(blocks@.take(i + 1), f));
                    },
                    None => {},
                }
                i = i + 1;
            }
            assert(blocks@.take(blocks@.len() as int) =~= blocks@);
            join_strings(&lines, "\n")
        },
    }
}

} // verus!
