//! Flattening of message content into the plain text that local models read.
use vstd::prelude::*;
use crate::json::{Json, JsonValue, get_str_spec, json_text, json_get_str, json_to_string, items_view,
    group_json_view};
use crate::providers::{ContentBlock, MessageContent};
use crate::text::{join, strings_view, chars_of, string_of, push_all, copy_string, join_strings};

verus! {

/// The `text` strings of the items of a tool result array, in order.
pub open spec fn item_texts(a: Seq<Json>) -> Seq<Seq<char>>
    decreases a.len(),
{
    if a.len() == 0 {
        Seq::empty()
    } else {
        match get_str_spec(a.last(), "text"@) {
            Some(t) => item_texts(a.drop_last()).push(t),
            None => item_texts(a.drop_last()),
        }
    }
}

/// The text of a tool result's content: a string as is, the `text` fields
/// of an array's items one per line, anything else as compact JSON.
pub open spec fn tool_result_text(content: Json) -> Seq<char> {
    match content {
        Json::Str(s) => s,
        Json::Array(a) => join(item_texts(a), "\n"@),
        _ => json_text(content),
    }
}

/// The line a tool result contributes: nothing when empty, `[error: ...]`
/// for an error result, the text otherwise.
pub open spec fn tool_result_line(content: Json, is_error: Option<bool>) -> Option<Seq<char>> {
    let text = tool_result_text(content);
    if text.len() == 0 {
        None
    } else if is_error == Some(true) {
        Some("[error: "@ + text + "]"@)
    } else {
        Some(text)
    }
}

/// The text of a tool result's content.
pub fn tool_result_text_of(content: &JsonValue) -> (r: String)
    ensures
        r@ == tool_result_text(content@),
{
    broadcast use group_json_view;

    match content {
        JsonValue::Str(s) => copy_string(s),
        JsonValue::Array(arr) => {
            let ghost items = items_view(arr@);
            proof {
                crate::json::lemma_items_view(arr@);
            }
            let mut texts: Vec<String> = Vec::new();
            let mut i: usize = 0;
            assert(strings_view(texts@) =~= item_texts(items.take(0)));
            while i < arr.len()
                invariant
                    i <= arr@.len(),
                    items == arr@.map_values(|x: JsonValue| crate::json::json_view(x)),
                    strings_view(texts@) == item_texts(items.take(i as int)),
                decreases arr.len() - i,
            {
                assert(items.take(i + 1).drop_last() =~= items.take(i as int));
                assert(items.take(i + 1).last() == arr@[i as int]@);
                match json_get_str(&arr[i], "text") {
                    Some(t) => {
                        texts.push(copy_string(t));
                        assert(strings_view(texts@) =~= item_texts(items.take(i + 1)));
                    },
                    None => {},
                }
                i = i + 1;
            }
            assert(items.take(items.len() as int) =~= items);
            join_strings(&texts, "\n")
        },
        _ => json_to_string(content),
    }
}

/// The line a tool result contributes, if any.
pub fn tool_result_line_of(content: &JsonValue, is_error: Option<bool>) -> (r: Option<String>)
    ensures
        match r {
            Some(l) => tool_result_line(content@, is_error) == Some(l@),
            None => tool_result_line(content@, is_error) is None,
        },
{
    let text = tool_result_text_of(content);
    if chars_of(text.as_str()).len() == 0 {
        return None;
    }
    let is_err = match is_error {
        Some(b) => b,
        None => false,
    };
    if is_err {
        let mut v = chars_of("[error: ");
        push_all(&mut v, &chars_of(text.as_str()));
        push_all(&mut v, &chars_of("]"));
        Some(string_of(&v))
    } else {
        Some(text)
    }
}

/// The lines that `line` gives for the blocks, in order, skipping blocks
/// without one.
pub open spec fn block_lines(blocks: Seq<ContentBlock>, line: spec_fn(ContentBlock) -> Option<Seq<char>>) -> Seq<
    Seq<char>,
>
    decreases blocks.len(),
{
    if blocks.len() == 0 {
        Seq::empty()
    } else {
        match line(blocks.last()) {
            Some(t) => block_lines(blocks.drop_last(), line).push(t),
            None => block_lines(blocks.drop_last(), line),
        }
    }
}

/// The text of a message: its text, or its blocks' lines joined by newlines.
pub open spec fn content_text(content: MessageContent, line: spec_fn(ContentBlock) -> Option<Seq<char>>) -> Seq<
    char,
> {
    match content {
        MessageContent::Text(t) => t@,
        MessageContent::ContentBlocks(blocks) => join(block_lines(blocks@, line), "\n"@),
    }
}

} // verus!
