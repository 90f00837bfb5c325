//! Rendering of earlier turns for a prompt that uses `<tool_call>` tags.
use vstd::prelude::*;
use crate::json::{get_str_spec, json_text, json_get_str, json_to_string};
use crate::message_text::{tool_result_line, tool_result_line_of, block_lines, content_text};
use crate::providers::{ContentBlock, MessageContent};
use crate::text::{strings_view, chars_of, string_of, push_all, copy_string, join_strings, str_eq};

verus! {

/// The line a block contributes: text as is, a past `speak` as its message,
/// another past call as `[called name(input JSON)]`, a tool result by
/// `tool_result_line`; other blocks none.
pub open spec fn xml_block_line(b: ContentBlock) -> Option<Seq<char>> {
    match b {
        ContentBlock::Text { text } => Some(text@),
        ContentBlock::ToolUse { name, input, .. } => if name@ == "speak"@ {
            get_str_spec(input@, "message"@)
        } else {
            Some("[called "@ + name@ + "("@ + json_text(input@) + ")]"@)
        },
        ContentBlock::ToolResult { content, is_error, .. } => tool_result_line(content@, is_error),
        _ => None,
    }
}

pub open spec fn xml_content_text(content: MessageContent) -> Seq<char> {
    content_text(content, |b: ContentBlock| xml_block_line(b))
}

fn xml_block_line_of(b: &ContentBlock) -> (r: Option<String>)
    ensures
        match r {
            Some(l) => xml_block_line(*b) == Some(l@),
            None => xml_block_line(*b) is None,
        },
{
    match b {
        ContentBlock::Text { text } => Some(copy_string(text)),
        ContentBlock::ToolUse { name, input, .. } => if str_eq(name.as_str(), "speak") {
            match json_get_str(input, "message") {
                Some(m) => Some(copy_string(m)),
                None => None,
            }
        } else {
            let mut v = chars_of("[called ");
            push_all(&mut v, &chars_of(name.as_str()));
            push_all(&mut v, &chars_of("("));
            push_all(&mut v, &chars_of(json_to_string(input).as_str()));
            push_all(&mut v, &chars_of(")]"));
            Some(string_of(&v))
        },
        ContentBlock::ToolResult { content, is_error, .. } => tool_result_line_of(content, *is_error),
        _ => None,
    }
}

/// The text of a message as the prompt shows it: its text, or the lines of
/// its blocks joined by newlines.
pub fn extract_text_content(content: &MessageContent) -> (r: String)
    ensures
        r@ == xml_content_text(*content),
{
    match content {
        MessageContent::Text(t) => copy_string(t),
        MessageContent::ContentBlocks(blocks) => {
            let ghost f = |b: ContentBlock| xml_block_line(b);
            let mut lines: Vec<String> = Vec::new();
            let mut i: usize = 0;
            assert(strings_view(lines@) =~= block_lines(blocks@.take(0), f));
            while i < blocks.len()
                invariant
                    i <= blocks@.len(),
                    f == (|b: ContentBlock| xml_block_line(b)),
                    strings_view(lines@) == block_lines(blocks@.take(i as int), f),
                decreases blocks.len() - i,
            {
                assert(blocks@.take(i + 1).drop_last() =~= blocks@.take(i as int));
                assert(blocks@.take(i + 1).last() == blocks@[i as int]);
                match xml_block_line_of(&blocks[i]) {
                    Some(l) => {
                        lines.push(l);
                        assert(strings_view(lines@) =~= block_lines(blocks@.take(i + 1), f));
                    },
                    None => {},
                }
                i = i + 1;
            }
            assert(blocks@.take(blocks@.len() as int) =~= blocks@);
            join_strings(&lines, "\n")
        },
    }
}

} // verus!
