//! What a tool run leaves for the model: the calls of a reply that run, the
//! text of each result, and images or PDF pages read by a tool turned into
//! content blocks the model can see.
use vstd::prelude::*;
use crate::chat_storage::{ContentBlock, StoredBlockView, stored_blocks_view};
use crate::json::{Json, JsonValue, json_text, json_to_string, clone_json, lemma_entries_view, lemma_items_view, entries_view, items_view, member};
use crate::providers::claude_stream::{index_spec, str_or_empty, index_of, text_or_empty};
use crate::text::{chars_of, copy_string, str_concat, str_eq, starts_with, starts_with_chars, to_owned_string};

verus! {

/// The error when a reply to be run calls no tool.
pub const NO_TOOL_USE_ERROR: &'static str = "No tool use blocks found in message";

/// A call of a reply, as a mathematical value: id, name, input.
pub type CallView = (Seq<char>, Seq<char>, Json);

/// The calls of the blocks that run: every tool call but the questions put
/// to the user, which the user answers.
pub open spec fn runnable_calls(bs: Seq<StoredBlockView>) -> Seq<CallView>
    decreases bs.len(),
{
    if bs.len() == 0 {
        Seq::empty()
    } else {
        let rest = runnable_calls(bs.drop_last());
        match bs.last() {
            StoredBlockView::ToolUse(id, name, input, _) => if name != "ask_question"@ {
                rest.push((id, name, input))
            } else {
                rest
            },
            _ => rest,
        }
    }
}

pub open spec fn calls_view(v: Seq<(String, String, JsonValue)>) -> Seq<CallView> {
    v.map_values(|c: (String, String, JsonValue)| (c.0@, c.1@, c.2@))
}

/// The calls to run from a saved reply (see [`runnable_calls`]); an error
/// when the reply calls no tool at all.
pub fn calls_to_run(blocks: &Vec<ContentBlock>) -> (r: Result<Vec<(String, String, JsonValue)>, String>)
    ensures
        match r {
            Ok(cs) => (exists|i: int| 0 <= i < blocks@.len() && (#[trigger] blocks@[i]@) is ToolUse) && calls_view(
                cs@,
            ) == runnable_calls(stored_blocks_view(blocks@)),
            Err(e) => !(exists|i: int| 0 <= i < blocks@.len() && (#[trigger] blocks@[i]@) is ToolUse) && e@
                == NO_TOOL_USE_ERROR@,
        },
{
    let ghost bv = stored_blocks_view(blocks@);
    let mut out: Vec<(String, String, JsonValue)> = Vec::new();
    let mut any = false;
    let mut i: usize = 0;
    assert(calls_view(out@) =~= runnable_calls(bv.take(0)));
    while i < blocks.len()
        invariant
            i <= blocks@.len(),
            bv == stored_blocks_view(blocks@),
            calls_view(out@) == runnable_calls(bv.take(i as int)),
            any == exists|j: int| 0 <= j < i && (#[trigger] blocks@[j]@) is ToolUse,
        decreases blocks.len() - i,
    {
        assert(bv.take(i + 1).drop_last() =~= bv.take(i as int));
        assert(bv.take(i + 1).last() == blocks@[i as int]@);
        match &blocks[i] {
            ContentBlock::ToolUse { id, name, input, .. } => {
                any = true;
                if !str_eq(name.as_str(), "ask_question") {
                    let ghost prev = calls_view(out@);
                    out.push((copy_string(id), copy_string(name), clone_json(input)));
                    assert(calls_view(out@) =~= prev.push((id@, name@, input@)));
                }
            },
            _ => {},
        }
        i = i + 1;
    }
    assert(bv.take(i as int) =~= bv);
    if !any {
        return Err(to_owned_string(NO_TOOL_USE_ERROR));
    }
    Ok(out)
}

/// The result of a tool that could not run, or whose result could not be
/// read: a failure object naming the error (the error text is put in as
/// it is).
pub fn tool_error_text(error: &str) -> (r: String)
    ensures
        r@ == "{\"success\":false,\"error\":\""@ + error@ + "\"}"@,
{
    let a = str_concat("{\"success\":false,\"error\":\"", error);
    str_concat(a.as_str(), "\"}")
}

/// The tools whose result may be a file the model should see.
pub open spec fn is_binary_tool(name: Seq<char>) -> bool {
    name == "read_binary_file"@ || name == "read_pdf_page"@
}

/// Where the content of a file read by a tool is: in the result itself
/// (its `data`), in a file on disk (its `page_path`), or nowhere.
#[derive(Debug, PartialEq, Eq)]
pub enum BinarySource {
    Inline(String),
    File(String),
    Nothing,
}

pub open spec fn binary_source_spec(result: Json) -> (bool, Seq<char>) {
    let inline = str_or_empty(index_spec(result, "data"@));
    let path = str_or_empty(index_spec(result, "page_path"@));
    if inline.len() > 0 {
        (true, inline)
    } else if path.len() > 0 {
        (false, path)
    } else {
        (false, Seq::empty())
    }
}

/// Where the content of a file read by a tool is (see
/// [`binary_source_spec`]): the inline data first, then the path.
pub fn binary_source(result: &JsonValue) -> (r: BinarySource)
    ensures
        match r {
            BinarySource::Inline(d) => binary_source_spec(result@) == (true, d@) && d@.len() > 0,
            BinarySource::File(p) => binary_source_spec(result@) == (false, p@) && p@.len() > 0,
            BinarySource::Nothing => binary_source_spec(result@) == (false, Seq::<char>::empty()),
        },
{
    let inline = text_or_empty(index_of(result, "data"));
    if chars_of(inline.as_str()).len() > 0 {
        return BinarySource::Inline(inline);
    }
    let path = text_or_empty(index_of(result, "page_path"));
    if chars_of(path.as_str()).len() > 0 {
        return BinarySource::File(path);
    }
    BinarySource::Nothing
}

/// The digit of the standard base64 alphabet for a six-bit value.
pub open spec fn base64_digit(n: int) -> char {
    if n < 26 {
        (('A' as int) + n) as char
    } else if n < 52 {
        (('a' as int) + n - 26) as char
    } else if n < 62 {
        (('0' as int) + n - 52) as char
    } else if n == 62 {
        '+'
    } else {
        '/'
    }
}

/// What base64's `STANDARD` engine writes for `bytes`: each group of three
/// bytes as four digits of the standard alphabet, a last group of one or
/// two bytes padded with `=` to four characters.
pub open spec fn base64_standard_encode(bytes: Seq<u8>) -> Seq<char>
    decreases bytes.len(),
{
    if bytes.len() == 0 {
        Seq::empty()
    } else if bytes.len() == 1 {
        let a = bytes[0] as int;
        seq![base64_digit(a / 4), base64_digit((a % 4) * 16), '=', '=']
    } else if bytes.len() == 2 {
        let a = bytes[0] as int;
        let b = bytes[1] as int;
        seq![base64_digit(a / 4), base64_digit((a % 4) * 16 + b / 16), base64_digit((b % 16) * 4), '=']
    } else {
        let a = bytes[0] as int;
        let b = bytes[1] as int;
        let c = bytes[2] as int;
        seq![
            base64_digit(a / 4),
            base64_digit((a % 4) * 16 + b / 16),
            base64_digit((b % 16) * 4 + c / 64),
            base64_digit(c % 64),
        ] + base64_standard_encode(bytes.skip(3))
    }
}

/// `base64::engine::general_purpose::STANDARD.encode`: the standard
/// alphabet, with padding (see [`base64_standard_encode`]).
#[verifier::external_body]
pub(crate) fn base64_encode(bytes: &Vec<u8>) -> (r: String)
    ensures
        r@ == base64_standard_encode(bytes@),
{
    base64::Engine::encode(&base64::engine::general_purpose::STANDARD, bytes)
}

/// The content of a file read from disk, in base64.
pub fn file_data(bytes: &Vec<u8>) -> (r: String)
    ensures
        r@ == base64_standard_encode(bytes@),
{
    base64_encode(bytes)
}

/// A file's content as blocks the model can see: an image block for an
/// image, a document block for a PDF; none for an empty content or any
/// other type.
pub open spec fn binary_blocks(media_type: Seq<char>, data: Seq<char>) -> Option<Json> {
    if data.len() == 0 {
        None
    } else if starts_with(media_type, "image/"@) || media_type == "application/pdf"@ {
        Some(
            Json::Array(
                seq![
                    Json::Object(
                        seq![
                            (
                                "source"@,
                                Json::Object(
                                    seq![
                                        ("data"@, Json::Str(data)),
                                        ("media_type"@, Json::Str(media_type)),
                                        ("type"@, Json::Str("base64"@)),
                                    ],
                                ),
                            ),
                            (
                                "type"@,
                                Json::Str(
                                    if starts_with(media_type, "image/"@) {
                                        "image"@
                                    } else {
                                        "document"@
                                    },
                                ),
                            ),
                        ],
                    ),
                ],
            ),
        )
    } else {
        None
    }
}

/// What the model receives of a tool run: for a successful run of a tool
/// that reads files, when the file's content (`data`) is at hand and it is
/// an image or a PDF, the blocks that show it (as JSON text); else the
/// result as JSON text (empty when there is none). A failed run gives its
/// whole JSON text, as an error.
pub open spec fn tool_result_spec(
    name: Seq<char>,
    success: bool,
    result: Option<Json>,
    raw: Seq<char>,
    data: Seq<char>,
) -> (Seq<char>, bool) {
    if !success {
        (raw, true)
    } else {
        match result {
            Some(v) => if is_binary_tool(name) && binary_blocks(str_or_empty(index_spec(v, "media_type"@)), data) is Some {
                (json_text(binary_blocks(str_or_empty(index_spec(v, "media_type"@)), data)->Some_0), false)
            } else {
                (json_text(v), false)
            },
            None => (Seq::empty(), false),
        }
    }
}

fn blocks_of(media_type: &String, data: &String) -> (r: Option<JsonValue>)
    ensures
        match r {
            Some(v) => binary_blocks(media_type@, data@) == Some(v@),
            None => binary_blocks(media_type@, data@) is None,
        },
{
    if chars_of(data.as_str()).len() == 0 {
        return None;
    }
    let image = starts_with_chars(&chars_of(media_type.as_str()), &chars_of("image/"));
    if !image && !str_eq(media_type.as_str(), "application/pdf") {
        return None;
    }
    let source = vec![
        member("data", JsonValue::Str(copy_string(data))),
        member("media_type", JsonValue::Str(copy_string(media_type))),
        member("type", JsonValue::Str(to_owned_string("base64"))),
    ];
    proof {
        lemma_entries_view(source@);
    }
    let ghost sv = Json::Object(
        seq![("data"@, Json::Str(data@)), ("media_type"@, Json::Str(media_type@)), ("type"@, Json::Str("base64"@))],
    );
    assert(entries_view(source@) =~= sv->Object_0);
    let kind = if image {
        to_owned_string("image")
    } else {
        to_owned_string("document")
    };
    assert(kind@ == (if starts_with(media_type@, "image/"@) {
        "image"@
    } else {
        "document"@
    }));
    let block = vec![member("source", JsonValue::Object(source)), member("type", JsonValue::Str(kind))];
    proof {
        lemma_entries_view(block@);
    }
    assert(entries_view(block@) =~= seq![("source"@, sv), ("type"@, Json::Str(kind@))]);
    let items = vec![JsonValue::Object(block)];
    proof {
        lemma_items_view(items@);
    }
    let r = JsonValue::Array(items);
    assert(items_view(items@) =~= binary_blocks(media_type@, data@)->Some_0->Array_0);
    Some(r)
}

/// What the model receives of a tool run (see [`tool_result_spec`]).
pub fn tool_result_text(name: &str, success: bool, result: Option<&JsonValue>, raw: &str, data: &String) -> (r: (
    String,
    bool,
))
    ensures
        (r.0@, r.1) == tool_result_spec(
            name@,
            success,
            match result {
                Some(v) => Some(v@),
                None => None,
            },
            raw@,
            data@,
        ),
{
    if !success {
        return (to_owned_string(raw), true);
    }
    match result {
        Some(v) => {
            if str_eq(name, "read_binary_file") || str_eq(name, "read_pdf_page") {
                let media = text_or_empty(index_of(v, "media_type"));
                match blocks_of(&media, data) {
                    Some(b) => {
                        return (json_to_string(&b), false);
                    },
                    None => {},
                }
            }
            (json_to_string(v), false)
        },
        None => {
            let e = to_owned_string("");
            proof {
                reveal_strlit("");
            }
            assert(e@ =~= Seq::<char>::empty());
            (e, false)
        },
    }
}

} // verus!
