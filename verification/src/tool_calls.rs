//! Extraction of tool calls from the text of local model output, in the
//! formats both local prompt styles accept: `<tool_call>{JSON}</tool_call>`
//! tags and the `name({...})` call syntax.
use vstd::prelude::*;
use crate::json::{Json, JsonValue, get_spec, get_str_spec, json_parse, parse_json, json_get, json_get_str};
use crate::local_gemma::args::match_close;
use crate::number_text::decimal_text;
use crate::providers::ToolCall;
use crate::text::{
    trim, find, find_from, occurs_at, unicode_whitespace, unicode_alphanumeric, lemma_find_from_props,
    chars_of, string_of, slice_chars, trim_range, find_chars, find_chars_from, char_is_whitespace,
    char_is_alphanumeric, copy_string, push_all,
};

verus! {

/// A parsed call: the tool name and its input.
pub type CallSpec = (Seq<char>, Json);

/// The call that a JSON value `{"name": ..., "input": ...}` describes: the
/// name must be a string; a missing input is an empty object.
pub open spec fn json_tool_call(j: Option<Json>) -> Option<CallSpec> {
    match j {
        Some(v) => match get_str_spec(v, "name"@) {
            Some(n) => Some(
                (
                    n,
                    match get_spec(v, "input"@) {
                        Some(i) => i,
                        None => Json::Object(Seq::empty()),
                    },
                ),
            ),
            None => None,
        },
        None => None,
    }
}

pub open spec fn opt_seq(c: Option<CallSpec>) -> Seq<CallSpec> {
    match c {
        Some(x) => seq![x],
        None => Seq::empty(),
    }
}

/// The calls of the `<tool_call>{JSON}</tool_call>` tags of `rem`, in order.
/// A tag without a closing tag ends the scan; a tag whose content is not a
/// call (bad JSON, no string `name`) is skipped.
pub open spec fn xml_tag_calls(rem: Seq<char>) -> Seq<CallSpec>
    decreases rem.len(),
{
    match find(rem, "<tool_call>"@) {
        None => Seq::empty(),
        Some(start) => {
            let cs = start + "<tool_call>"@.len();
            proof {
                reveal_strlit("<tool_call>");
                lemma_find_from_props(rem, "<tool_call>"@, 0);
                lemma_find_from_props(rem, "</tool_call>"@, cs);
            }
            match find_from(rem, "</tool_call>"@, cs) {
                None => Seq::empty(),
                Some(e) => opt_seq(json_tool_call(json_parse(trim(rem.subrange(cs, e)))))
                    + xml_tag_calls(rem.skip(e + "</tool_call>"@.len())),
            }
        },
    }
}

/// A character kept at the ends of a tool name.
pub open spec fn name_char(c: char) -> bool {
    unicode_alphanumeric(c) || c == '_'
}

/// `str::trim_matches(|c| !c.is_alphanumeric() && c != '_')`.
pub open spec fn trim_name_start(s: Seq<char>) -> Seq<char>
    decreases s.len(),
{
    if s.len() > 0 && !name_char(s[0]) {
        trim_name_start(s.drop_first())
    } else {
        s
    }
}

pub open spec fn trim_name_end(s: Seq<char>) -> Seq<char>
    decreases s.len(),
{
    if s.len() > 0 && !name_char(s.last()) {
        trim_name_end(s.drop_last())
    } else {
        s
    }
}

pub open spec fn trim_name(s: Seq<char>) -> Seq<char> {
    trim_name_end(trim_name_start(s))
}

/// Index just after the last whitespace character of `s[..i]`, or 0.
pub open spec fn word_start(s: Seq<char>, i: int) -> int
    decreases i,
{
    if i <= 0 || i > s.len() {
        0
    } else if unicode_whitespace(s[i - 1]) {
        i
    } else {
        word_start(s, i - 1)
    }
}

/// The last whitespace-separated word of text that does not end in whitespace.
pub open spec fn last_word(s: Seq<char>) -> Seq<char> {
    s.skip(word_start(s, s.len() as int))
}

/// `parse_json_call_syntax`: the call `name({...})` of the first `({` of `t`,
/// the name being the last word before it stripped of non-name characters
/// and the input the balanced `{...}` read as JSON.
pub open spec fn json_call_syntax(t: Seq<char>) -> Option<CallSpec> {
    match find(t, "({"@) {
        None => None,
        Some(p) => {
            let before = trim(t.take(p));
            let name = trim_name(last_word(before));
            if before.len() == 0 || name.len() == 0 {
                None
            } else {
                let rest = t.skip(p + 1);
                match match_close(rest, '{', '}', 0, 0) {
                    None => None,
                    Some(c) => match json_parse(rest.take(c + 1)) {
                        None => None,
                        Some(input) => Some((name, input)),
                    },
                }
            }
        },
    }
}

/// The id of the call at `index` made at `millis` (`local_{millis}_{index}`).
pub open spec fn indexed_call_id(millis: int, index: int) -> Seq<char> {
    "local_"@ + decimal_text(millis) + "_"@ + decimal_text(index)
}

/// The id of a lone call made at `millis` (`local_{millis}`).
pub open spec fn lone_call_id(millis: int) -> Seq<char> {
    "local_"@ + decimal_text(millis)
}

/// The calls `cs` as name and input.
pub open spec fn calls_view(cs: Seq<ToolCall>) -> Seq<CallSpec> {
    cs.map_values(|c: ToolCall| (c.name@, c.input@))
}

/// `id` is `local_{millis}_{index}` for some clock reading `millis`.
pub open spec fn is_indexed_id(id: Seq<char>, index: int) -> bool {
    exists|ms: i64| id == indexed_call_id(ms as int, index)
}

/// Every call's id is `local_{millis}_{position}` for some clock reading.
pub open spec fn indexed_ids(cs: Seq<ToolCall>) -> bool {
    forall|i: int| 0 <= i < cs.len() ==> is_indexed_id(#[trigger] cs[i].id@, i)
}

// ---------------------------------------------------------------------------
// Clock and number formatting
// ---------------------------------------------------------------------------

/// `chrono::Utc::now().timestamp_millis()`: the current time in milliseconds
/// since the Unix epoch. It depends on the clock, so nothing is promised of it.
#[verifier::external_body]
pub(crate) fn now_millis() -> i64 {
    chrono::Utc::now().timestamp_millis()
}

/// `usize::to_string`: the decimal digits of `v`, without leading zeros.
pub(crate) fn usize_to_string(v: usize) -> (r: String)
    ensures
        r@ == decimal_text(v as int),
{
    crate::number_text::u128_to_string(v as u128)
}

/// `format!("local_{}_{}", millis, index)`.
pub fn indexed_call_id_string(millis: i64, index: usize) -> (r: String)
    ensures
        r@ == indexed_call_id(millis as int, index as int),
{
    let mut v = chars_of("local_");
    push_all(&mut v, &chars_of(crate::number_text::i64_to_string(millis).as_str()));
    push_all(&mut v, &chars_of("_"));
    push_all(&mut v, &chars_of(usize_to_string(index).as_str()));
    string_of(&v)
}

/// `format!("local_{}", millis)`.
pub fn lone_call_id_string(millis: i64) -> (r: String)
    ensures
        r@ == lone_call_id(millis as int),
{
    let mut v = chars_of("local_");
    push_all(&mut v, &chars_of(crate::number_text::i64_to_string(millis).as_str()));
    string_of(&v)
}

// ---------------------------------------------------------------------------
// Executable extraction
// ---------------------------------------------------------------------------

/// The call described by the JSON text `json_text`, if it is one.
pub fn json_tool_call_of(json_text: &Vec<char>) -> (r: Option<(String, JsonValue)>)
    ensures
        match r {
            Some((n, i)) => json_tool_call(json_parse(json_text@)) == Some((n@, i@)),
            None => json_tool_call(json_parse(json_text@)) is None,
        },
{
    let parsed = parse_json(string_of(json_text).as_str());
    match parsed {
        Some(v) => match json_get_str(&v, "name") {
            Some(n) => {
                let input = match json_get(&v, "input") {
                    Some(i) => crate::json::clone_json(i),
                    None => JsonValue::Object(Vec::new()),
                };
                Some((copy_string(n), input))
            },
            None => None,
        },
        None => None,
    }
}

/// Appends the calls of the `<tool_call>{JSON}</tool_call>` tags of `t`,
/// numbering them after those already in `calls`.
pub fn push_xml_tag_calls(t: &Vec<char>, calls: &mut Vec<ToolCall>)
    requires
        indexed_ids(old(calls)@),
    ensures
        calls_view(final(calls)@) == calls_view(old(calls)@) + xml_tag_calls(t@),
        indexed_ids(final(calls)@),
{
    let open_tag = chars_of("<tool_call>");
    let close_tag = chars_of("</tool_call>");
    let mut rem = slice_chars(t, 0, t.len());
    assert(t@.subrange(0, t@.len() as int) =~= t@);
    loop
        invariant
            open_tag@ == "<tool_call>"@,
            close_tag@ == "</tool_call>"@,
            calls_view(old(calls)@) + xml_tag_calls(t@) == calls_view(calls@) + xml_tag_calls(rem@),
            indexed_ids(calls@),
        decreases rem@.len(),
    {
        let found = find_chars(&rem, &open_tag);
        if found.is_none() {
            assert(calls_view(calls@) + xml_tag_calls(rem@) =~= calls_view(calls@));
            return;
        }
        let start = found.unwrap();
        let rem_len = rem.len();
        proof {
            reveal_strlit("<tool_call>");
        }
        let cs = start + open_tag.len();
        let e = match find_chars_from(&rem, &close_tag, cs) {
            Some(e) => e,
            None => {
                assert(calls_view(calls@) + xml_tag_calls(rem@) =~= calls_view(calls@));
                return;
            },
        };
        let ghost prev = calls@;
        let body = trim_range(&rem, cs, e);
        match json_tool_call_of(&body) {
            Some((name, input)) => {
                let ms = now_millis();
                let id = indexed_call_id_string(ms, calls.len());
                calls.push(ToolCall { id, name, input });
                proof {
                    assert(calls_view(calls@) =~= calls_view(prev) + seq![(name@, input@)]);
                    assert forall|i: int| 0 <= i < calls@.len() implies is_indexed_id(
                        #[trigger] calls@[i].id@,
                        i,
                    ) by {
                        if i < prev.len() {
                            assert(calls@[i] == prev[i]);
                            assert(is_indexed_id(prev[i].id@, i));
                        } else {
                            assert(calls@[i].id@ == indexed_call_id(ms as int, i));
                        }
                    }
                }
            },
            None => {
                assert(calls_view(calls@) =~= calls_view(prev));
            },
        }
        let next = slice_chars(&rem, e + close_tag.len(), rem.len());
        proof {
            assert(next@ =~= rem@.skip(e + close_tag@.len()));
            assert(calls_view(calls@) + xml_tag_calls(next@) =~= calls_view(prev) + xml_tag_calls(
                rem@,
            ));
        }
        rem = next;
    }
}

pub proof fn lemma_trim_name_start_skip(s: Seq<char>, from: int)
    requires
        0 <= from <= s.len(),
    ensures
        trim_name_start(s.subrange(from, s.len() as int)) == s.subrange(
            skip_nonname_from(s, from),
            s.len() as int,
        ),
        from <= skip_nonname_from(s, from) <= s.len(),
    decreases s.len() - from,
{
    if from < s.len() && !name_char(s[from]) {
        assert(s.subrange(from, s.len() as int).drop_first() =~= s.subrange(from + 1, s.len() as int));
        lemma_trim_name_start_skip(s, from + 1);
    }
}

/// Index of the first name character of `s[from..]`, or the length.
pub open spec fn skip_nonname_from(s: Seq<char>, from: int) -> int
    decreases s.len() - from,
{
    if 0 <= from < s.len() && !name_char(s[from]) {
        skip_nonname_from(s, from + 1)
    } else {
        from
    }
}

/// Index one past the last name character of `s[..to]`, or 0.
pub open spec fn skip_nonname_back(s: Seq<char>, to: int) -> int
    decreases to,
{
    if 0 < to <= s.len() && !name_char(s[to - 1]) {
        skip_nonname_back(s, to - 1)
    } else {
        to
    }
}

pub proof fn lemma_trim_name_end_skip(s: Seq<char>, to: int)
    requires
        0 <= to <= s.len(),
    ensures
        trim_name_end(s.subrange(0, to)) == s.subrange(0, skip_nonname_back(s, to)),
        0 <= skip_nonname_back(s, to) <= to,
    decreases to,
{
    if 0 < to && !name_char(s[to - 1]) {
        assert(s.subrange(0, to).drop_last() =~= s.subrange(0, to - 1));
        lemma_trim_name_end_skip(s, to - 1);
    }
}

fn is_name_char(c: char) -> (r: bool)
    ensures
        r == name_char(c),
{
    char_is_alphanumeric(c) || c == '_'
}

/// `s` with non-name characters removed from both ends.
fn trim_name_chars(s: &Vec<char>) -> (r: Vec<char>)
    ensures
        r@ == trim_name(s@),
{
    let mut a: usize = 0;
    while a < s.len() && !is_name_char(s[a])
        invariant
            a <= s.len(),
            skip_nonname_from(s@, 0) == skip_nonname_from(s@, a as int),
        decreases s.len() - a,
    {
        a = a + 1;
    }
    proof {
        lemma_trim_name_start_skip(s@, 0);
        assert(s@.subrange(0, s@.len() as int) =~= s@);
    }
    let t = slice_chars(s, a, s.len());
    let mut b: usize = t.len();
    while b > 0 && !is_name_char(t[b - 1])
        invariant
            b <= t.len(),
            skip_nonname_back(t@, t@.len() as int) == skip_nonname_back(t@, b as int),
        decreases b,
    {
        b = b - 1;
    }
    proof {
        lemma_trim_name_end_skip(t@, t@.len() as int);
        assert(t@.subrange(0, t@.len() as int) =~= t@);
    }
    slice_chars(&t, 0, b)
}

/// The last word of `s` (text that does not end in whitespace).
fn last_word_chars(s: &Vec<char>) -> (r: Vec<char>)
    ensures
        r@ == last_word(s@),
{
    let mut i = s.len();
    while i > 0 && !char_is_whitespace(s[i - 1])
        invariant
            i <= s.len(),
            word_start(s@, s@.len() as int) == word_start(s@, i as int),
        decreases i,
    {
        i = i - 1;
    }
    assert(s@.skip(i as int) =~= s@.subrange(i as int, s@.len() as int));
    slice_chars(s, i, s.len())
}

/// The name and input of the `name({...})` call in `text`, if any.
pub fn json_call_syntax_chars(text: &Vec<char>) -> (r: Option<(String, JsonValue)>)
    ensures
        match r {
            Some((n, i)) => json_call_syntax(text@) == Some((n@, i@)),
            None => json_call_syntax(text@) is None,
        },
{
    let pat = chars_of("({");
    let p = match find_chars(text, &pat) {
        Some(p) => p,
        None => {
            return None;
        },
    };
    let text_len = text.len();
    let before = trim_range(text, 0, p);
    assert(text@.take(p as int) =~= text@.subrange(0, p as int));
    let name = trim_name_chars(&last_word_chars(&before));
    if before.len() == 0 || name.len() == 0 {
        return None;
    }
    proof {
        reveal_strlit("({");
    }
    let rest = slice_chars(text, p + 1, text_len);
    assert(rest@ =~= text@.skip(p + 1));
    let c = match crate::local_gemma::args::find_close_brackets(&rest, '{', '}') {
        Some(c) => c,
        None => {
            return None;
        },
    };
    proof {
        crate::local_gemma::args::lemma_match_close_bounds(rest@, '{', '}', 0, 0);
    }
    let json_text = slice_chars(&rest, 0, c + 1);
    assert(json_text@ =~= rest@.take(c + 1));
    match parse_json(string_of(&json_text).as_str()) {
        Some(input) => Some((string_of(&name), input)),
        None => None,
    }
}

/// Parses `name({"key": "val"})` syntax, walking braces to handle nested JSON.
pub fn parse_json_call_syntax(text: &str) -> (r: Option<ToolCall>)
    ensures
        match r {
            Some(c) => json_call_syntax(text@) == Some((c.name@, c.input@)) && exists|ms: i64|
                c.id@ == lone_call_id(ms as int),
            None => json_call_syntax(text@) is None,
        },
{
    match json_call_syntax_chars(&chars_of(text)) {
        Some((name, input)) => {
            let ms = now_millis();
            let id = lone_call_id_string(ms);
            Some(ToolCall { id, name, input })
        },
        None => None,
    }
}

} // verus!
