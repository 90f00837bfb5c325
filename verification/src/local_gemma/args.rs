//! Parser of the arguments of Gemma 4 native tool calls:
//! `{key:<|"|>text<|"|>,n:42,items:[<|"|>a<|"|>,<|"|>b<|"|>]}`.
//!
//! Every spec function returns `None` exactly where the parser does not
//! return a value: an unclosed `[` or `{` whose text cannot be cut before its
//! last character (the slice panics), or an array whose next item consumes
//! nothing (the loop never ends).
use vstd::prelude::*;
use crate::json::{Json, JsonValue, insert_spec, object_insert, json_number_text, canonical_number,
    items_view, entries_view, group_json_view};
use crate::number_text::{i64_text, decimal_text, parse_i64, i64_to_string};
use crate::text::{
    trim, trim_start, starts_with, find, is_ascii_char, lemma_trim_len, lemma_trim_start_len,
    chars_of, string_of, slice_chars, trim_range, trim_start_from, find_chars, chars_eq,
    matches_at, lemma_find_from_props, occurs_at,
};

verus! {

/// The Gemma 4 string delimiter token `<|"|>`.
pub open spec fn gemma_delim() -> Seq<char> {
    seq!['<', '|', '"', '|', '>']
}

/// `str::trim_start_matches(',')`.
pub open spec fn strip_commas(s: Seq<char>) -> Seq<char>
    decreases s.len(),
{
    if s.len() > 0 && s[0] == ',' {
        strip_commas(s.drop_first())
    } else {
        s
    }
}

/// What the loops continue with after a value: `rest.trim_start_matches(',').trim()`.
pub open spec fn next_remaining(rest: Seq<char>) -> Seq<char> {
    trim(strip_commas(rest))
}

/// A character that ends a bare value.
pub open spec fn is_stop(c: char) -> bool {
    c == ',' || c == '}' || c == ']'
}

/// Index of the first `,`, `}` or `]` at or after `i`, or the length.
pub open spec fn first_stop_from(s: Seq<char>, i: int) -> int
    decreases s.len() - i,
{
    if i < 0 || i >= s.len() {
        s.len() as int
    } else if is_stop(s[i]) {
        i
    } else {
        first_stop_from(s, i + 1)
    }
}

/// Index of the character that closes the bracket opened before `i`, counting
/// nesting depth (`depth` open brackets so far; a close at depth at most 1 ends
/// the scan).
pub open spec fn match_close(s: Seq<char>, open: char, close: char, i: int, depth: nat) -> Option<int>
    decreases s.len() - i,
{
    if i < 0 || i >= s.len() {
        None
    } else if s[i] == open {
        match_close(s, open, close, i + 1, depth + 1)
    } else if s[i] == close {
        if depth <= 1 {
            Some(i)
        } else {
            match_close(s, open, close, i + 1, (depth - 1) as nat)
        }
    } else {
        match_close(s, open, close, i + 1, depth)
    }
}

/// The text between a bracket at the start of `s` and its matching close,
/// and the text after the close. Without a matching close the inner text
/// runs to the character before the last and nothing follows; that cut
/// panics when `s` has a single character or ends in a non-ASCII one.
pub open spec fn bracket_inner(s: Seq<char>, open: char, close: char) -> Option<(Seq<char>, Seq<char>)> {
    match match_close(s, open, close, 0, 0) {
        Some(c) => Some((s.subrange(1, c), s.skip(c + 1))),
        None => if s.len() >= 2 && is_ascii_char(s.last()) {
            Some((s.subrange(1, s.len() - 1), Seq::empty()))
        } else {
            None
        },
    }
}

/// The value of a bare (undelimited) token: `true`, `false`, `null`, an
/// integer that fits in an `i64`, a JSON number, or else the text itself.
pub open spec fn bare_json(b: Seq<char>) -> Json {
    if b == seq!['t', 'r', 'u', 'e'] {
        Json::Bool(true)
    } else if b == seq!['f', 'a', 'l', 's', 'e'] {
        Json::Bool(false)
    } else if b == seq!['n', 'u', 'l', 'l'] {
        Json::Null
    } else {
        match i64_text(b) {
            Some(i) => Json::Number(decimal_text(i as int)),
            None => match json_number_text(b) {
                Some(t) => Json::Number(t),
                None => Json::Str(b),
            },
        }
    }
}

pub proof fn lemma_match_close_bounds(s: Seq<char>, open: char, close: char, i: int, depth: nat)
    ensures
        match_close(s, open, close, i, depth) matches Some(c) ==> i <= c < s.len() && s[c] == close,
    decreases s.len() - i,
{
    if 0 <= i < s.len() {
        if s[i] == open {
            lemma_match_close_bounds(s, open, close, i + 1, depth + 1);
        } else if s[i] == close {
            if depth > 1 {
                lemma_match_close_bounds(s, open, close, i + 1, (depth - 1) as nat);
            }
        } else {
            lemma_match_close_bounds(s, open, close, i + 1, depth);
        }
    }
}

pub proof fn lemma_bracket_inner_len(s: Seq<char>, open: char, close: char)
    requires
        open != close,
    ensures
        s.len() > 0 && s[0] == open ==> match bracket_inner(s, open, close) {
            Some((inner, rest)) => inner.len() < s.len() && rest.len() < s.len(),
            None => true,
        },
{
    if s.len() > 0 && s[0] == open {
        lemma_match_close_bounds(s, open, close, 0, 0);
        lemma_match_close_bounds(s, open, close, 1, 1);
        assert(match_close(s, open, close, 0, 0) == match_close(s, open, close, 1, 1));
    }
}

/// `parse_gemma_value`: the value at the start of `s` and the text after it.
pub open spec fn gemma_value(s: Seq<char>) -> Option<(Json, Seq<char>)>
    decreases s.len(), 0int,
{
    proof {
        lemma_bracket_inner_len(s, '[', ']');
        lemma_bracket_inner_len(s, '{', '}');
    }
    if starts_with(s, gemma_delim()) {
        let rest = s.skip(5);
        match find(rest, gemma_delim()) {
            Some(e) => Some((Json::Str(rest.take(e)), rest.skip(e + 5))),
            None => Some((Json::Str(rest), Seq::empty())),
        }
    } else if s.len() > 0 && s[0] == '[' {
        match bracket_inner(s, '[', ']') {
            Some((inner, rest)) => match gemma_array(inner) {
                Some(a) => Some((a, rest)),
                None => None,
            },
            None => None,
        }
    } else if s.len() > 0 && s[0] == '{' {
        match bracket_inner(s, '{', '}') {
            Some((inner, rest)) => match gemma_object(inner) {
                Some(o) => Some((o, rest)),
                None => None,
            },
            None => None,
        }
    } else {
        let end = first_stop_from(s, 0);
        Some((bare_json(trim(s.take(end))), s.skip(end)))
    }
}

/// `parse_gemma_array` on an already trimmed remainder: the items in order.
pub open spec fn gemma_items(rem: Seq<char>) -> Option<Seq<Json>>
    decreases rem.len(), 1int,
{
    if rem.len() == 0 {
        Some(Seq::empty())
    } else {
        match gemma_value(rem) {
            Some((v, rest)) => {
                let nxt = next_remaining(rest);
                if nxt.len() < rem.len() {
                    match gemma_items(nxt) {
                        Some(items) => Some(seq![v] + items),
                        None => None,
                    }
                } else {
                    None
                }
            },
            None => None,
        }
    }
}

/// `parse_gemma_array`: the array of the comma-separated values in `content`.
pub open spec fn gemma_array(content: Seq<char>) -> Option<Json>
    decreases content.len(), 2int,
{
    proof {
        lemma_trim_len(content);
    }
    match gemma_items(trim(content)) {
        Some(items) => Some(Json::Array(items)),
        None => None,
    }
}

/// `parse_gemma_object` on an already trimmed remainder, with the members
/// read so far in `acc`.
pub open spec fn gemma_members(rem: Seq<char>, acc: Seq<(Seq<char>, Json)>) -> Option<
    Seq<(Seq<char>, Json)>,
>
    decreases rem.len(), 1int,
{
    if rem.len() == 0 {
        Some(acc)
    } else {
        match find(rem, seq![':']) {
            None => Some(acc),
            Some(c) => {
                let key = trim(rem.take(c));
                let after = trim_start(rem.skip(c + 1));
                if key.len() == 0 {
                    Some(acc)
                } else {
                    proof {
                        lemma_trim_start_len(rem.skip(c + 1));
                    }
                    if after.len() < rem.len() {
                        match gemma_value(after) {
                            Some((v, rest)) => {
                                let nxt = next_remaining(rest);
                                if nxt.len() < rem.len() {
                                    gemma_members(nxt, insert_spec(acc, key, v))
                                } else {
                                    None
                                }
                            },
                            None => None,
                        }
                    } else {
                        None
                    }
                }
            },
        }
    }
}

/// `parse_gemma_object`: the object of the `key:value` pairs in `content`;
/// a repeated key keeps its last value.
pub open spec fn gemma_object(content: Seq<char>) -> Option<Json>
    decreases content.len(), 2int,
{
    proof {
        lemma_trim_len(content);
    }
    match gemma_members(trim(content), Seq::empty()) {
        Some(m) => Some(Json::Object(m)),
        None => None,
    }
}

/// `parse_gemma_native_args`: the arguments object of `{...}`, or an empty
/// object when the text does not start with `{`.
pub open spec fn gemma_args(args: Seq<char>) -> Option<Json> {
    let s = trim(args);
    if s.len() > 0 && s[0] == '{' {
        if s.last() == '}' {
            gemma_object(s.subrange(1, s.len() - 1))
        } else {
            gemma_object(s.skip(1))
        }
    } else {
        Some(Json::Object(Seq::empty()))
    }
}

// ---------------------------------------------------------------------------
// Executable parser
// ---------------------------------------------------------------------------

fn delim_chars() -> (r: Vec<char>)
    ensures
        r@ == gemma_delim(),
{
    let r = vec!['<', '|', '"', '|', '>'];
    assert(r@ =~= gemma_delim());
    r
}

/// Index of the first character of `s[from..]` that is not a comma.
fn skip_commas(s: &Vec<char>, from: usize) -> (k: usize)
    requires
        from <= s.len(),
    ensures
        from <= k <= s.len(),
        strip_commas(s@.subrange(from as int, s@.len() as int)) == s@.subrange(k as int, s@.len() as int),
{
    let mut k = from;
    while k < s.len() && s[k] == ','
        invariant
            from <= k <= s.len(),
            strip_commas(s@.subrange(from as int, s@.len() as int)) == strip_commas(
                s@.subrange(k as int, s@.len() as int),
            ),
        decreases s.len() - k,
    {
        assert(s@.subrange(k as int, s@.len() as int).drop_first() =~= s@.subrange(
            k + 1,
            s@.len() as int,
        ));
        k = k + 1;
    }
    k
}

/// `rest.trim_start_matches(',').trim()`.
fn next_remaining_chars(rest: &Vec<char>) -> (r: Vec<char>)
    ensures
        r@ == next_remaining(rest@),
{
    let k = skip_commas(rest, 0);
    assert(rest@.subrange(0, rest@.len() as int) =~= rest@);
    trim_range(rest, k, rest.len())
}

/// Index of the first `,`, `}` or `]`, or the length.
fn first_stop(s: &Vec<char>) -> (r: usize)
    ensures
        r as int == first_stop_from(s@, 0),
        r <= s.len(),
{
    let mut i: usize = 0;
    while i < s.len() && !(s[i] == ',' || s[i] == '}' || s[i] == ']')
        invariant
            i <= s.len(),
            first_stop_from(s@, 0) == first_stop_from(s@, i as int),
        decreases s.len() - i,
    {
        i = i + 1;
    }
    i
}

/// Index of the close that matches the bracket opened at the start of `s`.
pub fn find_close_brackets(s: &Vec<char>, open: char, close: char) -> (r: Option<usize>)
    ensures
        match r {
            Some(c) => match_close(s@, open, close, 0, 0) == Some(c as int),
            None => match_close(s@, open, close, 0, 0) is None,
        },
{
    let mut i: usize = 0;
    let mut depth: usize = 0;
    while i < s.len()
        invariant
            i <= s.len(),
            depth <= i,
            match_close(s@, open, close, 0, 0) == match_close(s@, open, close, i as int, depth as nat),
        decreases s.len() - i,
    {
        if s[i] == open {
            depth = depth + 1;
        } else if s[i] == close {
            if depth <= 1 {
                return Some(i);
            }
            depth = depth - 1;
        }
        i = i + 1;
    }
    None
}

/// The value of a bare token.
fn bare_value(b: &Vec<char>) -> (r: JsonValue)
    ensures
        r@ == bare_json(b@),
{
    let t = vec!['t', 'r', 'u', 'e'];
    let f = vec!['f', 'a', 'l', 's', 'e'];
    let n = vec!['n', 'u', 'l', 'l'];
    assert(t@ =~= seq!['t', 'r', 'u', 'e']);
    assert(f@ =~= seq!['f', 'a', 'l', 's', 'e']);
    assert(n@ =~= seq!['n', 'u', 'l', 'l']);
    if chars_eq(b, &t) {
        JsonValue::Bool(true)
    } else if chars_eq(b, &f) {
        JsonValue::Bool(false)
    } else if chars_eq(b, &n) {
        JsonValue::Null
    } else {
        let text = string_of(b);
        match parse_i64(text.as_str()) {
            Some(i) => JsonValue::Number(i64_to_string(i)),
            None => match canonical_number(text.as_str()) {
                Some(t) => JsonValue::Number(t),
                None => JsonValue::Str(text),
            },
        }
    }
}

/// `parse_gemma_value` on characters: `None` where the parser does not return.
pub fn parse_gemma_value(s: &Vec<char>) -> (r: Option<(JsonValue, Vec<char>)>)
    ensures
        match r {
            Some((v, rest)) => gemma_value(s@) == Some((v@, rest@)),
            None => gemma_value(s@) is None,
        },
    decreases s@.len(), 0int,
{
    proof {
        lemma_bracket_inner_len(s@, '[', ']');
        lemma_bracket_inner_len(s@, '{', '}');
    }
    let d = delim_chars();
    if matches_at(s, &d, 0) {
        let rest = slice_chars(s, 5, s.len());
        match find_chars(&rest, &d) {
            Some(e) => {
                let v = JsonValue::Str(string_of(&slice_chars(&rest, 0, e)));
                let after = slice_chars(&rest, e + 5, rest.len());
                assert(rest@.take(e as int) =~= rest@.subrange(0, e as int));
                assert(rest@.skip(e + 5) =~= rest@.subrange(e + 5, rest@.len() as int));
                Some((v, after))
            },
            None => {
                let v = JsonValue::Str(string_of(&rest));
                let empty: Vec<char> = Vec::new();
                assert(empty@ =~= Seq::<char>::empty());
                Some((v, empty))
            },
        }
    } else if s.len() > 0 && (s[0] == '[' || s[0] == '{') {
        let open = s[0];
        let close = if open == '[' { ']' } else { '}' };
        let ghost bi = bracket_inner(s@, open, close);
        let (inner, rest) = match find_close_brackets(s, open, close) {
            Some(c) => {
                proof {
                    lemma_match_close_bounds(s@, open, close, 1, 1);
                    assert(match_close(s@, open, close, 0, 0) == match_close(s@, open, close, 1, 1));
                }
                assert(s@.skip(c + 1) =~= s@.subrange(c + 1, s@.len() as int));
                (slice_chars(s, 1, c), slice_chars(s, c + 1, s.len()))
            },
            None => {
                if s.len() >= 2 && (s[s.len() - 1] as u32) < 128 {
                    let empty: Vec<char> = Vec::new();
                    assert(empty@ =~= Seq::<char>::empty());
                    (slice_chars(s, 1, s.len() - 1), empty)
                } else {
                    return None;
                }
            },
        };
        assert(bi == Some((inner@, rest@)));
        if open == '[' {
            match parse_gemma_array(&inner) {
                Some(a) => Some((a, rest)),
                None => None,
            }
        } else {
            match parse_gemma_object(&inner) {
                Some(o) => Some((o, rest)),
                None => None,
            }
        }
    } else {
        let end = first_stop(s);
        let b = trim_range(s, 0, end);
        assert(s@.take(end as int) =~= s@.subrange(0, end as int));
        assert(s@.skip(end as int) =~= s@.subrange(end as int, s@.len() as int));
        Some((bare_value(&b), slice_chars(s, end, s.len())))
    }
}

/// The items of a trimmed array remainder.
fn gemma_items_chars(rem: &Vec<char>) -> (r: Option<Vec<JsonValue>>)
    ensures
        match r {
            Some(items) => gemma_items(rem@) == Some(items_view(items@)),
            None => gemma_items(rem@) is None,
        },
    decreases rem@.len(), 1int,
{
    broadcast use group_json_view;

    if rem.len() == 0 {
        let items: Vec<JsonValue> = Vec::new();
        assert(items_view(items@) =~= Seq::<Json>::empty());
        return Some(items);
    }
    match parse_gemma_value(rem) {
        Some((v, rest)) => {
            let nxt = next_remaining_chars(&rest);
            if nxt.len() < rem.len() {
                match gemma_items_chars(&nxt) {
                    Some(items) => {
                        let ghost tail = items@;
                        let mut items = items;
                        items.insert(0, v);
                        assert(items_view(items@) =~= seq![v@] + items_view(tail));
                        Some(items)
                    },
                    None => None,
                }
            } else {
                None
            }
        },
        None => None,
    }
}

/// `parse_gemma_array` on characters.
fn parse_gemma_array(content: &Vec<char>) -> (r: Option<JsonValue>)
    ensures
        match r {
            Some(a) => gemma_array(content@) == Some(a@),
            None => gemma_array(content@) is None,
        },
    decreases content@.len(), 2int,
{
    proof {
        lemma_trim_len(content@);
    }
    let t = crate::text::trim_chars(content);
    match gemma_items_chars(&t) {
        Some(items) => Some(JsonValue::Array(items)),
        None => None,
    }
}

/// The members of a trimmed object remainder.
fn gemma_members_chars(rem0: &Vec<char>) -> (r: Option<Vec<(String, JsonValue)>>)
    ensures
        match r {
            Some(m) => gemma_members(rem0@, Seq::empty()) == Some(entries_view(m@)),
            None => gemma_members(rem0@, Seq::empty()) is None,
        },
    decreases rem0@.len(), 1int,
{
    broadcast use group_json_view;

    let mut acc: Vec<(String, JsonValue)> = Vec::new();
    let mut rem = slice_chars(rem0, 0, rem0.len());
    assert(rem0@.subrange(0, rem0@.len() as int) =~= rem0@);
    assert(entries_view(acc@) =~= Seq::<(Seq<char>, Json)>::empty());
    let colon = vec![':'];
    assert(colon@ =~= seq![':']);
    loop
        invariant
            rem@.len() <= rem0@.len(),
            colon@ == seq![':'],
            gemma_members(rem0@, Seq::empty()) == gemma_members(rem@, entries_view(acc@)),
        decreases rem@.len(),
    {
        if rem.len() == 0 {
            return Some(acc);
        }
        let c = match find_chars(&rem, &colon) {
            Some(c) => c,
            None => {
                return Some(acc);
            },
        };
        let key = trim_range(&rem, 0, c);
        assert(rem@.take(c as int) =~= rem@.subrange(0, c as int));
        let after = trim_start_from(&rem, c + 1);
        assert(rem@.skip(c + 1) =~= rem@.subrange(c + 1, rem@.len() as int));
        if key.len() == 0 {
            return Some(acc);
        }
        proof {
            lemma_trim_start_len(rem@.skip(c + 1));
        }
        if after.len() >= rem.len() {
            return None;
        }
        match parse_gemma_value(&after) {
            Some((v, rest)) => {
                let nxt = next_remaining_chars(&rest);
                if nxt.len() >= rem.len() {
                    return None;
                }
                object_insert(&mut acc, string_of(&key), v);
                rem = nxt;
            },
            None => {
                return None;
            },
        }
    }
}

/// `parse_gemma_object` on characters.
fn parse_gemma_object(content: &Vec<char>) -> (r: Option<JsonValue>)
    ensures
        match r {
            Some(o) => gemma_object(content@) == Some(o@),
            None => gemma_object(content@) is None,
        },
    decreases content@.len(), 2int,
{
    proof {
        lemma_trim_len(content@);
    }
    let t = crate::text::trim_chars(content);
    match gemma_members_chars(&t) {
        Some(m) => Some(JsonValue::Object(m)),
        None => None,
    }
}

/// The arguments of a native tool call as a JSON object, or `None` where the
/// parser would not return (an unclosed bracket it cannot cut, an array
/// item that consumes nothing).
pub fn try_parse_gemma_native_args(args_str: &str) -> (r: Option<JsonValue>)
    ensures
        match r {
            Some(v) => gemma_args(args_str@) == Some(v@),
            None => gemma_args(args_str@) is None,
        },
{
    let s = crate::text::trim_chars(&chars_of(args_str));
    if s.len() > 0 && s[0] == '{' {
        if s[s.len() - 1] == '}' {
            parse_gemma_object(&slice_chars(&s, 1, s.len() - 1))
        } else {
            assert(s@.skip(1) =~= s@.subrange(1, s@.len() as int));
            parse_gemma_object(&slice_chars(&s, 1, s.len()))
        }
    } else {
        Some(JsonValue::Object(Vec::new()))
    }
}

/// Parses Gemma 4 native tool call args: `{key:<|"|>val<|"|>,key2:42}` into a
/// JSON object.
pub fn parse_gemma_native_args(args_str: &str) -> (r: JsonValue)
    requires
        gemma_args(args_str@) is Some,
    ensures
        gemma_args(args_str@) == Some(r@),
{
    match try_parse_gemma_native_args(args_str) {
        Some(v) => v,
        None => JsonValue::Null,
    }
}

} // verus!
