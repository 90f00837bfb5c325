//! The one-line tool signatures that local-model prompts list:
//! `- name(param: type, opt?: type) — description`.
use vstd::prelude::*;
use crate::json::{
    Json, JsonValue, get_spec, get_str_spec, as_str_spec, member_get, json_get, json_get_str,
    json_as_object, json_as_array, json_as_str, entries_view, items_view, entry_view,
    group_json_view,
};
use crate::text::{
    join, strings_view, utf8_len, byte_prefix, trim, chars_of, string_of, str_eq, copy_string,
    push_all, trim_chars, utf8_len_exceeds, byte_prefix_chars, join_strings,
};

verus! {

/// The strings among `a`, in order (`filter_map(Value::as_str)`).
pub open spec fn str_items(a: Seq<Json>) -> Seq<Seq<char>>
    decreases a.len(),
{
    if a.len() == 0 {
        Seq::empty()
    } else {
        match as_str_spec(a.last()) {
            Some(s) => str_items(a.drop_last()).push(s),
            None => str_items(a.drop_last()),
        }
    }
}

/// The names listed under `required`, or none.
pub open spec fn required_names(schema: Json) -> Seq<Seq<char>> {
    match get_spec(schema, "required"@) {
        Some(Json::Array(a)) => str_items(a),
        _ => Seq::empty(),
    }
}

/// The `type` of a property schema when it is a string, else `any`.
pub open spec fn prop_type_name(prop: Json) -> Seq<char> {
    match get_str_spec(prop, "type"@) {
        Some(t) => t,
        None => "any"@,
    }
}

/// `name: type` for a required property, `name?: type` otherwise.
pub open spec fn param_entry(name: Seq<char>, prop: Json, required: Seq<Seq<char>>) -> Seq<char> {
    name + (if required.contains(name) {
        Seq::empty()
    } else {
        "?"@
    }) + ": "@ + prop_type_name(prop)
}

pub open spec fn param_entries(props: Seq<(Seq<char>, Json)>, required: Seq<Seq<char>>) -> Seq<
    Seq<char>,
> {
    props.map_values(|e: (Seq<char>, Json)| param_entry(e.0, e.1, required))
}

/// The parameter list of a schema: one entry per property, in key order,
/// separated by `, `; empty when `properties` is not an object.
pub open spec fn flat_params(schema: Json) -> Seq<char> {
    match get_spec(schema, "properties"@) {
        Some(Json::Object(props)) => join(param_entries(props, required_names(schema)), ", "@),
        _ => Seq::empty(),
    }
}

/// The description, trimmed and cut to its first 80 bytes; `None` when byte
/// 80 falls inside a character (the cut panics).
pub open spec fn short_description(description: Seq<char>) -> Option<Seq<char>> {
    let d = trim(description);
    if utf8_len(d) > 80 {
        byte_prefix(d, 80)
    } else {
        Some(d)
    }
}

/// `- name(params) — description`.
pub open spec fn signature_line(name: Seq<char>, params: Seq<char>, description: Seq<char>) -> Option<
    Seq<char>,
> {
    match short_description(description) {
        Some(d) => Some("- "@ + name + "("@ + params + ") — "@ + d),
        None => None,
    }
}

// ---------------------------------------------------------------------------
// Executable
// ---------------------------------------------------------------------------

/// The strings listed under `required`.
pub fn required_names_of(schema: &JsonValue) -> (r: Vec<String>)
    ensures
        strings_view(r@) == required_names(schema@),
{
    broadcast use group_json_view;

    let mut out: Vec<String> = Vec::new();
    let arr = match json_get(schema, "required") {
        Some(x) => match json_as_array(x) {
            Some(a) => a,
            None => {
                assert(strings_view(out@) =~= Seq::<Seq<char>>::empty());
                return out;
            },
        },
        None => {
            assert(strings_view(out@) =~= Seq::<Seq<char>>::empty());
            return out;
        },
    };
    let ghost items = items_view(arr@);
    proof {
        crate::json::lemma_items_view(arr@);
    }
    let mut i: usize = 0;
    assert(strings_view(out@) =~= str_items(items.take(0)));
    while i < arr.len()
        invariant
            i <= arr@.len(),
            items == items_view(arr@),
            items == arr@.map_values(|x: JsonValue| crate::json::json_view(x)),
            strings_view(out@) == str_items(items.take(i as int)),
        decreases arr.len() - i,
    {
        assert(items.take(i + 1).drop_last() =~= items.take(i as int));
        assert(items.take(i + 1).last() == arr@[i as int]@);
        match json_as_str(&arr[i]) {
            Some(s) => {
                out.push(copy_string(s));
                assert(strings_view(out@) =~= str_items(items.take(i + 1)));
            },
            None => {},
        }
        i = i + 1;
    }
    assert(items.take(items.len() as int) =~= items);
    out
}

/// Whether `name` is among `names`.
pub fn contains_name(names: &Vec<String>, name: &str) -> (r: bool)
    ensures
        r == strings_view(names@).contains(name@),
{
    let mut i: usize = 0;
    while i < names.len()
        invariant
            i <= names@.len(),
            forall|j: int| 0 <= j < i ==> names@[j]@ != name@,
        decreases names.len() - i,
    {
        if str_eq(names[i].as_str(), name) {
            assert(strings_view(names@)[i as int] == name@);
            return true;
        }
        i = i + 1;
    }
    proof {
        if strings_view(names@).contains(name@) {
            let j = choose|j: int| 0 <= j < names@.len() && strings_view(names@)[j] == name@;
            assert(names@[j]@ == name@);
        }
    }
    false
}

/// The `type` of a property schema when it is a string, else `any`.
fn prop_type_name_of(prop: &JsonValue) -> (r: String)
    ensures
        r@ == prop_type_name(prop@),
{
    match json_get_str(prop, "type") {
        Some(t) => copy_string(t),
        None => crate::text::to_owned_string("any"),
    }
}

/// The flat parameter list of a schema.
pub fn flat_params_of(schema: &JsonValue) -> (r: String)
    ensures
        r@ == flat_params(schema@),
{
    broadcast use group_json_view;

    let props = match json_get(schema, "properties") {
        Some(p) => match json_as_object(p) {
            Some(m) => m,
            None => {
                return String::new();
            },
        },
        None => {
            return String::new();
        },
    };
    let required = required_names_of(schema);
    let ghost m = entries_view(props@);
    let ghost req = required_names(schema@);
    proof {
        crate::json::lemma_entries_view(props@);
    }
    let mut entries: Vec<String> = Vec::new();
    let mut i: usize = 0;
    while i < props.len()
        invariant
            i <= props@.len(),
            m == entries_view(props@),
            m == props@.map_values(|e: (String, JsonValue)| entry_view(e)),
            strings_view(required@) == req,
            strings_view(entries@) == param_entries(m.take(i as int), req),
        decreases props.len() - i,
    {
        let (name, prop) = (&props[i].0, &props[i].1);
        assert(m[i as int] == entry_view(props@[i as int]));
        let mut line = chars_of(name.as_str());
        let is_required = contains_name(&required, name.as_str());
        if !is_required {
            push_all(&mut line, &chars_of("?"));
        }
        assert(line@ =~= name@ + (if req.contains(name@) {
            Seq::<char>::empty()
        } else {
            "?"@
        }));
        push_all(&mut line, &chars_of(": "));
        push_all(&mut line, &chars_of(prop_type_name_of(prop).as_str()));
        assert(line@ == param_entry(m[i as int].0, m[i as int].1, req));
        let ghost before = entries@;
        let ghost prefix = m.take(i as int);
        let ghost line_view = line@;
        entries.push(string_of(&line));
        proof {
            assert(m.take(i + 1) =~= prefix.push(m[i as int]));
            assert(strings_view(entries@) =~= strings_view(before).push(line_view));
            assert(param_entries(prefix.push(m[i as int]), req) =~= param_entries(prefix, req).push(
                param_entry(m[i as int].0, m[i as int].1, req),
            ));
        }
        i = i + 1;
    }
    assert(m.take(m.len() as int) =~= m);
    join_strings(&entries, ", ")
}

/// The trimmed description cut to 80 bytes, `None` where the cut would panic.
pub fn short_description_of(description: &str) -> (r: Option<Vec<char>>)
    ensures
        match r {
            Some(d) => short_description(description@) == Some(d@),
            None => short_description(description@) is None,
        },
{
    let d = trim_chars(&chars_of(description));
    if utf8_len_exceeds(&d, 80) {
        byte_prefix_chars(&d, 80)
    } else {
        Some(d)
    }
}

/// `- name(params) — description`, `None` where the description cut panics.
pub fn signature_line_of(name: &str, params: &str, description: &str) -> (r: Option<String>)
    ensures
        match r {
            Some(l) => signature_line(name@, params@, description@) == Some(l@),
            None => signature_line(name@, params@, description@) is None,
        },
{
    let d = match short_description_of(description) {
        Some(d) => d,
        None => {
            return None;
        },
    };
    let mut line = chars_of("- ");
    push_all(&mut line, &chars_of(name));
    push_all(&mut line, &chars_of("("));
    push_all(&mut line, &chars_of(params));
    push_all(&mut line, &chars_of(") — "));
    push_all(&mut line, &d);
    Some(string_of(&line))
}

} // verus!
