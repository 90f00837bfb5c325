//! The system prompt of a conversation turn.
use vstd::prelude::*;
use crate::number_text::decimal_text;
use crate::settings::AgentConfig;
use crate::text::{chars_of, string_of, push_all};
use crate::tool_calls::usize_to_string;
use crate::json::{
    jstr, member, object1, object2, object3, array2, array3,
    Json, JsonValue, member_get, member_index, insert_spec, entries_view, json_view, items_view,
    lemma_member_index_bounds, lemma_entries_view, lemma_items_view, find_member, object_insert, clone_json,
};
use crate::text::{str_eq, strings_view, to_owned_string, copy_string};
use crate::providers::ToolDefinition;

verus! {

/// The delegation section, before the conversation IRI.
pub const DELEGATION_INTRO: &'static str = "## Delegating Tasks\n\
         Your current conversation IRI is: `";

/// The delegation section, after the conversation IRI.
pub const DELEGATION_RULES: &'static str = "`. When you create a `foundation:Task` and \
         want the result returned here automatically, set `foundation:delegatedFromConversation` \
         to this IRI on the task.\n\
         For the task to be executed, it must either have `foundation:scheduledAt` set to a \
         future datetime, or have its `foundation:hasStatus` set to `foundation:InProgress`. \
         Without one of these, the task will remain pending and never run.";

/// How tool calls state their reason.
pub const TOOL_REASON_INSTRUCTION: &'static str = "## Tool calls\n\
        The `reason` field on each tool call must be a ≤6-word PT-BR description of your intent; \
        it is shown to the user as the action label.";

/// The rule that every turn ends with a message to the user.
pub const RESPONSE_RULE: &'static str = "## Response rule\n\
        You MUST always end your turn with a text message to the user. \
        Never finish silently after tool calls — always confirm what was done, \
        summarize the result, or ask the next question. \
        An empty final turn is a failure.";

/// The camera note, before the number of snapshots.
pub const CAMERA_INTRO: &'static str = "\n\n[Camera Vision] ";

/// The camera note, after the number of snapshots and before the plural `s`.
pub const CAMERA_SNAPSHOT: &'static str = " webcam snapshot";

/// The camera note, after the plural `s`.
pub const CAMERA_GUIDANCE: &'static str = " of the user were captured during the typing of this message and are included as image blocks at the start of the user's message, in chronological order. Use them to read the evolution of the user's facial expression, posture, and emotional energy over the course of composing the message, and calibrate your tone and depth of response accordingly. Do not mention the camera or the images to the user unless they explicitly ask.";

/// `build_system_prompt`: the foundation context, the base system prompt,
/// the widget context, the agent's prompt, the delegation section, the
/// tool-reason instruction and the response rule, separated by blank
/// lines; followed by the camera note when snapshots were taken.
pub open spec fn system_prompt_spec(
    foundation_context: Seq<char>,
    base_system_prompt: Seq<char>,
    widget_context: Seq<char>,
    system_prompt: Seq<char>,
    camera_count: Option<usize>,
    conversation_id: Seq<char>,
) -> Seq<char> {
    let sep = "\n\n"@;
    let base = foundation_context + sep + base_system_prompt + sep + widget_context + sep + system_prompt
        + sep + DELEGATION_INTRO@ + conversation_id + DELEGATION_RULES@ + sep + TOOL_REASON_INSTRUCTION@
        + sep + RESPONSE_RULE@;
    match camera_count {
        Some(n) => base + CAMERA_INTRO@ + decimal_text(n as int) + CAMERA_SNAPSHOT@ + (if n == 1 {
            Seq::empty()
        } else {
            "s"@
        }) + CAMERA_GUIDANCE@,
        None => base,
    }
}

/// Builds the system prompt of a conversation turn.
pub fn build_system_prompt(
    agent_config: &AgentConfig,
    foundation_context: &str,
    widget_context: &str,
    camera_count: Option<usize>,
    conversation_id: &str,
) -> (r: String)
    ensures
        r@ == system_prompt_spec(
            foundation_context@,
            agent_config.base_system_prompt@,
            widget_context@,
            agent_config.system_prompt@,
            camera_count,
            conversation_id@,
        ),
{
    let sep = chars_of("\n\n");
    let mut v = chars_of(foundation_context);
    push_all(&mut v, &sep);
    push_all(&mut v, &chars_of(agent_config.base_system_prompt.as_str()));
    push_all(&mut v, &sep);
    push_all(&mut v, &chars_of(widget_context));
    push_all(&mut v, &sep);
    push_all(&mut v, &chars_of(agent_config.system_prompt.as_str()));
    push_all(&mut v, &sep);
    push_all(&mut v, &chars_of(DELEGATION_INTRO));
    push_all(&mut v, &chars_of(conversation_id));
    push_all(&mut v, &chars_of(DELEGATION_RULES));
    push_all(&mut v, &sep);
    push_all(&mut v, &chars_of(TOOL_REASON_INSTRUCTION));
    push_all(&mut v, &sep);
    push_all(&mut v, &chars_of(RESPONSE_RULE));
    match camera_count {
        Some(n) => {
            push_all(&mut v, &chars_of(CAMERA_INTRO));
            push_all(&mut v, &chars_of(usize_to_string(n).as_str()));
            push_all(&mut v, &chars_of(CAMERA_SNAPSHOT));
            if n != 1 {
                push_all(&mut v, &chars_of("s"));
            }
            push_all(&mut v, &chars_of(CAMERA_GUIDANCE));
        },
        None => {},
    }
    string_of(&v)
}

// ---------------------------------------------------------------------------
// Strict tool schemas
// ---------------------------------------------------------------------------

/// The members of a JSON object, in order.
pub type Members = Seq<(Seq<char>, Json)>;

/// The strings among the items, in order.
pub open spec fn string_items(a: Seq<Json>) -> Seq<Seq<char>>
    decreases a.len(),
{
    if a.len() == 0 {
        Seq::empty()
    } else {
        match a.last() {
            Json::Str(s) => string_items(a.drop_last()).push(s),
            _ => string_items(a.drop_last()),
        }
    }
}

/// The names that a `required` member lists: none when it is absent, its
/// strings when it is an array; `None` when it is something else.
pub open spec fn required_names(req: Option<Json>) -> Option<Seq<Seq<char>>> {
    match req {
        None => Some(Seq::empty()),
        Some(Json::Array(a)) => Some(string_items(a)),
        Some(_) => None,
    }
}

/// The keys of the properties not among `names`, as JSON strings, in order.
pub open spec fn added_required(props: Members, names: Seq<Seq<char>>) -> Seq<Json>
    decreases props.len(),
{
    if props.len() == 0 {
        Seq::empty()
    } else if names.contains(props.last().0) {
        added_required(props.drop_last(), names)
    } else {
        added_required(props.drop_last(), names).push(Json::Str(props.last().0))
    }
}

/// The `required` array once every property is required: the items it had,
/// then the keys of the properties it did not name.
pub open spec fn required_after(req: Option<Json>, props: Members, names: Seq<Seq<char>>) -> Json {
    Json::Array(
        (match req {
            Some(Json::Array(a)) => a,
            _ => Seq::empty(),
        }) + added_required(props, names),
    )
}

/// The schema's `type` is `name`, or an array that holds `name`.
pub open spec fn has_type(pm: Members, name: Seq<char>) -> bool {
    match member_get(pm, "type"@) {
        Some(Json::Str(s)) => s == name,
        Some(Json::Array(a)) => a.contains(Json::Str(name)),
        _ => false,
    }
}

/// The schema with `null` added to its `type`: a string type other than
/// `null` becomes `[type, "null"]`, an array without `"null"` gets it at the
/// end; anything else stays.
pub open spec fn nullable(pm: Members) -> Members {
    match member_get(pm, "type"@) {
        Some(Json::Str(s)) => if s != "null"@ {
            insert_spec(pm, "type"@, Json::Array(seq![Json::Str(s), Json::Str("null"@)]))
        } else {
            pm
        },
        Some(Json::Array(a)) => if !a.contains(Json::Str("null"@)) {
            insert_spec(pm, "type"@, Json::Array(a.push(Json::Str("null"@))))
        } else {
            pm
        },
        _ => pm,
    }
}

/// `additionalProperties: false` added to the members.
pub open spec fn closed(m: Members) -> Members {
    insert_spec(m, "additionalProperties"@, Json::Bool(false))
}

/// The members `x` made strict, reading `properties` and `required` from
/// `src` (on which `x` agrees with it): every property becomes required, the
/// ones that were optional become nullable, nested objects (also as array
/// items) are made strict in turn, and no additional property is allowed.
/// Members whose `properties` is not an object stay as they are. `None` when
/// a `required` member that has to be read is not an array.
pub open spec fn strict_members(x: Members, src: Members) -> Option<Members>
    decreases src, 0nat,
{
    match member_get(src, "properties"@) {
        Some(Json::Object(props)) => {
            proof {
                lemma_member_object_decreases(src, "properties"@);
            }
            match required_names(member_get(src, "required"@)) {
                None => None,
                Some(names) => match fixed_props(props, names) {
                    None => None,
                    Some(np) => Some(
                        closed(
                            insert_spec(
                                insert_spec(x, "required"@, required_after(member_get(src, "required"@), props, names)),
                                "properties"@,
                                Json::Object(np),
                            ),
                        ),
                    ),
                },
            }
        },
        _ => Some(x),
    }
}

/// Each property schema that is an object made strict (see
/// [`strict_property`]); other property values stay.
pub open spec fn fixed_props(props: Members, names: Seq<Seq<char>>) -> Option<Members>
    decreases props, 0nat,
{
    if props.len() == 0 {
        Some(Seq::empty())
    } else {
        let front = props.subrange(0, props.len() - 1);
        let key = props[props.len() - 1].0;
        let v = props[props.len() - 1].1;
        match fixed_props(front, names) {
            None => None,
            Some(done) => match v {
                Json::Object(pm) => {
                    proof {
                        assert(decreases_to!(props => props[props.len() - 1]));
                        assert(decreases_to!(props[props.len() - 1] => v));
                    }
                    match strict_property(pm, names.contains(key)) {
                        Some(p) => Some(done.push((key, Json::Object(p)))),
                        None => None,
                    }
                },
                _ => Some(done.push((key, v))),
            },
        }
    }
}

/// A property schema made strict: nullable unless `required`; when its type
/// includes `object`, closed and made strict; when it includes `array` and
/// its items are an object schema of type `object`, the items closed and made
/// strict.
pub open spec fn strict_property(pm: Members, required: bool) -> Option<Members>
    decreases pm, 1nat,
{
    let pm1 = if required {
        pm
    } else {
        nullable(pm)
    };
    let pm2 = if has_type(pm1, "object"@) {
        strict_members(closed(pm1), pm)
    } else {
        Some(pm1)
    };
    match pm2 {
        None => None,
        Some(p2) => if has_type(p2, "array"@) {
            match member_get(pm, "items"@) {
                Some(Json::Object(im)) => {
                    proof {
                        lemma_member_object_decreases(pm, "items"@);
                    }
                    if member_get(im, "type"@) == Some(Json::Str("object"@)) {
                        match strict_members(closed(im), im) {
                            Some(si) => Some(insert_spec(p2, "items"@, Json::Object(si))),
                            None => None,
                        }
                    } else {
                        Some(p2)
                    }
                },
                _ => Some(p2),
            }
        } else {
            Some(p2)
        },
    }
}

/// An object value of a member is a part of the members.
pub proof fn lemma_member_object_decreases(m: Members, k: Seq<char>)
    ensures
        member_get(m, k) matches Some(Json::Object(c)) ==> decreases_to!(m => c),
{
    lemma_member_index_bounds(m, k);
    match member_index(m, k) {
        Some(i) => {
            assert(decreases_to!(m => m[i]));
            assert(decreases_to!(m[i] => m[i].1));
        },
        None => {},
    }
}

/// `member_get` on a non-empty sequence, one member at a time.
proof fn lemma_member_get_unfold(s: Members, k: Seq<char>)
    requires
        s.len() > 0,
    ensures
        member_get(s, k) == if s[0].0 == k {
            Some(s[0].1)
        } else {
            member_get(s.drop_first(), k)
        },
{
    if s[0].0 != k {
        lemma_member_index_bounds(s.drop_first(), k);
        match member_index(s.drop_first(), k) {
            Some(i) => {
                assert(s[i + 1] == s.drop_first()[i]);
            },
            None => {},
        }
    }
}

/// Reading a member after an insert: the inserted value under its key, the
/// old value under any other.
pub proof fn lemma_get_after_insert(m: Members, k: Seq<char>, v: Json, k2: Seq<char>)
    ensures
        member_get(insert_spec(m, k, v), k2) == if k2 == k {
            Some(v)
        } else {
            member_get(m, k2)
        },
    decreases m.len(),
{
    let r = insert_spec(m, k, v);
    assert(r.len() > 0);
    lemma_member_get_unfold(r, k2);
    if m.len() == 0 {
        assert(r[0] == (k, v));
        if k2 != k {
            assert(r.drop_first() =~= Seq::<(Seq<char>, Json)>::empty());
        }
    } else {
        lemma_member_get_unfold(m, k2);
        if m[0].0 == k {
            assert(r[0] == (k, v));
            assert(r.drop_first() =~= m.drop_first());
        } else if crate::json::key_lt(k, m[0].0) {
            assert(r[0] == (k, v));
            assert(r.drop_first() =~= m);
        } else {
            assert(r[0] == m[0]);
            assert(r.drop_first() =~= insert_spec(m.drop_first(), k, v));
            lemma_get_after_insert(m.drop_first(), k, v, k2);
        }
    }
}

/// The member at `i` is what `member_get` finds under its key.
proof fn lemma_found_member(x: Seq<(String, JsonValue)>, k: Seq<char>, i: int)
    requires
        member_index(entries_view(x), k) == Some(i),
    ensures
        0 <= i < x.len(),
        member_get(entries_view(x), k) == Some(json_view(x[i].1)),
{
    lemma_entries_view(x);
    lemma_member_index_bounds(entries_view(x), k);
}

fn is_str(v: &JsonValue, s: &str) -> (r: bool)
    ensures
        r == (json_view(*v) == Json::Str(s@)),
{
    match v {
        JsonValue::Str(t) => str_eq(t.as_str(), s),
        _ => false,
    }
}

fn items_contain_str(a: &Vec<JsonValue>, s: &str) -> (r: bool)
    ensures
        r == items_view(a@).contains(Json::Str(s@)),
{
    proof {
        lemma_items_view(a@);
    }
    let mut i: usize = 0;
    while i < a.len()
        invariant
            i <= a@.len(),
            items_view(a@) == a@.map_values(|x: JsonValue| json_view(x)),
            forall|j: int| 0 <= j < i ==> json_view(#[trigger] a@[j]) != Json::Str(s@),
        decreases a.len() - i,
    {
        if is_str(&a[i], s) {
            assert(items_view(a@)[i as int] == Json::Str(s@));
            return true;
        }
        i = i + 1;
    }
    proof {
        if items_view(a@).contains(Json::Str(s@)) {
            let j = choose|j: int| 0 <= j < items_view(a@).len() && items_view(a@)[j] == Json::Str(s@);
            assert(json_view(a@[j]) == Json::Str(s@));
        }
    }
    false
}

fn has_type_exec(pm: &Vec<(String, JsonValue)>, name: &str) -> (r: bool)
    ensures
        r == has_type(entries_view(pm@), name@),
{
    match find_member(pm, "type") {
        Some(i) => {
            proof {
                lemma_found_member(pm@, "type"@, i as int);
            }
            match &pm[i].1 {
                JsonValue::Str(t) => str_eq(t.as_str(), name),
                JsonValue::Array(a) => items_contain_str(a, name),
                _ => false,
            }
        },
        None => false,
    }
}

fn make_nullable(pm: &mut Vec<(String, JsonValue)>)
    ensures
        entries_view(final(pm)@) == nullable(entries_view(old(pm)@)),
{
    let i = match find_member(pm, "type") {
        Some(i) => i,
        None => {
            return;
        },
    };
    proof {
        lemma_found_member(pm@, "type"@, i as int);
    }
    let new_type = match &pm[i].1 {
        JsonValue::Str(t) => {
            if str_eq(t.as_str(), "null") {
                return;
            }
            let v = vec![JsonValue::Str(copy_string(t)), JsonValue::Str(to_owned_string("null"))];
            proof {
                lemma_items_view(v@);
                assert(items_view(v@) =~= seq![Json::Str(t@), Json::Str("null"@)]);
            }
            JsonValue::Array(v)
        },
        JsonValue::Array(a) => {
            if items_contain_str(a, "null") {
                return;
            }
            let c = clone_json(&pm[i].1);
            match c {
                JsonValue::Array(mut items) => {
                    let ghost old_items = items@;
                    let ghost before = items_view(items@);
                    items.push(JsonValue::Str(to_owned_string("null")));
                    proof {
                        lemma_items_view(items@);
                        lemma_items_view(old_items);
                        assert(items@.drop_last() =~= old_items);
                        assert(items_view(items@) =~= before.push(Json::Str("null"@)));
                    }
                    JsonValue::Array(items)
                },
                _ => {
                    return;
                },
            }
        },
        _ => {
            return;
        },
    };
    object_insert(pm, to_owned_string("type"), new_type);
}

fn names_contain(names: &Vec<String>, k: &str) -> (r: bool)
    ensures
        r == strings_view(names@).contains(k@),
{
    let ghost nv = strings_view(names@);
    let mut i: usize = 0;
    while i < names.len()
        invariant
            i <= names@.len(),
            nv == strings_view(names@),
            forall|j: int| 0 <= j < i ==> nv[j] != k@,
        decreases names.len() - i,
    {
        if str_eq(names[i].as_str(), k) {
            assert(nv[i as int] == k@);
            return true;
        }
        i = i + 1;
    }
    false
}

pub(crate) fn string_items_exec(a: &Vec<JsonValue>) -> (r: Vec<String>)
    ensures
        strings_view(r@) == string_items(items_view(a@)),
{
    proof {
        lemma_items_view(a@);
    }
    let ghost av = items_view(a@);
    let mut out: Vec<String> = Vec::new();
    let mut i: usize = 0;
    assert(strings_view(out@) =~= string_items(av.take(0)));
    while i < a.len()
        invariant
            i <= a@.len(),
            av == items_view(a@),
            av == a@.map_values(|x: JsonValue| json_view(x)),
            strings_view(out@) == string_items(av.take(i as int)),
        decreases a.len() - i,
    {
        assert(av.take(i + 1).drop_last() =~= av.take(i as int));
        assert(av.take(i + 1).last() == json_view(a@[i as int]));
        match &a[i] {
            JsonValue::Str(t) => {
                let ghost prev = strings_view(out@);
                out.push(copy_string(t));
                assert(strings_view(out@) =~= prev.push(t@));
            },
            _ => {},
        }
        i = i + 1;
    }
    assert(av.take(av.len() as int) =~= av);
    out
}

/// Once a prefix of the properties cannot be made strict, neither can the
/// whole.
proof fn lemma_fixed_props_prefix_none(s: Members, names: Seq<Seq<char>>, k: int)
    requires
        0 <= k <= s.len(),
        fixed_props(s.take(k), names) is None,
    ensures
        fixed_props(s, names) is None,
    decreases s.len(),
{
    if k == s.len() {
        assert(s.take(k) =~= s);
    } else {
        let front = s.subrange(0, s.len() - 1);
        assert(front.take(k) =~= s.take(k));
        lemma_fixed_props_prefix_none(front, names, k);
    }
}

/// Making members strict and closing them leave every other member as it
/// was.
proof fn lemma_strict_keeps_items(x: Members, src: Members, r: Members)
    requires
        strict_members(x, src) == Some(r),
    ensures
        member_get(r, "items"@) == member_get(x, "items"@),
{
    reveal_strlit("items");
    reveal_strlit("required");
    reveal_strlit("properties");
    reveal_strlit("additionalProperties");
    assert("items"@.len() != "required"@.len());
    assert("items"@.len() != "properties"@.len());
    assert("items"@.len() != "additionalProperties"@.len());
    if let Some(Json::Object(props)) = member_get(src, "properties"@) {
        if let Some(names) = required_names(member_get(src, "required"@)) {
            if let Some(np) = fixed_props(props, names) {
                let a = insert_spec(x, "required"@, required_after(member_get(src, "required"@), props, names));
                let b = insert_spec(a, "properties"@, Json::Object(np));
                lemma_get_after_insert(x, "required"@, required_after(member_get(src, "required"@), props, names), "items"@);
                lemma_get_after_insert(a, "properties"@, Json::Object(np), "items"@);
                lemma_get_after_insert(b, "additionalProperties"@, Json::Bool(false), "items"@);
            }
        }
    }
}

/// `nullable` and `closed` change only `type` and `additionalProperties`.
proof fn lemma_prepared_keeps(pm: Members, required: bool, k: Seq<char>)
    requires
        k != "type"@,
        k != "additionalProperties"@,
    ensures
        member_get(closed(if required { pm } else { nullable(pm) }), k) == member_get(pm, k),
        member_get(if required { pm } else { nullable(pm) }, k) == member_get(pm, k),
{
    let pm1 = if required { pm } else { nullable(pm) };
    lemma_get_after_insert(pm1, "additionalProperties"@, Json::Bool(false), k);
    if !required {
        match member_get(pm, "type"@) {
            Some(Json::Str(s)) => {
                lemma_get_after_insert(pm, "type"@, Json::Array(seq![Json::Str(s), Json::Str("null"@)]), k);
            },
            Some(Json::Array(a)) => {
                lemma_get_after_insert(pm, "type"@, Json::Array(a.push(Json::Str("null"@))), k);
            },
            _ => {},
        }
    }
}

/// Makes the members `x` strict (see [`strict_members`]); `None` where a
/// `required` member is not an array.
fn strict_exec(x: Vec<(String, JsonValue)>, Ghost(src): Ghost<Members>) -> (r: Option<Vec<(String, JsonValue)>>)
    requires
        member_get(entries_view(x@), "properties"@) == member_get(src, "properties"@),
        member_get(entries_view(x@), "required"@) == member_get(src, "required"@),
    ensures
        match r {
            Some(v) => strict_members(entries_view(x@), src) == Some(entries_view(v@)),
            None => strict_members(entries_view(x@), src) is None,
        },
    decreases src, 0nat,
{
    let mut x = x;
    let ghost xv = entries_view(x@);
    let pi = match find_member(&x, "properties") {
        Some(i) => i,
        None => {
            return Some(x);
        },
    };
    proof {
        lemma_found_member(x@, "properties"@, pi as int);
    }
    let props = match clone_json(&x[pi].1) {
        JsonValue::Object(p) => p,
        _ => {
            return Some(x);
        },
    };
    let ghost pv = entries_view(props@);
    proof {
        lemma_member_object_decreases(src, "properties"@);
    }
    let mut req_items: Vec<JsonValue> = Vec::new();
    let mut names: Vec<String> = Vec::new();
    match find_member(&x, "required") {
        Some(ri) => {
            proof {
                lemma_found_member(x@, "required"@, ri as int);
            }
            match &x[ri].1 {
                JsonValue::Array(a) => {
                    names = string_items_exec(a);
                },
                _ => {
                    return None;
                },
            }
            match clone_json(&x[ri].1) {
                JsonValue::Array(items) => {
                    req_items = items;
                },
                _ => {},
            }
        },
        None => {
            assert(strings_view(names@) =~= Seq::<Seq<char>>::empty());
        },
    }
    let ghost nv = strings_view(names@);
    let ghost base = match member_get(src, "required"@) {
        Some(Json::Array(a)) => a,
        _ => Seq::empty(),
    };
    proof {
        lemma_items_view(req_items@);
        assert(items_view(req_items@) =~= base);
    }
    let mut i: usize = 0;
    assert(pv.take(0) =~= Seq::<(Seq<char>, Json)>::empty());
    assert(base + added_required(pv.take(0), nv) =~= base);
    while i < props.len()
        invariant
            i <= props@.len(),
            pv == entries_view(props@),
            nv == strings_view(names@),
            items_view(req_items@) == base + added_required(pv.take(i as int), nv),
        decreases props.len() - i,
    {
        proof {
            lemma_entries_view(props@);
            lemma_items_view(req_items@);
        }
        assert(pv.take(i + 1).drop_last() =~= pv.take(i as int));
        assert(pv.take(i + 1).last() == pv[i as int]);
        assert(pv[i as int].0 == props@[i as int].0@);
        if !names_contain(&names, props[i].0.as_str()) {
            let ghost before = req_items@;
            req_items.push(JsonValue::Str(copy_string(&props[i].0)));
            proof {
                lemma_items_view(req_items@);
                lemma_items_view(before);
                assert(req_items@.drop_last() =~= before);
                assert(items_view(req_items@) =~= items_view(before).push(Json::Str(pv[i as int].0)));
            }
        }
        i = i + 1;
    }
    proof {
        lemma_entries_view(props@);
    }
    assert(pv.take(pv.len() as int) =~= pv);
    let np = match fix_props_exec(props, &names, Ghost(pv)) {
        Some(np) => np,
        None => {
            return None;
        },
    };
    assert(member_get(src, "properties"@) == Some(Json::Object(pv)));
    assert(required_names(member_get(src, "required"@)) == Some(nv));
    assert(fixed_props(pv, nv) == Some(entries_view(np@)));
    assert(required_after(member_get(src, "required"@), pv, nv) == Json::Array(items_view(req_items@)));
    object_insert(&mut x, to_owned_string("required"), JsonValue::Array(req_items));
    object_insert(&mut x, to_owned_string("properties"), JsonValue::Object(np));
    object_insert(&mut x, to_owned_string("additionalProperties"), JsonValue::Bool(false));
    Some(x)
}

/// Makes each property schema that is an object strict (see
/// [`fixed_props`]).
fn fix_props_exec(props: Vec<(String, JsonValue)>, names: &Vec<String>, Ghost(pv): Ghost<Members>) -> (r: Option<
    Vec<(String, JsonValue)>,
>)
    requires
        entries_view(props@) == pv,
    ensures
        match r {
            Some(v) => fixed_props(pv, strings_view(names@)) == Some(entries_view(v@)),
            None => fixed_props(pv, strings_view(names@)) is None,
        },
    decreases pv, 0nat,
{
    let ghost nv = strings_view(names@);
    let mut out: Vec<(String, JsonValue)> = Vec::new();
    proof {
        lemma_entries_view(props@);
    }
    let mut rest = props;
    let ghost mut k: int = 0;
    assert(pv.skip(0) =~= pv);
    assert(pv.take(0) =~= Seq::<(Seq<char>, Json)>::empty());
    assert(entries_view(out@) =~= Seq::<(Seq<char>, Json)>::empty());
    while rest.len() > 0
        invariant
            0 <= k <= pv.len(),
            rest@.len() + k == pv.len(),
            entries_view(rest@) == pv.skip(k),
            nv == strings_view(names@),
            fixed_props(pv.take(k), nv) == Some(entries_view(out@)),
        decreases rest.len(),
    {
        let ghost r0 = rest@;
        proof {
            lemma_entries_view(r0);
        }
        let (key, v) = rest.remove(0);
        proof {
            assert(rest@ =~= r0.subrange(1, r0.len() as int));
            lemma_entries_view(rest@);
            assert(entries_view(rest@) =~= entries_view(r0).subrange(1, r0.len() as int));
            assert(pv.skip(k)[0] == pv[k]);
            assert(pv[k] == (key@, json_view(v)));
            assert(entries_view(rest@) =~= pv.skip(k + 1));
            let t = pv.take(k + 1);
            assert(t.subrange(0, t.len() - 1) =~= pv.take(k));
            assert(t[t.len() - 1] == pv[k]);
        }
        let ghost prev = entries_view(out@);
        match v {
            JsonValue::Object(pm) => {
                let ghost pmv = entries_view(pm@);
                proof {
                    assert(pv[k].1 == Json::Object(pmv));
                    assert(decreases_to!(pv => pv[k]));
                    assert(decreases_to!(pv[k] => pv[k].1));
                    assert(decreases_to!(pv[k].1 => pv[k].1->Object_0));
                }
                let required = names_contain(names, key.as_str());
                match strict_property_exec(pm, required, Ghost(pmv)) {
                    Some(p) => {
                        let ghost p_v = entries_view(p@);
                        let ghost out0 = out@;
                        out.push((key, JsonValue::Object(p)));
                        proof {
                            lemma_entries_view(out@);
                            lemma_entries_view(out0);
                            assert(out@.drop_last() =~= out0);
                            assert(entries_view(out@) =~= prev.push((pv[k].0, Json::Object(p_v))));
                        }
                    },
                    None => {
                        proof {
                            lemma_fixed_props_prefix_none(pv, nv, k + 1);
                        }
                        return None;
                    },
                }
            },
            other => {
                let ghost ov = json_view(other);
                let ghost out0 = out@;
                out.push((key, other));
                proof {
                    lemma_entries_view(out@);
                    lemma_entries_view(out0);
                    assert(out@.drop_last() =~= out0);
                    assert(entries_view(out@) =~= prev.push((pv[k].0, ov)));
                }
            },
        }
        proof {
            k = k + 1;
        }
    }
    assert(pv.take(k) =~= pv);
    Some(out)
}

/// Makes one property schema strict (see [`strict_property`]).
fn strict_property_exec(pm: Vec<(String, JsonValue)>, required: bool, Ghost(pmv): Ghost<Members>) -> (r: Option<
    Vec<(String, JsonValue)>,
>)
    requires
        entries_view(pm@) == pmv,
    ensures
        match r {
            Some(v) => strict_property(pmv, required) == Some(entries_view(v@)),
            None => strict_property(pmv, required) is None,
        },
    decreases pmv, 1nat,
{
    proof {
        reveal_strlit("properties");
        reveal_strlit("required");
        reveal_strlit("items");
        reveal_strlit("type");
        reveal_strlit("additionalProperties");
        assert("items"@.len() != "type"@.len() && "items"@.len() != "additionalProperties"@.len());
        assert("properties"@.len() != "type"@.len() && "properties"@.len() != "additionalProperties"@.len());
        assert("required"@.len() != "type"@.len() && "required"@.len() != "additionalProperties"@.len());
    }
    let mut pm1 = pm;
    if !required {
        make_nullable(&mut pm1);
    }
    let ghost pm1v = entries_view(pm1@);
    assert(pm1v == (if required { pmv } else { nullable(pmv) }));
    let pm2 = if has_type_exec(&pm1, "object") {
        object_insert(&mut pm1, to_owned_string("additionalProperties"), JsonValue::Bool(false));
        proof {
            lemma_prepared_keeps(pmv, required, "properties"@);
            lemma_prepared_keeps(pmv, required, "required"@);
        }
        match strict_exec(pm1, Ghost(pmv)) {
            Some(r) => {
                proof {
                    lemma_strict_keeps_items(closed(pm1v), pmv, entries_view(r@));
                    lemma_prepared_keeps(pmv, required, "items"@);
                }
                r
            },
            None => {
                return None;
            },
        }
    } else {
        proof {
            lemma_prepared_keeps(pmv, required, "items"@);
        }
        pm1
    };
    let ghost p2 = entries_view(pm2@);
    assert(member_get(p2, "items"@) == member_get(pmv, "items"@));
    if !has_type_exec(&pm2, "array") {
        return Some(pm2);
    }
    let ii = match find_member(&pm2, "items") {
        Some(ii) => ii,
        None => {
            return Some(pm2);
        },
    };
    proof {
        lemma_found_member(pm2@, "items"@, ii as int);
        lemma_member_object_decreases(pmv, "items"@);
    }
    let mut im = match clone_json(&pm2[ii].1) {
        JsonValue::Object(im) => im,
        _ => {
            return Some(pm2);
        },
    };
    let ghost imv = entries_view(im@);
    let is_object = match find_member(&im, "type") {
        Some(ti) => {
            proof {
                lemma_found_member(im@, "type"@, ti as int);
            }
            is_str(&im[ti].1, "object")
        },
        None => false,
    };
    if !is_object {
        return Some(pm2);
    }
    object_insert(&mut im, to_owned_string("additionalProperties"), JsonValue::Bool(false));
    proof {
        lemma_get_after_insert(imv, "additionalProperties"@, Json::Bool(false), "properties"@);
        lemma_get_after_insert(imv, "additionalProperties"@, Json::Bool(false), "required"@);
    }
    match strict_exec(im, Ghost(imv)) {
        Some(si) => {
            let mut p = pm2;
            object_insert(&mut p, to_owned_string("items"), JsonValue::Object(si));
            Some(p)
        },
        None => None,
    }
}

/// The description of the `reason` argument every tool takes.
pub const REASON_DESCRIPTION: &'static str = "Short PT-BR description (≤6 words) of why you are calling this tool — shown to the user as the action label.";

/// The schema of the `reason` argument.
pub open spec fn reason_property() -> Json {
    Json::Object(seq![("description"@, Json::Str(REASON_DESCRIPTION@)), ("type"@, Json::Str("string"@))])
}

/// The members of an object member, none when it is absent; `None` when it
/// is not an object.
pub open spec fn object_or_empty(v: Option<Json>) -> Option<Members> {
    match v {
        None => Some(Seq::empty()),
        Some(Json::Object(m)) => Some(m),
        Some(_) => None,
    }
}

/// The items of an array member, none when it is absent; `None` when it is
/// not an array.
pub open spec fn array_or_empty(v: Option<Json>) -> Option<Seq<Json>> {
    match v {
        None => Some(Seq::empty()),
        Some(Json::Array(a)) => Some(a),
        Some(_) => None,
    }
}

/// A tool's input schema with the required `reason` argument added and then
/// made strict (see [`strict_members`]). A schema that is not an object
/// stays. `None` when `properties` or `required` has the wrong kind.
pub open spec fn with_reason(schema: Json) -> Option<Json> {
    match schema {
        Json::Object(m) => match object_or_empty(member_get(m, "properties"@)) {
            None => None,
            Some(p) => {
                let m1 = insert_spec(m, "properties"@, Json::Object(insert_spec(p, "reason"@, reason_property())));
                match array_or_empty(member_get(m1, "required"@)) {
                    None => None,
                    Some(a) => {
                        let a2 = if a.contains(Json::Str("reason"@)) {
                            a
                        } else {
                            a.push(Json::Str("reason"@))
                        };
                        let m2 = insert_spec(m1, "required"@, Json::Array(a2));
                        match strict_members(m2, m2) {
                            Some(m3) => Some(Json::Object(m3)),
                            None => None,
                        }
                    }
                }
            },
        },
        _ => Some(schema),
    }
}

fn reason_json() -> (r: JsonValue)
    ensures
        r@ == reason_property(),
{
    let v = vec![
        (to_owned_string("description"), JsonValue::Str(to_owned_string(REASON_DESCRIPTION))),
        (to_owned_string("type"), JsonValue::Str(to_owned_string("string"))),
    ];
    proof {
        lemma_entries_view(v@);
        assert(entries_view(v@) =~= seq![
            ("description"@, Json::Str(REASON_DESCRIPTION@)),
            ("type"@, Json::Str("string"@)),
        ]);
    }
    JsonValue::Object(v)
}

/// Makes the members of an object schema strict: every property required,
/// the optional ones nullable, nested object schemas strict in turn, no
/// additional properties (see [`strict_members`]). The input is one on
/// which every `required` member read is an array.
pub fn make_object_strict(obj: &mut Vec<(String, JsonValue)>)
    requires
        strict_members(entries_view(old(obj)@), entries_view(old(obj)@)) is Some,
    ensures
        strict_members(entries_view(old(obj)@), entries_view(old(obj)@)) == Some(entries_view(final(obj)@)),
{
    let ghost ov = entries_view(obj@);
    let mut x: Vec<(String, JsonValue)> = Vec::new();
    std::mem::swap(&mut x, obj);
    match strict_exec(x, Ghost(ov)) {
        Some(r) => {
            *obj = r;
        },
        None => {},
    }
}

/// The schema with the `reason` argument added and made strict, or `None`
/// (see [`with_reason`]).
pub fn schema_with_reason(schema: &JsonValue) -> (r: Option<JsonValue>)
    ensures
        match r {
            Some(v) => with_reason(schema@) == Some(v@),
            None => with_reason(schema@) is None,
        },
{
    let m0 = match schema {
        JsonValue::Object(_) => match clone_json(schema) {
            JsonValue::Object(m) => m,
            _ => {
                return None;
            },
        },
        _ => {
            return Some(clone_json(schema));
        },
    };
    let mut m = m0;
    let ghost mv = entries_view(m@);
    let mut p = match find_member(&m, "properties") {
        Some(i) => {
            proof {
                lemma_found_member(m@, "properties"@, i as int);
            }
            match clone_json(&m[i].1) {
                JsonValue::Object(p) => p,
                _ => {
                    return None;
                },
            }
        },
        None => {
            let e: Vec<(String, JsonValue)> = Vec::new();
            assert(entries_view(e@) =~= Seq::<(Seq<char>, Json)>::empty());
            e
        },
    };
    object_insert(&mut p, to_owned_string("reason"), reason_json());
    object_insert(&mut m, to_owned_string("properties"), JsonValue::Object(p));
    let ghost m1 = entries_view(m@);
    let mut a = match find_member(&m, "required") {
        Some(i) => {
            proof {
                lemma_found_member(m@, "required"@, i as int);
            }
            match clone_json(&m[i].1) {
                JsonValue::Array(a) => a,
                _ => {
                    return None;
                },
            }
        },
        None => {
            let e: Vec<JsonValue> = Vec::new();
            assert(items_view(e@) =~= Seq::<Json>::empty());
            e
        },
    };
    let ghost av = items_view(a@);
    if !items_contain_str(&a, "reason") {
        let ghost a0 = a@;
        a.push(JsonValue::Str(to_owned_string("reason")));
        proof {
            lemma_items_view(a@);
            lemma_items_view(a0);
            assert(a@.drop_last() =~= a0);
            assert(items_view(a@) =~= av.push(Json::Str("reason"@)));
        }
    }
    object_insert(&mut m, to_owned_string("required"), JsonValue::Array(a));
    let ghost m2 = entries_view(m@);
    match strict_exec(m, Ghost(m2)) {
        Some(r) => Some(JsonValue::Object(r)),
        None => None,
    }
}

/// Adds to a tool's input schema a required `reason` argument, the short
/// label of the call shown to the user, and makes the schema strict (see
/// [`with_reason`]). The input is a schema whose `properties` and
/// `required` members, where present, are an object and an array.
pub fn inject_reason_into_schema(schema: &mut JsonValue)
    requires
        with_reason(old(schema)@) is Some,
    ensures
        with_reason(old(schema)@) == Some(final(schema)@),
{
    match schema_with_reason(schema) {
        Some(v) => {
            *schema = v;
        },
        None => {},
    }
}

/// The description of the tool that asks the user a question.
pub const ASK_QUESTION_DESCRIPTION: &'static str = "Ask the user a structured question and wait for their answer. Use only when a user decision is required to proceed. The conversation pauses until the user responds.";

/// The description of the question's `type` argument.
pub const ASK_TYPE_DESCRIPTION: &'static str = "'single' for one option button, 'multi' for checkboxes, 'text' for a free-text field.";

/// The description of the question's `options` argument.
pub const ASK_OPTIONS_DESCRIPTION: &'static str = "List of options. Required for 'single' and 'multi'. Omit for 'text'.";

/// The description of the question's `question` argument.
pub const ASK_QUESTION_ARG_DESCRIPTION: &'static str = "The question to ask the user.";

/// The input schema of `ask_question` (members in key order).
pub open spec fn ask_question_schema() -> Json {
    Json::Object(
        seq![
            (
                "properties"@,
                Json::Object(
                    seq![
                        (
                            "options"@,
                            Json::Object(
                                seq![
                                    ("description"@, Json::Str(ASK_OPTIONS_DESCRIPTION@)),
                                    ("items"@, Json::Object(seq![("type"@, Json::Str("string"@))])),
                                    ("type"@, Json::Str("array"@)),
                                ],
                            ),
                        ),
                        (
                            "question"@,
                            Json::Object(
                                seq![
                                    ("description"@, Json::Str(ASK_QUESTION_ARG_DESCRIPTION@)),
                                    ("type"@, Json::Str("string"@)),
                                ],
                            ),
                        ),
                        (
                            "type"@,
                            Json::Object(
                                seq![
                                    ("description"@, Json::Str(ASK_TYPE_DESCRIPTION@)),
                                    (
                                        "enum"@,
                                        Json::Array(seq![Json::Str("single"@), Json::Str("multi"@), Json::Str("text"@)]),
                                    ),
                                    ("type"@, Json::Str("string"@)),
                                ],
                            ),
                        ),
                    ],
                ),
            ),
            ("required"@, Json::Array(seq![Json::Str("question"@), Json::Str("type"@)])),
            ("type"@, Json::Str("object"@)),
        ],
    )
}

fn ask_question_schema_json() -> (r: JsonValue)
    ensures
        r@ == ask_question_schema(),
{
    let options = object3(
        member("description", jstr(ASK_OPTIONS_DESCRIPTION)),
        member("items", object1(member("type", jstr("string")))),
        member("type", jstr("array")),
    );
    let question = object2(
        member("description", jstr(ASK_QUESTION_ARG_DESCRIPTION)),
        member("type", jstr("string")),
    );
    let kinds = array3(jstr("single"), jstr("multi"), jstr("text"));
    let kind = object3(
        member("description", jstr(ASK_TYPE_DESCRIPTION)),
        member("enum", kinds),
        member("type", jstr("string")),
    );
    let required = array2(jstr("question"), jstr("type"));
    object3(
        member("properties", object3(member("options", options), member("question", question), member("type", kind))),
        member("required", required),
        member("type", jstr("object")),
    )
}

/// The property can be made strict.
spec fn property_ok(e: (Seq<char>, Json), names: Seq<Seq<char>>) -> bool {
    match e.1 {
        Json::Object(pm) => strict_property(pm, names.contains(e.0)) is Some,
        _ => true,
    }
}

/// The properties can be made strict when each object among them can.
proof fn lemma_fixed_props_some(props: Members, names: Seq<Seq<char>>)
    requires
        forall|i: int| 0 <= i < props.len() ==> property_ok(#[trigger] props[i], names),
    ensures
        fixed_props(props, names) is Some,
    decreases props.len(),
{
    if props.len() > 0 {
        let front = props.subrange(0, props.len() - 1);
        assert forall|i: int| 0 <= i < front.len() implies property_ok(#[trigger] front[i], names) by {
            assert(front[i] == props[i]);
        }
        lemma_fixed_props_some(front, names);
        assert(property_ok(props[props.len() - 1], names));
    }
}

/// A property whose type is a plain string other than `object` and
/// `array`, and that is required, stays as it is.
proof fn lemma_plain_required_property(pm: Members, t: Seq<char>)
    requires
        member_get(pm, "type"@) == Some(Json::Str(t)),
        t != "object"@,
        t != "array"@,
    ensures
        strict_property(pm, true) == Some(pm),
{
}

/// The member found under `k` is the first one with that key.
proof fn lemma_member_get_at(m: Members, k: Seq<char>, i: int)
    requires
        0 <= i < m.len(),
        m[i].0 == k,
        forall|j: int| 0 <= j < i ==> m[j].0 != k,
    ensures
        member_get(m, k) == Some(m[i].1),
{
    crate::json::lemma_member_index_is(m, k, i);
}

/// The `ask_question` schema takes the `reason` argument and can be made
/// strict.
proof fn lemma_ask_question_schema_strict()
    ensures
        with_reason(ask_question_schema()) is Some,
{
    reveal_strlit("properties");
    reveal_strlit("required");
    reveal_strlit("type");
    reveal_strlit("options");
    reveal_strlit("question");
    reveal_strlit("reason");
    reveal_strlit("description");
    reveal_strlit("items");
    reveal_strlit("string");
    reveal_strlit("array");
    reveal_strlit("object");
    reveal_strlit("null");
    reveal_strlit("enum");
    let m = ask_question_schema()->Object_0;
    let p = m[0].1->Object_0;
    assert(member_get(m, "properties"@) == Some(Json::Object(p)));
    assert("reason"@.len() == 6 && "options"@.len() == 7 && "question"@.len() == 8 && "type"@.len() == 4);
    assert("reason"@ != "options"@);
    assert(!crate::json::key_lt("reason"@, "options"@));
    assert("reason"@ != "question"@);
    assert(!crate::json::key_lt("reason"@, "question"@));
    assert("reason"@ != "type"@);
    assert(crate::json::key_lt("reason"@, "type"@));
    let r = ("reason"@, reason_property());
    let p1 = p.drop_first();
    let p2 = p1.drop_first();
    assert(p1[0] == p[1]);
    assert(p2[0] == p[2]);
    assert(p2.len() == 1);
    assert(insert_spec(p2, "reason"@, reason_property()) == seq![r] + p2);
    assert(insert_spec(p1, "reason"@, reason_property()) == seq![p1[0]] + insert_spec(p2, "reason"@, reason_property()));
    assert(insert_spec(p, "reason"@, reason_property()) == seq![p[0]] + insert_spec(p1, "reason"@, reason_property()));
    let rp = insert_spec(p, "reason"@, reason_property());
    assert(rp =~= seq![p[0], p[1], r, p[2]]);
    let m1 = insert_spec(m, "properties"@, Json::Object(rp));
    assert("properties"@ != "required"@);
    lemma_get_after_insert(m, "properties"@, Json::Object(rp), "required"@);
    lemma_member_get_unfold(m, "required"@);
    lemma_member_get_unfold(m.drop_first(), "required"@);
    assert(m.drop_first()[0] == m[1]);
    assert(member_get(m, "required"@) == Some(m[1].1));
    let a = m[1].1->Array_0;
    assert(a[0] != Json::Str("reason"@));
    assert(a[1] != Json::Str("reason"@));
    assert(!a.contains(Json::Str("reason"@)));
    let a2 = a.push(Json::Str("reason"@));
    let m2 = insert_spec(m1, "required"@, Json::Array(a2));
    lemma_get_after_insert(m1, "required"@, Json::Array(a2), "properties"@);
    lemma_get_after_insert(m, "properties"@, Json::Object(rp), "properties"@);
    lemma_get_after_insert(m1, "required"@, Json::Array(a2), "required"@);
    assert(member_get(m2, "properties"@) == Some(Json::Object(rp)));
    assert(member_get(m2, "required"@) == Some(Json::Array(a2)));
    let names = string_items(a2);
    assert(a2.drop_last() == a);
    assert(a.drop_last() =~= seq![Json::Str("question"@)]);
    assert(seq![Json::Str("question"@)].drop_last() =~= Seq::<Json>::empty());
    let q1 = seq![Json::Str("question"@)];
    assert(q1.drop_last() =~= Seq::<Json>::empty());
    assert(string_items(Seq::<Json>::empty()) == Seq::<Seq<char>>::empty());
    assert(string_items(q1) =~= seq!["question"@]);
    assert(a.drop_last() == q1);
    assert(string_items(a) =~= seq!["question"@, "type"@]);
    assert(names =~= seq!["question"@, "type"@, "reason"@]);
    assert(!names.contains("options"@)) by {
        assert("options"@ != "question"@);
        assert("options"@ != "type"@);
    }
    assert(names[0] == "question"@);
    assert(names[1] == "type"@);
    assert(names[2] == "reason"@);
    // options: optional, becomes nullable; its items are strings.
    assert("description"@.len() == 11 && "items"@.len() == 5 && "enum"@.len() == 4);
    assert("description"@ != "type"@ && "items"@ != "type"@ && "description"@ != "items"@);
    assert("enum"@ != "type"@) by {
        assert("enum"@[0] != "type"@[0]);
    }
    let po = p[0].1->Object_0;
    lemma_member_get_at(po, "type"@, 2);
    assert(member_get(po, "type"@) == Some(Json::Str("array"@)));
    assert("array"@.len() == 5 && "null"@.len() == 4 && "object"@.len() == 6 && "string"@.len() == 6);
    assert("array"@ != "null"@ && "array"@ != "object"@ && "null"@ != "object"@);
    assert("string"@ != "object"@) by {
        assert("string"@[0] != "object"@[0]);
    }
    let t2 = Json::Array(seq![Json::Str("array"@), Json::Str("null"@)]);
    let po1 = nullable(po);
    assert(po1 == insert_spec(po, "type"@, t2));
    lemma_get_after_insert(po, "type"@, t2, "type"@);
    assert(t2->Array_0[0] != Json::Str("object"@));
    assert(t2->Array_0[1] != Json::Str("object"@));
    assert(!has_type(po1, "object"@));
    assert(t2->Array_0[0] == Json::Str("array"@));
    assert(has_type(po1, "array"@));
    lemma_member_get_at(po, "items"@, 1);
    lemma_get_after_insert(po, "type"@, t2, "items"@);
    assert(member_get(po, "items"@) == Some(po[1].1));
    let im = po[1].1->Object_0;
    lemma_member_get_at(im, "type"@, 0);
    assert(member_get(im, "type"@) == Some(Json::Str("string"@)));
    assert(Json::Str("string"@) != Json::Str("object"@));
    assert(strict_property(po, false) == Some(po1));
    // the required string properties stay.
    assert("string"@ != "array"@);
    let pq = p[1].1->Object_0;
    lemma_member_get_at(pq, "type"@, 1);
    assert(member_get(pq, "type"@) == Some(Json::Str("string"@)));
    lemma_plain_required_property(pq, "string"@);
    let pr = reason_property()->Object_0;
    lemma_member_get_at(pr, "type"@, 1);
    assert(member_get(pr, "type"@) == Some(Json::Str("string"@)));
    lemma_plain_required_property(pr, "string"@);
    let pt = p[2].1->Object_0;
    lemma_member_get_at(pt, "type"@, 2);
    assert(member_get(pt, "type"@) == Some(Json::Str("string"@)));
    lemma_plain_required_property(pt, "string"@);
    assert(names.contains("question"@));
    assert(names.contains("type"@));
    assert(names.contains("reason"@));
    assert(property_ok(rp[0], names));
    assert(property_ok(rp[1], names));
    assert(property_ok(rp[2], names));
    assert(property_ok(rp[3], names));
    lemma_fixed_props_some(rp, names);
}

/// The tools of a conversation: the given tools, then `ask_question`, each
/// with the `reason` argument added to its schema and the schema made
/// strict (see [`with_reason`]). The given tools are those whose schemas'
/// `properties` and `required` members, where present, are an object and an
/// array.
pub fn build_conversation_tools(tools: Vec<ToolDefinition>) -> (r: Vec<ToolDefinition>)
    requires
        forall|i: int| 0 <= i < tools@.len() ==> with_reason(#[trigger] tools@[i].input_schema@) is Some,
    ensures
        r@.len() == tools@.len() + 1,
        forall|i: int|
            0 <= i < tools@.len() ==> {
                &&& (#[trigger] r@[i]).name@ == tools@[i].name@
                &&& r@[i].description@ == tools@[i].description@
                &&& with_reason(tools@[i].input_schema@) == Some(r@[i].input_schema@)
            },
        r@[tools@.len() as int].name@ == "ask_question"@,
        r@[tools@.len() as int].description@ == ASK_QUESTION_DESCRIPTION@,
        with_reason(ask_question_schema()) == Some(r@[tools@.len() as int].input_schema@),
{
    let ghost given = tools@;
    let mut out: Vec<ToolDefinition> = Vec::new();
    let mut rest = tools;
    let ghost mut k: int = 0;
    assert(given.skip(0) =~= given);
    while rest.len() > 0
        invariant
            0 <= k <= given.len(),
            rest@.len() + k == given.len(),
            rest@ == given.skip(k),
            forall|i: int| 0 <= i < given.len() ==> with_reason(#[trigger] given[i].input_schema@) is Some,
            out@.len() == k,
            forall|i: int|
                0 <= i < k ==> {
                    &&& (#[trigger] out@[i]).name@ == given[i].name@
                    &&& out@[i].description@ == given[i].description@
                    &&& with_reason(given[i].input_schema@) == Some(out@[i].input_schema@)
                },
        decreases rest.len(),
    {
        let ghost r0 = rest@;
        let t = rest.remove(0);
        assert(rest@ =~= given.skip(k + 1));
        assert(t == given[k]);
        let ToolDefinition { name, description, input_schema } = t;
        let mut schema = input_schema;
        inject_reason_into_schema(&mut schema);
        out.push(ToolDefinition { name, description, input_schema: schema });
        proof {
            k = k + 1;
        }
    }
    let mut ask = ask_question_schema_json();
    proof {
        lemma_ask_question_schema_strict();
    }
    inject_reason_into_schema(&mut ask);
    out.push(
        ToolDefinition {
            name: to_owned_string("ask_question"),
            description: to_owned_string(ASK_QUESTION_DESCRIPTION),
            input_schema: ask,
        },
    );
    out
}

} // verus!
