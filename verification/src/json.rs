//! A model of JSON values as the tool-calling code reads and builds them.
//!
//! [`JsonValue`] is the executable value; its view, [`Json`], is the
//! mathematical one that contracts speak of. Objects keep their members in
//! the order in which `serde_json::Map` (a `BTreeMap`) iterates them: sorted
//! by key, no key repeated. Numbers are kept as their JSON text.
use vstd::prelude::*;
use crate::text::{chars_of, str_eq};

verus! {

#[derive(Debug, PartialEq)]
pub enum JsonValue {
    Null,
    Bool(bool),
    /// A number, as the text `serde_json` prints for it (`42`, `-7`, `2.5`).
    Number(String),
    Str(String),
    Array(Vec<JsonValue>),
    Object(Vec<(String, JsonValue)>),
}

/// A JSON value as a mathematical object.
pub enum Json {
    Null,
    Bool(bool),
    Number(Seq<char>),
    Str(Seq<char>),
    Array(Seq<Json>),
    Object(Seq<(Seq<char>, Json)>),
}

pub open spec fn json_view(v: JsonValue) -> Json
    decreases v,
{
    match v {
        JsonValue::Null => Json::Null,
        JsonValue::Bool(b) => Json::Bool(b),
        JsonValue::Number(t) => Json::Number(t@),
        JsonValue::Str(s) => Json::Str(s@),
        JsonValue::Array(a) => Json::Array(items_view(a@)),
        JsonValue::Object(m) => Json::Object(entries_view(m@)),
    }
}

pub open spec fn items_view(s: Seq<JsonValue>) -> Seq<Json>
    decreases s,
{
    if s.len() == 0 {
        Seq::empty()
    } else {
        seq![json_view(s[0])] + items_view(s.drop_first())
    }
}

pub open spec fn entries_view(s: Seq<(String, JsonValue)>) -> Seq<(Seq<char>, Json)>
    decreases s,
{
    if s.len() == 0 {
        Seq::empty()
    } else {
        seq![(s[0].0@, json_view(s[0].1))] + entries_view(s.drop_first())
    }
}

pub open spec fn entry_view(e: (String, JsonValue)) -> (Seq<char>, Json) {
    (e.0@, json_view(e.1))
}

impl View for JsonValue {
    type V = Json;

    open spec fn view(&self) -> Json {
        json_view(*self)
    }
}

pub broadcast proof fn lemma_items_view(s: Seq<JsonValue>)
    ensures
        #[trigger] items_view(s) == s.map_values(|x: JsonValue| json_view(x)),
    decreases s.len(),
{
    if s.len() > 0 {
        lemma_items_view(s.drop_first());
        assert(items_view(s) =~= s.map_values(|x: JsonValue| json_view(x)));
    } else {
        assert(items_view(s) =~= s.map_values(|x: JsonValue| json_view(x)));
    }
}

pub broadcast proof fn lemma_entries_view(s: Seq<(String, JsonValue)>)
    ensures
        #[trigger] entries_view(s) == s.map_values(|e: (String, JsonValue)| entry_view(e)),
    decreases s.len(),
{
    if s.len() > 0 {
        lemma_entries_view(s.drop_first());
        assert(entries_view(s) =~= s.map_values(|e: (String, JsonValue)| entry_view(e)));
    } else {
        assert(entries_view(s) =~= s.map_values(|e: (String, JsonValue)| entry_view(e)));
    }
}

pub broadcast group group_json_view {
    lemma_items_view,
    lemma_entries_view,
}

/// A deep copy of `v`.
#[verifier::loop_isolation(false)]
pub fn clone_json(v: &JsonValue) -> (r: JsonValue)
    ensures
        r@ == v@,
    decreases v,
{
    broadcast use group_json_view;

    match v {
        JsonValue::Null => JsonValue::Null,
        JsonValue::Bool(b) => JsonValue::Bool(*b),
        JsonValue::Number(t) => JsonValue::Number(t.clone()),
        JsonValue::Str(s) => JsonValue::Str(s.clone()),
        JsonValue::Array(a) => {
            let mut out: Vec<JsonValue> = Vec::new();
            let mut i: usize = 0;
            while i < a.len()
                invariant
                    i <= a@.len(),
                    out@.map_values(|x: JsonValue| json_view(x)) =~= a@.take(i as int).map_values(
                        |x: JsonValue| json_view(x),
                    ),
                decreases a.len() - i,
            {
                proof {
                    assert(decreases_to!(*v => *a));
                    assert(decreases_to!(*a => a@));
                    assert(decreases_to!(a@ => a@[i as int]));
                }
                let c = clone_json(&a[i]);
                let ghost before = out@;
                out.push(c);
                assert(out@.map_values(|x: JsonValue| json_view(x)) =~= before.map_values(|x: JsonValue| json_view(x)).push(json_view(a@[i as int])));
                assert(a@.take(i + 1) =~= a@.take(i as int).push(a@[i as int]));
                i = i + 1;
                assert(out@.map_values(|x: JsonValue| json_view(x)) =~= a@.take(i as int).map_values(
                    |x: JsonValue| json_view(x),
                ));
            }
            assert(a@.take(a@.len() as int) =~= a@);
            assert(items_view(out@) =~= items_view(a@));
            JsonValue::Array(out)
        },
        JsonValue::Object(m) => {
            let mut out: Vec<(String, JsonValue)> = Vec::new();
            let mut i: usize = 0;
            while i < m.len()
                invariant
                    i <= m@.len(),
                    out@.map_values(|e: (String, JsonValue)| entry_view(e)) =~= m@.take(
                        i as int,
                    ).map_values(|e: (String, JsonValue)| entry_view(e)),
                decreases m.len() - i,
            {
                proof {
                    assert(decreases_to!(*v => *m));
                    assert(decreases_to!(*m => m@));
                    assert(decreases_to!(m@ => m@[i as int]));
                    assert(decreases_to!(m@[i as int] => m@[i as int].1));
                }
                let c = clone_json(&m[i].1);
                let ghost before = out@;
                out.push((m[i].0.clone(), c));
                assert(out@.map_values(|e: (String, JsonValue)| entry_view(e)) =~= before.map_values(|e: (String, JsonValue)| entry_view(e)).push(entry_view(m@[i as int])));
                assert(m@.take(i + 1) =~= m@.take(i as int).push(m@[i as int]));
                i = i + 1;
                assert(out@.map_values(|e: (String, JsonValue)| entry_view(e)) =~= m@.take(
                    i as int,
                ).map_values(|e: (String, JsonValue)| entry_view(e)));
            }
            assert(m@.take(m@.len() as int) =~= m@);
            assert(entries_view(out@) =~= entries_view(m@));
            JsonValue::Object(out)
        },
    }
}

/// Strict lexicographic order of character sequences by code point (the
/// order of `String`'s `Ord`, since UTF-8 preserves it).
pub open spec fn key_lt(a: Seq<char>, b: Seq<char>) -> bool
    decreases a.len(),
{
    if b.len() == 0 {
        false
    } else if a.len() == 0 {
        true
    } else if (a[0] as u32) < (b[0] as u32) {
        true
    } else if a[0] == b[0] {
        key_lt(a.drop_first(), b.drop_first())
    } else {
        false
    }
}

/// The members are strictly sorted by key.
pub open spec fn sorted_keys(m: Seq<(Seq<char>, Json)>) -> bool {
    forall|i: int, j: int| 0 <= i < j < m.len() ==> key_lt(m[i].0, m[j].0)
}

/// Index of the first member with key `k`.
pub open spec fn member_index(m: Seq<(Seq<char>, Json)>, k: Seq<char>) -> Option<int>
    decreases m.len(),
{
    if m.len() == 0 {
        None
    } else if m[0].0 == k {
        Some(0)
    } else {
        match member_index(m.drop_first(), k) {
            Some(i) => Some(i + 1),
            None => None,
        }
    }
}

/// The value of the member `k` of the members `m`.
pub open spec fn member_get(m: Seq<(Seq<char>, Json)>, k: Seq<char>) -> Option<Json> {
    match member_index(m, k) {
        Some(i) => Some(m[i].1),
        None => None,
    }
}

/// `Value::get(key)`: the member `key` of an object; `None` for other values.
pub open spec fn get_spec(v: Json, k: Seq<char>) -> Option<Json> {
    match v {
        Json::Object(m) => member_get(m, k),
        _ => None,
    }
}

/// `Value::as_str`.
pub open spec fn as_str_spec(v: Json) -> Option<Seq<char>> {
    match v {
        Json::Str(s) => Some(s),
        _ => None,
    }
}

/// `v.get(k).and_then(Value::as_str)`.
pub open spec fn get_str_spec(v: Json, k: Seq<char>) -> Option<Seq<char>> {
    match get_spec(v, k) {
        Some(x) => as_str_spec(x),
        None => None,
    }
}

/// `Value::get(index)` on an array: the item at `i`; `None` for other values
/// or past the end.
pub open spec fn item_spec(v: Json, i: int) -> Option<Json> {
    match v {
        Json::Array(a) => if 0 <= i < a.len() {
            Some(a[i])
        } else {
            None
        },
        _ => None,
    }
}

pub proof fn lemma_member_index_bounds(m: Seq<(Seq<char>, Json)>, k: Seq<char>)
    ensures
        match member_index(m, k) {
            Some(i) => 0 <= i < m.len() && m[i].0 == k && forall|j: int|
                0 <= j < i ==> m[j].0 != k,
            None => forall|j: int| 0 <= j < m.len() ==> m[j].0 != k,
        },
    decreases m.len(),
{
    if m.len() > 0 {
        lemma_member_index_bounds(m.drop_first(), k);
        if m[0].0 != k {
            match member_index(m.drop_first(), k) {
                Some(i) => {
                    assert forall|j: int| 0 <= j < i + 1 implies m[j].0 != k by {
                        if j > 0 {
                            assert(m[j] == m.drop_first()[j - 1]);
                        }
                    }
                },
                None => {
                    assert forall|j: int| 0 <= j < m.len() implies m[j].0 != k by {
                        if j > 0 {
                            assert(m[j] == m.drop_first()[j - 1]);
                        }
                    }
                },
            }
        }
    }
}

/// The index of the first member whose key satisfies `first at i, none before`.
pub proof fn lemma_member_index_is(m: Seq<(Seq<char>, Json)>, k: Seq<char>, i: int)
    requires
        0 <= i < m.len(),
        m[i].0 == k,
        forall|j: int| 0 <= j < i ==> m[j].0 != k,
    ensures
        member_index(m, k) == Some(i),
{
    lemma_member_index_bounds(m, k);
    match member_index(m, k) {
        Some(x) => {
            if x < i {
                assert(m[x].0 != k);
            } else if x > i {
                assert(m[i].0 != k);
            }
        },
        None => {
            assert(m[i].0 != k);
        },
    }
}

/// Position of the member `key` in `entries`.
pub fn find_member(entries: &Vec<(String, JsonValue)>, key: &str) -> (r: Option<usize>)
    ensures
        match r {
            Some(i) => member_index(entries_view(entries@), key@) == Some(i as int),
            None => member_index(entries_view(entries@), key@) is None,
        },
        r matches Some(i) ==> i < entries@.len(),
{
    broadcast use group_json_view;

    let ghost m = entries_view(entries@);
    proof {
        lemma_member_index_bounds(m, key@);
        lemma_entries_view(entries@);
    }
    let mut i: usize = 0;
    while i < entries.len()
        invariant
            i <= entries@.len(),
            m == entries_view(entries@),
            m == entries@.map_values(|e: (String, JsonValue)| entry_view(e)),
            forall|j: int| 0 <= j < i ==> m[j].0 != key@,
            match member_index(m, key@) {
                Some(x) => 0 <= x < m.len() && m[x].0 == key@ && forall|j: int|
                    0 <= j < x ==> m[j].0 != key@,
                None => forall|j: int| 0 <= j < m.len() ==> m[j].0 != key@,
            },
        decreases entries.len() - i,
    {
        assert(m[i as int].0 == entries@[i as int].0@);
        if str_eq(entries[i].0.as_str(), key) {
            proof {
                lemma_member_index_is(m, key@, i as int);
            }
            return Some(i);
        }
        i = i + 1;
    }
    None
}

/// `Value::get(key)`.
pub fn json_get<'a>(v: &'a JsonValue, key: &str) -> (r: Option<&'a JsonValue>)
    ensures
        match r {
            Some(x) => get_spec(v@, key@) == Some(x@),
            None => get_spec(v@, key@) is None,
        },
{
    broadcast use group_json_view;

    match v {
        JsonValue::Object(entries) => match find_member(entries, key) {
            Some(i) => {
                assert(entries_view(entries@)[i as int] == entry_view(entries@[i as int]));
                Some(&entries[i].1)
            },
            None => None,
        },
        _ => None,
    }
}

/// `Value::as_str`.
pub fn json_as_str(v: &JsonValue) -> (r: Option<&String>)
    ensures
        match r {
            Some(s) => as_str_spec(v@) == Some(s@),
            None => as_str_spec(v@) is None,
        },
{
    match v {
        JsonValue::Str(s) => Some(s),
        _ => None,
    }
}

/// `v.get(key).and_then(Value::as_str)`.
pub fn json_get_str<'a>(v: &'a JsonValue, key: &str) -> (r: Option<&'a String>)
    ensures
        match r {
            Some(s) => get_str_spec(v@, key@) == Some(s@),
            None => get_str_spec(v@, key@) is None,
        },
{
    match json_get(v, key) {
        Some(x) => json_as_str(x),
        None => None,
    }
}

/// `Value::as_object`: the members of an object.
pub fn json_as_object(v: &JsonValue) -> (r: Option<&Vec<(String, JsonValue)>>)
    ensures
        match r {
            Some(m) => v@ == Json::Object(entries_view(m@)),
            None => !(v@ is Object),
        },
{
    match v {
        JsonValue::Object(m) => Some(m),
        _ => None,
    }
}

/// `Value::as_array`: the items of an array.
pub fn json_as_array(v: &JsonValue) -> (r: Option<&Vec<JsonValue>>)
    ensures
        match r {
            Some(a) => v@ == Json::Array(items_view(a@)),
            None => !(v@ is Array),
        },
{
    match v {
        JsonValue::Array(a) => Some(a),
        _ => None,
    }
}

/// `Value::get(index)` on an array.
pub fn json_item(v: &JsonValue, index: usize) -> (r: Option<&JsonValue>)
    ensures
        match r {
            Some(x) => item_spec(v@, index as int) == Some(x@),
            None => item_spec(v@, index as int) is None,
        },
{
    broadcast use group_json_view;

    match v {
        JsonValue::Array(a) => if index < a.len() {
            assert(items_view(a@)[index as int] == json_view(a@[index as int]));
            Some(&a[index])
        } else {
            None
        },
        _ => None,
    }
}

/// `get_spec(v, k)` is a part of `v`.
pub proof fn lemma_get_decreases(v: Json, k: Seq<char>)
    ensures
        get_spec(v, k) matches Some(x) ==> decreases_to!(v => x),
{
    match v {
        Json::Object(m) => {
            lemma_member_index_bounds(m, k);
            match member_index(m, k) {
                Some(i) => {
                    assert(decreases_to!(v => m));
                    assert(decreases_to!(m => m[i]));
                    assert(decreases_to!(m[i] => m[i].1));
                },
                None => {},
            }
        },
        _ => {},
    }
}

/// Whether `a` comes strictly before `b` in key order.
pub fn key_less(a: &Vec<char>, b: &Vec<char>) -> (r: bool)
    ensures
        r == key_lt(a@, b@),
{
    let mut i: usize = 0;
    assert(a@.skip(0) =~= a@);
    assert(b@.skip(0) =~= b@);
    while i < a.len() && i < b.len() && a[i] == b[i]
        invariant
            i <= a.len(),
            i <= b.len(),
            key_lt(a@, b@) == key_lt(a@.skip(i as int), b@.skip(i as int)),
        decreases a.len() - i,
    {
        proof {
            assert(a@.skip(i as int).drop_first() =~= a@.skip(i + 1));
            assert(b@.skip(i as int).drop_first() =~= b@.skip(i + 1));
        }
        i = i + 1;
    }
    if i >= b.len() {
        false
    } else if i >= a.len() {
        true
    } else {
        assert(a@.skip(i as int)[0] == a@[i as int]);
        assert(b@.skip(i as int)[0] == b@[i as int]);
        (a[i] as u32) < (b[i] as u32)
    }
}

/// `Map::insert` on members sorted by key: the value of `key` is replaced
/// when present, otherwise the member is inserted at its place in key order.
pub open spec fn insert_spec(m: Seq<(Seq<char>, Json)>, key: Seq<char>, val: Json) -> Seq<
    (Seq<char>, Json),
>
    decreases m.len(),
{
    if m.len() == 0 {
        seq![(key, val)]
    } else if m[0].0 == key {
        seq![(key, val)] + m.drop_first()
    } else if key_lt(key, m[0].0) {
        seq![(key, val)] + m
    } else {
        seq![m[0]] + insert_spec(m.drop_first(), key, val)
    }
}

pub proof fn lemma_insert_spec_split(m: Seq<(Seq<char>, Json)>, i: int, key: Seq<char>, val: Json)
    requires
        0 <= i <= m.len(),
        forall|j: int| 0 <= j < i ==> m[j].0 != key && !key_lt(key, m[j].0),
    ensures
        insert_spec(m, key, val) == m.take(i) + insert_spec(m.skip(i), key, val),
    decreases i,
{
    if i > 0 {
        lemma_insert_spec_split(m.drop_first(), i - 1, key, val);
        assert(m.drop_first().take(i - 1) =~= m.take(i).drop_first());
        assert(m.drop_first().skip(i - 1) =~= m.skip(i));
        assert(m.take(i) =~= seq![m[0]] + m.take(i).drop_first());
    } else {
        assert(m.skip(0) =~= m);
        assert(m.take(0) =~= Seq::<(Seq<char>, Json)>::empty());
    }
}

/// `Map::insert` on sorted members: replaces the value of `key` when present,
/// otherwise inserts the member at its place in key order.
pub fn object_insert(entries: &mut Vec<(String, JsonValue)>, key: String, val: JsonValue)
    ensures
        entries_view(final(entries)@) == insert_spec(entries_view(old(entries)@), key@, val@),
{
    broadcast use group_json_view;

    let ghost m = entries_view(old(entries)@);
    proof {
        lemma_entries_view(old(entries)@);
    }
    let kc = chars_of(key.as_str());
    let mut i: usize = 0;
    while i < entries.len()
        invariant
            i <= entries@.len(),
            entries@ == old(entries)@,
            m == entries_view(old(entries)@),
            m == old(entries)@.map_values(|e: (String, JsonValue)| entry_view(e)),
            kc@ == key@,
            forall|j: int| 0 <= j < i ==> m[j].0 != key@ && !key_lt(key@, m[j].0),
        decreases entries.len() - i,
    {
        let ec = chars_of(entries[i].0.as_str());
        assert(m[i as int].0 == entries@[i as int].0@);
        let same = str_eq(entries[i].0.as_str(), key.as_str());
        if same || key_less(&kc, &ec) {
            proof {
                lemma_insert_spec_split(m, i as int, key@, val@);
                assert(m.skip(i as int)[0] == m[i as int]);
                assert(m.skip(i as int).drop_first() =~= m.skip(i + 1));
            }
            if same {
                entries.remove(i);
            }
            entries.insert(i, (key, val));
            proof {
                lemma_entries_view(entries@);
                let ghost t = m.skip(i as int);
                let ghost want = m.take(i as int) + insert_spec(t, key@, val@);
                if same {
                    assert(t[0].0 == key@);
                    assert(insert_spec(t, key@, val@) == seq![(key@, val@)] + t.drop_first());
                } else {
                    assert(t[0].0 != key@);
                    assert(key_lt(key@, t[0].0));
                    assert(insert_spec(t, key@, val@) == seq![(key@, val@)] + t);
                }
                assert(entries_view(entries@).len() == want.len());
                assert forall|j: int| 0 <= j < want.len() implies entries_view(entries@)[j] == want[j] by {
                    if j < i {
                        assert(entries@[j] == old(entries)@[j]);
                    } else if j > i {
                        if same {
                            assert(entries@[j] == old(entries)@[j]);
                        } else {
                            assert(entries@[j] == old(entries)@[j - 1]);
                        }
                    }
                }
                assert(entries_view(entries@) =~= want);
            }
            return;
        }
        i = i + 1;
    }
    proof {
        lemma_insert_spec_split(m, i as int, key@, val@);
        assert(m.skip(i as int).len() == 0);
        assert(m.take(i as int) =~= m);
    }
    entries.push((key, val));
    proof {
        assert(entries_view(entries@) =~= m + seq![(key@, val@)]);
    }
}

// ---------------------------------------------------------------------------
// Building values
// ---------------------------------------------------------------------------

/// A JSON string.
pub fn jstr(s: &str) -> (r: JsonValue)
    ensures
        r@ == Json::Str(s@),
{
    JsonValue::Str(crate::text::to_owned_string(s))
}

/// An object member.
pub fn member(k: &str, v: JsonValue) -> (r: (String, JsonValue))
    ensures
        r.0@ == k@,
        r.1@ == v@,
{
    (crate::text::to_owned_string(k), v)
}

/// An object of one member.
pub fn object1(a: (String, JsonValue)) -> (r: JsonValue)
    ensures
        r@ == Json::Object(seq![(a.0@, a.1@)]),
{
    let v = vec![a];
    proof {
        lemma_entries_view(v@);
        assert(entries_view(v@) =~= seq![(v@[0].0@, json_view(v@[0].1))]);
    }
    JsonValue::Object(v)
}

/// An object of two members, in the order given.
pub fn object2(a: (String, JsonValue), b: (String, JsonValue)) -> (r: JsonValue)
    ensures
        r@ == Json::Object(seq![(a.0@, a.1@), (b.0@, b.1@)]),
{
    let v = vec![a, b];
    proof {
        lemma_entries_view(v@);
        assert(entries_view(v@) =~= seq![(v@[0].0@, json_view(v@[0].1)), (v@[1].0@, json_view(v@[1].1))]);
    }
    JsonValue::Object(v)
}

/// An object of three members, in the order given.
pub fn object3(a: (String, JsonValue), b: (String, JsonValue), c: (String, JsonValue)) -> (r: JsonValue)
    ensures
        r@ == Json::Object(seq![(a.0@, a.1@), (b.0@, b.1@), (c.0@, c.1@)]),
{
    let v = vec![a, b, c];
    proof {
        lemma_entries_view(v@);
        assert(entries_view(v@) =~= seq![
            (v@[0].0@, json_view(v@[0].1)),
            (v@[1].0@, json_view(v@[1].1)),
            (v@[2].0@, json_view(v@[2].1)),
        ]);
    }
    JsonValue::Object(v)
}

/// An array of two items.
pub fn array2(a: JsonValue, b: JsonValue) -> (r: JsonValue)
    ensures
        r@ == Json::Array(seq![a@, b@]),
{
    let v = vec![a, b];
    proof {
        lemma_items_view(v@);
        assert(items_view(v@) =~= seq![json_view(v@[0]), json_view(v@[1])]);
    }
    JsonValue::Array(v)
}

/// An array of three items.
pub fn array3(a: JsonValue, b: JsonValue, c: JsonValue) -> (r: JsonValue)
    ensures
        r@ == Json::Array(seq![a@, b@, c@]),
{
    let v = vec![a, b, c];
    proof {
        lemma_items_view(v@);
        assert(items_view(v@) =~= seq![json_view(v@[0]), json_view(v@[1]), json_view(v@[2])]);
    }
    JsonValue::Array(v)
}

/// An object of four members, in the order given.
pub fn object4(a: (String, JsonValue), b: (String, JsonValue), c: (String, JsonValue), d: (String, JsonValue)) -> (r:
    JsonValue)
    ensures
        r@ == Json::Object(seq![(a.0@, a.1@), (b.0@, b.1@), (c.0@, c.1@), (d.0@, d.1@)]),
{
    let v = vec![a, b, c, d];
    proof {
        lemma_entries_view(v@);
        assert(entries_view(v@) =~= seq![
            (v@[0].0@, json_view(v@[0].1)),
            (v@[1].0@, json_view(v@[1].1)),
            (v@[2].0@, json_view(v@[2].1)),
            (v@[3].0@, json_view(v@[3].1)),
        ]);
    }
    JsonValue::Object(v)
}

// ---------------------------------------------------------------------------
// serde_json
// ---------------------------------------------------------------------------

#[verifier::external_type_specification]
#[verifier::external_body]
pub struct ExSerdeJsonValue(serde_json::Value);

/// What `serde_json::from_str::<serde_json::Value>` yields for `text`
/// (`None` when it reports an error).
pub uninterp spec fn json_parse(text: Seq<char>) -> Option<Json>;

/// The compact JSON text that `serde_json::Value`'s `to_string` produces for `v`.
pub uninterp spec fn json_text(v: Json) -> Seq<char>;

/// The text that `serde_json` prints for the number that
/// `serde_json::Number`'s `FromStr` reads from `text` (`None` when `text` is
/// not a JSON number).
pub uninterp spec fn json_number_text(text: Seq<char>) -> Option<Seq<char>>;

/// Converts a `serde_json::Value` into a [`JsonValue`], variant by variant;
/// numbers become their `Display` text. Nothing is claimed of it: the trusted
/// items that call it state their results by name.
#[verifier::external_body]
fn json_of_serde(v: serde_json::Value) -> JsonValue {
    match v {
        serde_json::Value::Null => JsonValue::Null,
        serde_json::Value::Bool(b) => JsonValue::Bool(b),
        serde_json::Value::Number(n) => JsonValue::Number(n.to_string()),
        serde_json::Value::String(s) => JsonValue::Str(s),
        serde_json::Value::Array(a) => JsonValue::Array(a.into_iter().map(json_of_serde).collect()),
        serde_json::Value::Object(m) => JsonValue::Object(m.into_iter().map(|(k, x)| (k, json_of_serde(x))).collect()),
    }
}

/// Converts a [`JsonValue`] into a `serde_json::Value`, variant by variant.
/// Nothing is claimed of it: the trusted items that call it state their
/// results by name.
#[verifier::external_body]
fn serde_of_json(v: &JsonValue) -> serde_json::Value {
    match v {
        JsonValue::Null => serde_json::Value::Null,
        JsonValue::Bool(b) => serde_json::Value::Bool(*b),
        JsonValue::Number(t) => t.parse::<serde_json::Number>().map(serde_json::Value::Number).unwrap_or(serde_json::Value::Null),
        JsonValue::Str(s) => serde_json::Value::String(s.clone()),
        JsonValue::Array(a) => serde_json::Value::Array(a.iter().map(serde_of_json).collect()),
        JsonValue::Object(m) => serde_json::Value::Object(m.iter().map(|(k, x)| (k.clone(), serde_of_json(x))).collect()),
    }
}

/// `serde_json::from_str::<serde_json::Value>`: the parsed value, `None` on a
/// syntax error. What it yields on given text is not stated beyond its name.
#[verifier::external_body]
pub(crate) fn parse_json(text: &str) -> (r: Option<JsonValue>)
    ensures
        match r {
            Some(v) => json_parse(text@) == Some(v@),
            None => json_parse(text@) is None,
        },
{
    match serde_json::from_str::<serde_json::Value>(text) {
        Ok(v) => Some(json_of_serde(v)),
        Err(_) => None,
    }
}

/// `serde_json::Value::to_string`: the compact JSON text of `v`.
#[verifier::external_body]
pub(crate) fn json_to_string(v: &JsonValue) -> (r: String)
    ensures
        r@ == json_text(v@),
{
    serde_of_json(v).to_string()
}

/// `<serde_json::Number as FromStr>::from_str` followed by `to_string`: the
/// text of a JSON number, `None` when `text` is not one.
#[verifier::external_body]
pub(crate) fn canonical_number(text: &str) -> (r: Option<String>)
    ensures
        match r {
            Some(s) => json_number_text(text@) == Some(s@),
            None => json_number_text(text@) is None,
        },
{
    match text.parse::<serde_json::Number>() {
        Ok(n) => Some(n.to_string()),
        Err(_) => None,
    }
}

proof fn lemma_member_get_cons(x: (Seq<char>, Json), rest: Seq<(Seq<char>, Json)>, k: Seq<char>)
    ensures
        member_get(seq![x] + rest, k) == (if x.0 == k {
            Some(x.1)
        } else {
            member_get(rest, k)
        }),
{
    let s = seq![x] + rest;
    assert(s.drop_first() =~= rest);
    assert(s[0] == x);
    if x.0 != k {
        match member_index(rest, k) {
            Some(i) => {
                lemma_member_index_bounds(rest, k);
                assert(member_index(s, k) == Some(i + 1));
                assert(s[i + 1] == rest[i]);
            },
            None => {},
        }
    }
}

/// Reading a member after `Map::insert` gives the value written; every
/// other member reads as before.
pub proof fn law_insert_then_get(m: Seq<(Seq<char>, Json)>, k: Seq<char>, v: Json, other: Seq<char>)
    requires
        other != k,
    ensures
        member_get(insert_spec(m, k, v), k) == Some(v),
        member_get(insert_spec(m, k, v), other) == member_get(m, other),
    decreases m.len(),
{
    if m.len() == 0 {
        lemma_member_get_cons((k, v), Seq::empty(), k);
        lemma_member_get_cons((k, v), Seq::empty(), other);
        assert(seq![(k, v)] + Seq::<(Seq<char>, Json)>::empty() =~= seq![(k, v)]);
    } else if m[0].0 == k {
        lemma_member_get_cons((k, v), m.drop_first(), k);
        lemma_member_get_cons((k, v), m.drop_first(), other);
        lemma_member_get_cons(m[0], m.drop_first(), other);
        assert(seq![m[0]] + m.drop_first() =~= m);
    } else if key_lt(k, m[0].0) {
        lemma_member_get_cons((k, v), m, k);
        lemma_member_get_cons((k, v), m, other);
    } else {
        law_insert_then_get(m.drop_first(), k, v, other);
        lemma_member_get_cons(m[0], insert_spec(m.drop_first(), k, v), k);
        lemma_member_get_cons(m[0], insert_spec(m.drop_first(), k, v), other);
        lemma_member_get_cons(m[0], m.drop_first(), other);
        assert(seq![m[0]] + m.drop_first() =~= m);
    }
}

} // verus!
