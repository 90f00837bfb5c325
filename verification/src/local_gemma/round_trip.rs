//! Reading back what the native argument format writes.
use vstd::prelude::*;
use crate::json::{Json, insert_spec, key_lt, json_number_text};
use crate::number_text::{i64_text, decimal_text, lemma_decimal_text_read};
use crate::text::is_ascii_digit;
use crate::local_gemma::args::{
    gemma_args, gemma_delim, gemma_members, gemma_object, gemma_value, next_remaining, strip_commas,
    first_stop_from, bare_json, is_stop,
};
use crate::local_gemma::render::{native_value_text, native_member_texts, native_item_texts};
use crate::text::{
    join, trim, trim_start, trim_end, unicode_whitespace, is_ascii_char, is_ascii_whitespace_char,
    find, find_from, contains, occurs_at, starts_with, lemma_find_from_props,
};

verus! {

/// `char::is_whitespace` agrees with the ASCII whitespace on ASCII
/// characters.
pub open spec fn std_ascii_whitespace() -> bool {
    forall|c: char| is_ascii_char(c) ==> (#[trigger] unicode_whitespace(c) == is_ascii_whitespace_char(c))
}

proof fn lemma_std_ascii_whitespace()
    ensures
        std_ascii_whitespace(),
{
    assert forall|c: char| is_ascii_char(c) implies (#[trigger] unicode_whitespace(c) == is_ascii_whitespace_char(c)) by {
        crate::text::lemma_ascii_whitespace(c);
    }
}

/// A key that the argument format can carry as it is: not empty, without
/// `:`, `,` or whitespace.
pub open spec fn plain_key(k: Seq<char>) -> bool {
    k.len() > 0 && forall|i: int|
        0 <= i < k.len() ==> (#[trigger] k[i]) != ':' && k[i] != ',' && !unicode_whitespace(k[i])
}

/// A character of a JSON number's text.
pub open spec fn number_char(c: char) -> bool {
    is_ascii_digit(c) || c == '-' || c == '+' || c == '.' || c == 'e' || c == 'E'
}

/// A number text that reads back as itself: an integer that fits in an
/// `i64`, written as `i64` prints it, or else a number written as
/// `serde_json` prints what it reads from the text.
pub open spec fn number_ok(t: Seq<char>) -> bool {
    match i64_text(t) {
        Some(i) => t == decimal_text(i as int),
        None => json_number_text(t) == Some(t) && t.len() > 0 && forall|k: int|
            0 <= k < t.len() ==> number_char(#[trigger] t[k]),
    }
}

/// The text of a number that reads back as itself is made of number
/// characters, and reads back as that number.
proof fn lemma_number_ok(t: Seq<char>)
    requires
        number_ok(t),
    ensures
        t.len() > 0,
        forall|k: int| 0 <= k < t.len() ==> number_char(#[trigger] t[k]),
        bare_json(t) == Json::Number(t),
{
    match i64_text(t) {
        Some(i) => {
            lemma_decimal_text_read(i);
            assert forall|k: int| 0 <= k < t.len() implies number_char(#[trigger] t[k]) by {
                assert(is_ascii_digit(t[k]) || t[k] == '-');
            }
        },
        None => {},
    }
    assert(number_char(t[0]));
    assert(t != seq!['t', 'r', 'u', 'e']);
    assert(t != seq!['f', 'a', 'l', 's', 'e']);
    assert(t != seq!['n', 'u', 'l', 'l']);
}

/// A value without nesting that the argument format can carry as it is: a
/// string without the `<|"|>` delimiter, a boolean, null, or a number whose
/// text reads back as itself.
pub open spec fn flat_value(v: Json) -> bool {
    match v {
        Json::Str(s) => !contains(s, gemma_delim()),
        Json::Bool(_) => true,
        Json::Null => true,
        Json::Number(t) => number_ok(t),
        _ => false,
    }
}

proof fn lemma_trim_same(s: Seq<char>)
    requires
        s.len() > 0 ==> !unicode_whitespace(s[0]) && !unicode_whitespace(s.last()),
    ensures
        trim(s) == s,
{
    assert(trim_start(s) == s);
    assert(trim_end(s) == s);
}

proof fn lemma_trim_start_same(s: Seq<char>)
    requires
        s.len() > 0 ==> !unicode_whitespace(s[0]),
    ensures
        trim_start(s) == s,
{
}

/// The first occurrence of `pat` at or after `from` is at `i`.
proof fn lemma_find_first(s: Seq<char>, pat: Seq<char>, from: int, i: int)
    requires
        0 <= from <= i,
        occurs_at(s, pat, i),
        forall|j: int| from <= j < i ==> !occurs_at(s, pat, j),
    ensures
        find_from(s, pat, from) == Some(i),
    decreases i - from,
{
    if from < i {
        assert(!occurs_at(s, pat, from));
        lemma_find_first(s, pat, from + 1, i);
    }
}

/// The text of a flat value: not empty, and starting and ending with a
/// character that is not whitespace.
proof fn lemma_flat_text_ends(v: Json)
    requires
        flat_value(v),
        std_ascii_whitespace(),
    ensures
        native_value_text(v).len() > 0,
        !unicode_whitespace(native_value_text(v)[0]),
        !unicode_whitespace(native_value_text(v).last()),
        native_value_text(v)[0] != ',',
{
    reveal_strlit("true");
    reveal_strlit("false");
    reveal_strlit("null");
    let t = native_value_text(v);
    assert(is_ascii_char('<') && is_ascii_char('>') && is_ascii_char('t') && is_ascii_char('e'));
    assert(is_ascii_char('f') && is_ascii_char('n') && is_ascii_char('l'));
    assert(!unicode_whitespace('<') && !unicode_whitespace('>'));
    assert(!unicode_whitespace('t') && !unicode_whitespace('e'));
    assert(!unicode_whitespace('f') && !unicode_whitespace('n') && !unicode_whitespace('l'));
    match v {
        Json::Str(s) => {
            assert(t[0] == '<');
            assert(t.last() == '>');
        },
        Json::Number(x) => {
            lemma_number_ok(x);
            assert(number_char(t[0]));
            assert(number_char(t.last()));
            assert(is_ascii_char(t[0]));
            assert(is_ascii_char(t.last()));
        },
        _ => {},
    }
}

/// Reading a flat value back from its text followed by `rest`, where `rest`
/// is empty or starts with a comma.
#[verifier::spinoff_prover]
proof fn lemma_flat_value_read(v: Json, rest: Seq<char>)
    requires
        flat_value(v),
        std_ascii_whitespace(),
        rest.len() > 0 ==> rest[0] == ',',
    ensures
        gemma_value(native_value_text(v) + rest) == Some((v, rest)),
{
    reveal_strlit("true");
    reveal_strlit("false");
    reveal_strlit("null");
    let d = gemma_delim();
    let t = native_value_text(v);
    let s = t + rest;
    lemma_flat_text_ends(v);
    match v {
        Json::Str(x) => {
            lemma_string_read(x, rest);
        },
        _ => {
            assert(!starts_with(s, d));
            let n = t.len() as int;
            if let Json::Number(x) = v {
                lemma_number_ok(x);
                assert forall|k: int| 0 <= k < n implies !is_stop(#[trigger] s[k]) by {
                    assert(s[k] == t[k]);
                    assert(number_char(t[k]));
                }
                assert(number_char(t[0]));
                assert(t[0] != '<');
            }
            assert(forall|i: int| 0 <= i < n ==> !is_stop(#[trigger] s[i]));
            assert(first_stop_from(s, n) == n) by {
                if n < s.len() {
                    assert(s[n] == ',');
                }
            }
            lemma_first_stop_back(s, n, n);
            assert(first_stop_from(s, 0) == n);
            assert(s.take(n) =~= t);
            lemma_trim_same(t);
            assert(s.skip(n) =~= rest);
            match v {
                Json::Bool(b) => {
                    if b {
                        assert(t =~= seq!['t', 'r', 'u', 'e']);
                    } else {
                        assert(t =~= seq!['f', 'a', 'l', 's', 'e']);
                        assert(t != seq!['t', 'r', 'u', 'e']);
                    }
                },
                Json::Number(x) => {
                    lemma_number_ok(x);
                },
                _ => {
                    assert(t =~= seq!['n', 'u', 'l', 'l']);
                    assert(t != seq!['t', 'r', 'u', 'e']);
                    assert(t != seq!['f', 'a', 'l', 's', 'e']);
                },
            }
        },
    }
}

/// In a string without the delimiter, followed by the delimiter, the first
/// delimiter is the one that follows: `<|"|>` overlaps no copy of itself.
#[verifier::spinoff_prover]
proof fn lemma_delim_first(x: Seq<char>, after: Seq<char>)
    requires
        !contains(x, gemma_delim()),
    ensures
        find(x + (gemma_delim() + after), gemma_delim()) == Some(x.len() as int),
{
    let d = gemma_delim();
    let r = x + (d + after);
    lemma_find_from_props(x, d, 0);
    assert forall|j: int| 0 <= j < x.len() implies !occurs_at(r, d, j) by {
        if j + 5 <= x.len() {
            assert(r.subrange(j, j + 5) =~= x.subrange(j, j + 5));
            assert(!occurs_at(x, d, j));
        } else {
            let k = x.len() - j;
            assert(r[x.len() as int] == '<');
            assert(d[1] != '<' && d[2] != '<' && d[3] != '<' && d[4] != '<');
            if occurs_at(r, d, j) {
                assert(r.subrange(j, j + 5)[k] == r[x.len() as int]);
                assert(r.subrange(j, j + 5)[k] == d[k]);
                assert(false);
            }
        }
    }
    assert(r.subrange(x.len() as int, x.len() as int + 5) =~= d);
    lemma_find_first(r, d, 0, x.len() as int);
}

/// Reading a delimited string back: the first delimiter after the opening
/// one is the closing one.
#[verifier::spinoff_prover]
proof fn lemma_string_read(x: Seq<char>, rest: Seq<char>)
    requires
        !contains(x, gemma_delim()),
    ensures
        gemma_value(gemma_delim() + x + gemma_delim() + rest) == Some((Json::Str(x), rest)),
{
    let d = gemma_delim();
    let s = d + x + d + rest;
    assert(s.subrange(0, 5) =~= d);
    let r = s.skip(5);
    assert(r =~= x + (d + rest));
    lemma_delim_first(x, rest);
    assert(r.take(x.len() as int) =~= x);
    assert(r.skip(x.len() as int + 5) =~= rest);
}

proof fn lemma_first_stop_back(s: Seq<char>, n: int, i: int)
    requires
        0 <= i <= n <= s.len(),
        forall|k: int| 0 <= k < n ==> !is_stop(#[trigger] s[k]),
        first_stop_from(s, n) == n,
    ensures
        first_stop_from(s, n - i) == n,
    decreases i,
{
    if i > 0 {
        lemma_first_stop_back(s, n, i - 1);
    }
}

/// The text of the member at `i`.
proof fn lemma_member_text(m: Seq<(Seq<char>, Json)>, i: int)
    requires
        0 <= i < m.len(),
    ensures
        native_member_texts(m).len() == m.len(),
        native_member_texts(m)[i] == m[i].0 + ":"@ + native_value_text(m[i].1),
    decreases m.len(),
{
    if i < m.len() - 1 {
        lemma_member_text(m.drop_last(), i);
    } else {
        lemma_member_texts_len(m.drop_last());
    }
}

proof fn lemma_member_texts_len(m: Seq<(Seq<char>, Json)>)
    ensures
        native_member_texts(m).len() == m.len(),
    decreases m.len(),
{
    if m.len() > 0 {
        lemma_member_texts_len(m.drop_last());
    }
}

/// A joined list of two or more parts: the first part, the separator, and
/// the rest joined.
proof fn lemma_join_front(parts: Seq<Seq<char>>, sep: Seq<char>)
    requires
        parts.len() >= 2,
    ensures
        join(parts, sep) == parts[0] + sep + join(parts.drop_first(), sep),
    decreases parts.len(),
{
    if parts.len() == 2 {
        assert(parts.drop_last()[0] == parts[0]);
        assert(parts.drop_first()[0] == parts[1]);
        assert(join(parts.drop_last(), sep) == parts[0]);
        assert(join(parts.drop_first(), sep) == parts[1]);
        assert(join(parts, sep) == join(parts.drop_last(), sep) + sep + parts.last());
    } else {
        let a = parts.drop_last();
        let b = parts.drop_first();
        lemma_join_front(a, sep);
        assert(a.drop_first() =~= b.drop_last());
        assert(b.last() == parts.last());
        assert(a[0] == parts[0]);
        assert(join(parts, sep) == join(a, sep) + sep + parts.last());
        assert(join(b, sep) == join(b.drop_last(), sep) + sep + b.last());
        assert(join(parts, sep) =~= parts[0] + sep + (join(b.drop_last(), sep) + sep + parts.last()));
        assert(parts[0] + sep + join(b, sep) =~= parts[0] + sep + (join(b.drop_last(), sep) + sep + parts.last()));
    }
}

/// A joined list of non-empty ends starts with the first part's first
/// character and ends with the last part's last character.
proof fn lemma_join_ends(parts: Seq<Seq<char>>, sep: Seq<char>)
    requires
        parts.len() > 0,
        parts[0].len() > 0,
        parts.last().len() > 0,
    ensures
        join(parts, sep).len() > 0,
        join(parts, sep)[0] == parts[0][0],
        join(parts, sep).last() == parts.last().last(),
{
    if parts.len() >= 2 {
        lemma_join_front(parts, sep);
        let j = join(parts.drop_last(), sep);
        assert(join(parts, sep) == j + sep + parts.last());
    }
}

/// `key_lt` never holds of a key and itself, nor both ways.
proof fn lemma_key_lt_strict(a: Seq<char>, b: Seq<char>)
    ensures
        !key_lt(a, a),
        key_lt(a, b) ==> !key_lt(b, a),
    decreases a.len(),
{
    if a.len() > 0 && b.len() > 0 {
        lemma_key_lt_strict(a.drop_first(), b.drop_first());
    }
    if a.len() > 0 {
        lemma_key_lt_strict(a.drop_first(), a.drop_first());
    }
}

/// Inserting a key greater than every key present appends it.
proof fn lemma_insert_last(acc: Seq<(Seq<char>, Json)>, key: Seq<char>, v: Json)
    requires
        forall|i: int| 0 <= i < acc.len() ==> key_lt((#[trigger] acc[i]).0, key),
    ensures
        insert_spec(acc, key, v) == acc.push((key, v)),
    decreases acc.len(),
{
    if acc.len() > 0 {
        assert(key_lt(acc[0].0, key));
        lemma_key_lt_strict(acc[0].0, key);
        lemma_key_lt_strict(key, key);
        assert(acc[0].0 != key);
        let t = acc.drop_first();
        assert forall|i: int| 0 <= i < t.len() implies key_lt((#[trigger] t[i]).0, key) by {
            assert(t[i] == acc[i + 1]);
        }
        lemma_insert_last(t, key, v);
        assert(seq![acc[0]] + t.push((key, v)) =~= acc.push((key, v)));
    }
}

/// No square bracket in `s`.
pub open spec fn no_brackets(s: Seq<char>) -> bool {
    forall|i: int| 0 <= i < s.len() ==> (#[trigger] s[i]) != '[' && s[i] != ']'
}

/// An item of an array that the argument format can carry as it is: a
/// flat value, and a string without square brackets.
pub open spec fn array_item(v: Json) -> bool {
    flat_value(v) && match v {
        Json::Str(s) => no_brackets(s),
        _ => true,
    }
}

/// A value of a member: a flat value, or an array of such items.
pub open spec fn member_value(v: Json) -> bool {
    flat_value(v) || match v {
        Json::Array(a) => forall|i: int| 0 <= i < a.len() ==> array_item(#[trigger] a[i]),
        _ => false,
    }
}

proof fn lemma_item_text(a: Seq<Json>, i: int)
    requires
        0 <= i < a.len(),
    ensures
        native_item_texts(a).len() == a.len(),
        native_item_texts(a)[i] == native_value_text(a[i]),
    decreases a.len(),
{
    if i < a.len() - 1 {
        lemma_item_text(a.drop_last(), i);
    } else {
        lemma_item_texts_len(a.drop_last());
    }
}

proof fn lemma_item_texts_len(a: Seq<Json>)
    ensures
        native_item_texts(a).len() == a.len(),
    decreases a.len(),
{
    if a.len() > 0 {
        lemma_item_texts_len(a.drop_last());
    }
}

/// The text of an array item holds no square bracket.
proof fn lemma_item_no_brackets(v: Json)
    requires
        array_item(v),
    ensures
        no_brackets(native_value_text(v)),
{
    reveal_strlit("true");
    reveal_strlit("false");
    reveal_strlit("null");
    let t = native_value_text(v);
    match v {
        Json::Str(x) => {
            let d = gemma_delim();
            assert forall|i: int| 0 <= i < t.len() implies (#[trigger] t[i]) != '[' && t[i] != ']' by {
                if i < 5 {
                    assert(t[i] == d[i]);
                } else if i < 5 + x.len() {
                    assert(t[i] == x[i - 5]);
                } else {
                    assert(t[i] == d[i - 5 - x.len()]);
                }
            }
        },
        Json::Number(x) => {
            lemma_number_ok(x);
            assert forall|i: int| 0 <= i < t.len() implies (#[trigger] t[i]) != '[' && t[i] != ']' by {
                assert(number_char(t[i]));
            }
        },
        _ => {},
    }
}

/// Joined parts without square brackets, with a separator without them,
/// hold none.
proof fn lemma_join_no_brackets(parts: Seq<Seq<char>>, sep: Seq<char>)
    requires
        no_brackets(sep),
        forall|i: int| 0 <= i < parts.len() ==> no_brackets(#[trigger] parts[i]),
    ensures
        no_brackets(join(parts, sep)),
    decreases parts.len(),
{
    if parts.len() == 1 {
        assert(no_brackets(parts[0]));
    } else if parts.len() >= 2 {
        let p = parts.drop_last();
        assert forall|i: int| 0 <= i < p.len() implies no_brackets(#[trigger] p[i]) by {
            assert(p[i] == parts[i]);
        }
        lemma_join_no_brackets(p, sep);
        let j = join(p, sep);
        let l = parts.last();
        assert(no_brackets(l));
        let all = j + sep + l;
        assert forall|i: int| 0 <= i < all.len() implies (#[trigger] all[i]) != '[' && all[i] != ']' by {
            if i < j.len() {
                assert(all[i] == j[i]);
            } else if i < j.len() + sep.len() {
                assert(all[i] == sep[i - j.len()]);
            } else {
                assert(all[i] == l[i - j.len() - sep.len()]);
            }
        }
    }
}

/// Scanning over characters that are neither bracket changes nothing.
proof fn lemma_match_close_skip(s: Seq<char>, open: char, close: char, i: int, j: int, depth: nat)
    requires
        0 <= i <= j <= s.len(),
        forall|k: int| i <= k < j ==> (#[trigger] s[k]) != open && s[k] != close,
    ensures
        crate::local_gemma::args::match_close(s, open, close, i, depth)
            == crate::local_gemma::args::match_close(s, open, close, j, depth),
    decreases j - i,
{
    if i < j {
        assert(s[i] != open && s[i] != close);
        lemma_match_close_skip(s, open, close, i + 1, j, depth);
    }
}

/// The items from `k` on, written and joined.
pub open spec fn items_text_from(a: Seq<Json>, k: int) -> Seq<char> {
    join(native_item_texts(a).skip(k), ","@)
}

proof fn lemma_items_text_ends(a: Seq<Json>, k: int)
    requires
        0 <= k < a.len(),
        forall|i: int| 0 <= i < a.len() ==> array_item(#[trigger] a[i]),
        std_ascii_whitespace(),
    ensures
        items_text_from(a, k).len() > 0,
        items_text_from(a, k)[0] == native_value_text(a[k])[0],
        !unicode_whitespace(items_text_from(a, k)[0]),
        !unicode_whitespace(items_text_from(a, k).last()),
{
    let parts = native_item_texts(a).skip(k);
    lemma_item_text(a, k);
    lemma_item_text(a, a.len() - 1);
    assert(array_item(a[k]));
    assert(array_item(a[a.len() - 1]));
    lemma_flat_text_ends(a[k]);
    lemma_flat_text_ends(a[a.len() - 1]);
    assert(parts[0] == native_value_text(a[k]));
    assert(parts.last() == native_value_text(a[a.len() - 1]));
    lemma_join_ends(parts, ","@);
}

/// Reading the items from `k` on.
#[verifier::spinoff_prover]
proof fn lemma_items_read(a: Seq<Json>, k: int)
    requires
        0 <= k <= a.len(),
        forall|i: int| 0 <= i < a.len() ==> array_item(#[trigger] a[i]),
        std_ascii_whitespace(),
    ensures
        crate::local_gemma::args::gemma_items(items_text_from(a, k)) == Some(a.skip(k)),
    decreases a.len() - k,
{
    reveal_strlit(",");
    let n = a.len() as int;
    lemma_item_texts_len(a);
    let texts = native_item_texts(a);
    let r = items_text_from(a, k);
    if k == n {
        assert(texts.skip(k) =~= Seq::<Seq<char>>::empty());
        assert(a.skip(k) =~= Seq::<Json>::empty());
        return;
    }
    let v = a[k];
    assert(array_item(v));
    lemma_item_text(a, k);
    let tail = if k + 1 < n {
        ","@ + items_text_from(a, k + 1)
    } else {
        Seq::<char>::empty()
    };
    let parts = texts.skip(k);
    if k + 1 < n {
        lemma_join_front(parts, ","@);
        assert(parts.drop_first() =~= texts.skip(k + 1));
        assert(tail[0] == ',');
    } else {
        assert(parts.len() == 1);
    }
    assert(r =~= native_value_text(v) + tail);
    lemma_flat_value_read(v, tail);
    let nxt = next_remaining(tail);
    if k + 1 < n {
        lemma_items_text_ends(a, k + 1);
        let r2 = items_text_from(a, k + 1);
        assert(tail.drop_first() =~= r2);
        assert(array_item(a[k + 1]));
        lemma_flat_text_ends(a[k + 1]);
        assert(r2[0] != ',');
        assert(strip_commas(r2) == r2);
        assert(strip_commas(tail) == r2);
        lemma_trim_same(r2);
        assert(nxt == r2);
    } else {
        assert(strip_commas(tail) == tail);
        lemma_trim_same(tail);
        assert(texts.skip(k + 1) =~= Seq::<Seq<char>>::empty());
        assert(nxt =~= items_text_from(a, k + 1));
    }
    lemma_flat_text_ends(v);
    lemma_items_read(a, k + 1);
    assert(seq![v] + a.skip(k + 1) =~= a.skip(k));
}

/// Reading an array of items back from its text followed by `rest`.
#[verifier::spinoff_prover]
proof fn lemma_array_read(a: Seq<Json>, rest: Seq<char>)
    requires
        forall|i: int| 0 <= i < a.len() ==> array_item(#[trigger] a[i]),
        std_ascii_whitespace(),
        rest.len() > 0 ==> rest[0] == ',',
    ensures
        gemma_value(native_value_text(Json::Array(a)) + rest) == Some((Json::Array(a), rest)),
{
    reveal_strlit("[");
    reveal_strlit("]");
    reveal_strlit(",");
    lemma_item_texts_len(a);
    let texts = native_item_texts(a);
    let j = items_text_from(a, 0);
    assert(texts.skip(0) =~= texts);
    let s = native_value_text(Json::Array(a)) + rest;
    assert(s =~= seq!['['] + j + seq![']'] + rest);
    assert(!starts_with(s, gemma_delim())) by {
        assert(s[0] != gemma_delim()[0]);
        if starts_with(s, gemma_delim()) {
            assert(s.subrange(0, 5)[0] == s[0]);
        }
    }
    // The closing bracket is the first one after the items.
    assert forall|i: int| 0 <= i < texts.len() implies no_brackets(#[trigger] texts[i]) by {
        lemma_item_text(a, i);
        lemma_item_no_brackets(a[i]);
    }
    assert(no_brackets(","@));
    lemma_join_no_brackets(texts, ","@);
    let c: int = j.len() as int + 1;
    assert forall|k: int| 1 <= k < c implies (#[trigger] s[k]) != '[' && s[k] != ']' by {
        assert(s[k] == j[k - 1]);
    }
    lemma_match_close_skip(s, '[', ']', 1, c, 1);
    assert(s[c] == ']');
    assert(crate::local_gemma::args::match_close(s, '[', ']', 0, 0) == Some(c));
    assert(s.subrange(1, c) =~= j);
    assert(s.skip(c + 1) =~= rest);
    if a.len() > 0 {
        lemma_items_text_ends(a, 0);
    }
    lemma_trim_same(j);
    lemma_items_read(a, 0);
    assert(a.skip(0) =~= a);
    assert(crate::local_gemma::args::gemma_array(j) == Some(Json::Array(a)));
}

proof fn lemma_member_value_ends(v: Json)
    requires
        member_value(v),
        std_ascii_whitespace(),
    ensures
        native_value_text(v).len() > 0,
        !unicode_whitespace(native_value_text(v)[0]),
        !unicode_whitespace(native_value_text(v).last()),
        native_value_text(v)[0] != ',',
{
    if flat_value(v) {
        lemma_flat_text_ends(v);
    } else {
        reveal_strlit("[");
        reveal_strlit("]");
        let a = v->Array_0;
        let t = native_value_text(v);
        let j = join(native_item_texts(a), ","@);
        assert(t =~= seq!['['] + j + seq![']']);
        assert(is_ascii_char('[') && is_ascii_char(']'));
        assert(!unicode_whitespace('[') && !unicode_whitespace(']'));
        assert(t[0] == '[');
        assert(t.last() == ']');
    }
}

proof fn lemma_member_value_read(v: Json, rest: Seq<char>)
    requires
        member_value(v),
        std_ascii_whitespace(),
        rest.len() > 0 ==> rest[0] == ',',
    ensures
        gemma_value(native_value_text(v) + rest) == Some((v, rest)),
{
    if flat_value(v) {
        lemma_flat_value_read(v, rest);
    } else {
        lemma_array_read(v->Array_0, rest);
    }
}

/// The members of an object the argument format can carry as it is:
/// plain keys in increasing order with no key twice, each with a flat
/// value or an array of flat items.
pub open spec fn flat_members(m: Seq<(Seq<char>, Json)>) -> bool {
    &&& forall|i: int| 0 <= i < m.len() ==> plain_key((#[trigger] m[i]).0) && member_value(m[i].1)
    &&& forall|i: int, j: int| 0 <= i < j < m.len() ==> key_lt((#[trigger] m[i]).0, (#[trigger] m[j]).0)
}

/// The members from `k` on, written and joined.
pub open spec fn members_text_from(m: Seq<(Seq<char>, Json)>, k: int) -> Seq<char> {
    join(native_member_texts(m).skip(k), ","@)
}

/// The text of the members from `k` on starts with the key at `k` and ends
/// with the last value's text.
proof fn lemma_members_text_ends(m: Seq<(Seq<char>, Json)>, k: int)
    requires
        0 <= k < m.len(),
        flat_members(m),
        std_ascii_whitespace(),
    ensures
        members_text_from(m, k).len() > 0,
        members_text_from(m, k)[0] == m[k].0[0],
        !unicode_whitespace(members_text_from(m, k)[0]),
        !unicode_whitespace(members_text_from(m, k).last()),
{
    reveal_strlit(":");
    let parts = native_member_texts(m).skip(k);
    lemma_member_text(m, k);
    lemma_member_text(m, m.len() - 1);
    assert(plain_key(m[k].0));
    assert(member_value(m[m.len() - 1].1));
    lemma_member_value_ends(m[m.len() - 1].1);
    let first = m[k].0 + ":"@ + native_value_text(m[k].1);
    assert(parts[0] == first);
    assert(first[0] == m[k].0[0]);
    let lt = native_value_text(m[m.len() - 1].1);
    let last = m[m.len() - 1].0 + ":"@ + lt;
    assert(parts.last() == last);
    assert(last.last() == lt.last());
    lemma_join_ends(parts, ","@);
    assert(m[k].0[0] == m[k].0[0]);
}

/// Reading the members from `k` on, after the ones before `k`.
#[verifier::spinoff_prover]
proof fn lemma_members_read(m: Seq<(Seq<char>, Json)>, k: int)
    requires
        0 <= k <= m.len(),
        flat_members(m),
        std_ascii_whitespace(),
    ensures
        gemma_members(members_text_from(m, k), m.take(k)) == Some(m),
    decreases m.len() - k,
{
    reveal_strlit(":");
    reveal_strlit(",");
    let n = m.len() as int;
    lemma_member_texts_len(m);
    let texts = native_member_texts(m);
    let r = members_text_from(m, k);
    if k == n {
        assert(texts.skip(k) =~= Seq::<Seq<char>>::empty());
        assert(r == Seq::<char>::empty());
        assert(m.take(k) =~= m);
        return;
    }
    let key = m[k].0;
    let v = m[k].1;
    let vt = native_value_text(v);
    assert(plain_key(key));
    assert(member_value(v));
    lemma_member_text(m, k);
    let tail = if k + 1 < n {
        ","@ + members_text_from(m, k + 1)
    } else {
        Seq::<char>::empty()
    };
    let parts = texts.skip(k);
    if k + 1 < n {
        lemma_join_front(parts, ","@);
        assert(parts.drop_first() =~= texts.skip(k + 1));
    } else {
        assert(parts.len() == 1);
    }
    assert(parts[0] == key + ":"@ + vt);
    assert(r =~= key + (seq![':'] + (vt + tail)));
    // The first colon ends the key.
    let c = key.len() as int;
    assert(r.subrange(c, c + 1) =~= seq![':']);
    assert forall|j: int| 0 <= j < c implies !occurs_at(r, seq![':'], j) by {
        assert(r[j] == key[j]);
        if occurs_at(r, seq![':'], j) {
            assert(r.subrange(j, j + 1)[0] == r[j]);
        }
    }
    lemma_find_first(r, seq![':'], 0, c);
    assert(r.take(c) =~= key);
    lemma_trim_same(key);
    lemma_member_value_ends(v);
    assert(r.skip(c + 1) =~= vt + tail);
    lemma_trim_start_same(vt + tail);
    if k + 1 < n {
        assert(tail[0] == ',');
    }
    lemma_member_value_read(v, tail);
    // What follows the value is the next member.
    let nxt = next_remaining(tail);
    if k + 1 < n {
        lemma_members_text_ends(m, k + 1);
        let r2 = members_text_from(m, k + 1);
        assert(tail.drop_first() =~= r2);
        assert(plain_key(m[k + 1].0));
        assert(r2[0] != ',');
        assert(strip_commas(r2) == r2);
        assert(strip_commas(tail) == r2);
        lemma_trim_same(r2);
        assert(nxt == r2);
    } else {
        assert(strip_commas(tail) == tail);
        lemma_trim_same(tail);
        assert(texts.skip(k + 1) =~= Seq::<Seq<char>>::empty());
        assert(nxt =~= members_text_from(m, k + 1));
    }
    // The key comes after every key read so far.
    assert forall|i: int| 0 <= i < m.take(k).len() implies key_lt((#[trigger] m.take(k)[i]).0, key) by {
        assert(m.take(k)[i] == m[i]);
        assert(key_lt(m[i].0, m[k].0));
    }
    lemma_insert_last(m.take(k), key, v);
    assert(m.take(k).push((key, v)) =~= m.take(k + 1));
    lemma_members_read(m, k + 1);
}

/// Law: arguments written in the native format read back as they were. An
/// object whose keys are plain (not empty, without `:`, `,` or whitespace)
/// and come in increasing order without repetition, as a JSON object keeps
/// them, and whose values are flat (strings without the `<|"|>` delimiter,
/// booleans, null, numbers whose text reads back as itself) or arrays of flat values (their strings
/// also without square brackets), is parsed from its own text to itself.
#[verifier::spinoff_prover]
pub proof fn law_args_round_trip(m: Seq<(Seq<char>, Json)>)
    requires
        flat_members(m),
    ensures
        gemma_args(native_value_text(Json::Object(m))) == Some(Json::Object(m)),
{
    lemma_std_ascii_whitespace();
    reveal_strlit("{");
    reveal_strlit("}");
    reveal_strlit(",");
    lemma_member_texts_len(m);
    let j = members_text_from(m, 0);
    assert(native_member_texts(m).skip(0) =~= native_member_texts(m));
    let t = native_value_text(Json::Object(m));
    assert(t =~= seq!['{'] + j + seq!['}']);
    assert(is_ascii_char('{') && is_ascii_char('}'));
    assert(!unicode_whitespace('{') && !unicode_whitespace('}'));
    lemma_trim_same(t);
    assert(t.subrange(1, t.len() - 1) =~= j);
    if m.len() > 0 {
        lemma_members_text_ends(m, 0);
    }
    lemma_trim_same(j);
    lemma_members_read(m, 0);
    assert(m.take(0) =~= Seq::<(Seq<char>, Json)>::empty());
    assert(gemma_object(j) == Some(Json::Object(m)));
}

// ---------------------------------------------------------------------------
// Nesting: balanced brackets
// ---------------------------------------------------------------------------

/// How many more `open` than `close` characters `t` holds.
pub open spec fn height(t: Seq<char>, open: char, close: char) -> int
    decreases t.len(),
{
    if t.len() == 0 {
        0
    } else {
        height(t.drop_last(), open, close) + if t.last() == open {
            1int
        } else if t.last() == close {
            -1int
        } else {
            0int
        }
    }
}

/// Every `close` in `t` closes an `open` of `t`, and every `open` is closed.
pub open spec fn balanced(t: Seq<char>, open: char, close: char) -> bool {
    &&& height(t, open, close) == 0
    &&& forall|k: int| 0 <= k <= t.len() ==> height(#[trigger] t.take(k), open, close) >= 0
}

proof fn lemma_height_concat(a: Seq<char>, b: Seq<char>, open: char, close: char)
    ensures
        height(a + b, open, close) == height(a, open, close) + height(b, open, close),
    decreases b.len(),
{
    if b.len() == 0 {
        assert(a + b =~= a);
    } else {
        lemma_height_concat(a, b.drop_last(), open, close);
        assert((a + b).drop_last() =~= a + b.drop_last());
    }
}

proof fn lemma_balanced_concat(a: Seq<char>, b: Seq<char>, open: char, close: char)
    requires
        balanced(a, open, close),
        balanced(b, open, close),
    ensures
        balanced(a + b, open, close),
{
    lemma_height_concat(a, b, open, close);
    assert forall|k: int| 0 <= k <= (a + b).len() implies height(#[trigger] (a + b).take(k), open, close) >= 0 by {
        if k <= a.len() {
            assert((a + b).take(k) =~= a.take(k));
        } else {
            assert((a + b).take(k) =~= a + b.take(k - a.len()));
            lemma_height_concat(a, b.take(k - a.len()), open, close);
            assert(a.take(a.len() as int) =~= a);
            assert(height(b.take(k - a.len()), open, close) >= 0);
        }
    }
}

/// A text without either bracket is balanced.
proof fn lemma_balanced_neutral(t: Seq<char>, open: char, close: char)
    requires
        forall|i: int| 0 <= i < t.len() ==> (#[trigger] t[i]) != open && t[i] != close,
    ensures
        balanced(t, open, close),
        forall|k: int| 0 <= k <= t.len() ==> height(#[trigger] t.take(k), open, close) == 0,
{
    assert forall|k: int| 0 <= k <= t.len() implies height(#[trigger] t.take(k), open, close) == 0 by {
        lemma_height_zero(t.take(k), open, close);
    }
    assert(t.take(t.len() as int) =~= t);
}

proof fn lemma_height_zero(t: Seq<char>, open: char, close: char)
    requires
        forall|i: int| 0 <= i < t.len() ==> (#[trigger] t[i]) != open && t[i] != close,
    ensures
        height(t, open, close) == 0,
    decreases t.len(),
{
    if t.len() > 0 {
        let d = t.drop_last();
        assert forall|i: int| 0 <= i < d.len() implies (#[trigger] d[i]) != open && d[i] != close by {
            assert(d[i] == t[i]);
        }
        lemma_height_zero(d, open, close);
    }
}

/// A balanced text between an `open` and a `close` is balanced.
proof fn lemma_balanced_wrap(x: Seq<char>, open: char, close: char)
    requires
        balanced(x, open, close),
        open != close,
    ensures
        balanced(seq![open] + x + seq![close], open, close),
{
    let t = seq![open] + x + seq![close];
    let o = seq![open];
    let c = seq![close];
    assert(o.drop_last() =~= Seq::<char>::empty());
    assert(c.drop_last() =~= Seq::<char>::empty());
    assert(o.last() == open && c.last() == close);
    assert(height(Seq::<char>::empty(), open, close) == 0);
    assert(height(o, open, close) == height(o.drop_last(), open, close) + 1);
    assert(height(o, open, close) == 1);
    assert(height(c, open, close) == height(c.drop_last(), open, close) - 1);
    assert(height(c, open, close) == -1);
    lemma_height_concat(o + x, c, open, close);
    lemma_height_concat(o, x, open, close);
    assert(x.take(x.len() as int) =~= x);
    assert(height(t, open, close) == 0);
    assert forall|k: int| 0 <= k <= t.len() implies height(#[trigger] t.take(k), open, close) >= 0 by {
        if k == 0 {
            assert(t.take(0) =~= Seq::<char>::empty());
        } else if k <= x.len() + 1 {
            assert(t.take(k) =~= o + x.take(k - 1));
            lemma_height_concat(o, x.take(k - 1), open, close);
            assert(height(x.take(k - 1), open, close) >= 0);
        } else {
            assert(t.take(k) =~= t);
        }
    }
}

/// Parts and a separator that are balanced join to a balanced text.
proof fn lemma_balanced_join(parts: Seq<Seq<char>>, sep: Seq<char>, open: char, close: char)
    requires
        balanced(sep, open, close),
        forall|i: int| 0 <= i < parts.len() ==> balanced(#[trigger] parts[i], open, close),
    ensures
        balanced(join(parts, sep), open, close),
    decreases parts.len(),
{
    if parts.len() == 0 {
        assert(Seq::<char>::empty().take(0) =~= Seq::<char>::empty());
    } else if parts.len() == 1 {
        assert(balanced(parts[0], open, close));
    } else {
        let p = parts.drop_last();
        assert forall|i: int| 0 <= i < p.len() implies balanced(#[trigger] p[i], open, close) by {
            assert(p[i] == parts[i]);
        }
        lemma_balanced_join(p, sep, open, close);
        assert(balanced(parts.last(), open, close));
        lemma_balanced_concat(join(p, sep), sep, open, close);
        lemma_balanced_concat(join(p, sep) + sep, parts.last(), open, close);
    }
}

/// Scanning a balanced stretch from depth one or more comes out at the same
/// depth, without stopping inside it.
proof fn lemma_match_close_balanced(s: Seq<char>, open: char, close: char, i: int, t: Seq<char>, d: nat, k: int)
    requires
        0 <= i,
        i + t.len() <= s.len(),
        s.subrange(i, i + t.len()) == t,
        balanced(t, open, close),
        d >= 1,
        0 <= k <= t.len(),
        open != close,
    ensures
        crate::local_gemma::args::match_close(s, open, close, i, d)
            == crate::local_gemma::args::match_close(s, open, close, i + k, (d + height(t.take(k), open, close)) as nat),
    decreases k,
{
    if k == 0 {
        assert(t.take(0) =~= Seq::<char>::empty());
    } else {
        lemma_match_close_balanced(s, open, close, i, t, d, k - 1);
        let h = height(t.take(k - 1), open, close);
        assert(t.take(k).drop_last() =~= t.take(k - 1));
        assert(t.take(k).last() == t[k - 1]);
        assert(s[i + k - 1] == t[k - 1]) by {
            assert(s.subrange(i, i + t.len())[k - 1] == s[i + k - 1]);
        }
        assert(height(t.take(k), open, close) >= 0);
        assert(h >= 0);
    }
}

// ---------------------------------------------------------------------------
// Nesting: values at any depth
// ---------------------------------------------------------------------------

/// No bracket or brace in `s`.
pub open spec fn bracket_free(s: Seq<char>) -> bool {
    forall|i: int|
        0 <= i < s.len() ==> (#[trigger] s[i]) != '[' && s[i] != ']' && s[i] != '{' && s[i] != '}'
}

/// A value that the argument format carries as it is, at any depth:
/// strings without the `<|"|>` delimiter and without brackets or braces,
/// booleans, null, numbers whose text reads back as itself, arrays of such values, and objects with
/// plain keys without brackets or braces, in increasing order without
/// repetition, with such values.
pub open spec fn nested_value(v: Json) -> bool
    decreases v,
{
    match v {
        Json::Str(s) => !contains(s, gemma_delim()) && bracket_free(s),
        Json::Bool(_) => true,
        Json::Null => true,
        Json::Number(t) => number_ok(t),
        Json::Array(a) => forall|i: int| 0 <= i < a.len() ==> nested_value(#[trigger] a[i]),
        Json::Object(m) => {
            &&& forall|i: int|
                0 <= i < m.len() ==> plain_key((#[trigger] m[i]).0) && bracket_free(m[i].0) && nested_value(m[i].1)
            &&& forall|i: int, j: int| 0 <= i < j < m.len() ==> key_lt((#[trigger] m[i]).0, (#[trigger] m[j]).0)
        },
    }
}

/// The text of a nested value: not empty, with no whitespace at its ends,
/// not starting with a comma, and balanced in brackets and in braces.
#[verifier::spinoff_prover]
proof fn lemma_nested_text(v: Json)
    requires
        nested_value(v),
        std_ascii_whitespace(),
    ensures
        native_value_text(v).len() > 0,
        !unicode_whitespace(native_value_text(v)[0]),
        !unicode_whitespace(native_value_text(v).last()),
        native_value_text(v)[0] != ',',
        balanced(native_value_text(v), '[', ']'),
        balanced(native_value_text(v), '{', '}'),
    decreases v,
{
    reveal_strlit("[");
    reveal_strlit("]");
    reveal_strlit("{");
    reveal_strlit("}");
    reveal_strlit(",");
    reveal_strlit(":");
    reveal_strlit("true");
    reveal_strlit("false");
    reveal_strlit("null");
    let t = native_value_text(v);
    assert(is_ascii_char('[') && is_ascii_char(']') && is_ascii_char('{') && is_ascii_char('}'));
    assert(!unicode_whitespace('[') && !unicode_whitespace(']'));
    assert(!unicode_whitespace('{') && !unicode_whitespace('}'));
    lemma_balanced_neutral(","@, '[', ']');
    lemma_balanced_neutral(","@, '{', '}');
    match v {
        Json::Array(a) => {
            lemma_item_texts_len(a);
            let texts = native_item_texts(a);
            assert forall|i: int| 0 <= i < texts.len() implies balanced(#[trigger] texts[i], '[', ']')
                && balanced(texts[i], '{', '}') by {
                lemma_item_text(a, i);
                lemma_nested_text(a[i]);
            }
            let j = join(texts, ","@);
            lemma_balanced_join(texts, ","@, '[', ']');
            lemma_balanced_join(texts, ","@, '{', '}');
            assert(t =~= seq!['['] + j + seq![']']);
            lemma_balanced_wrap(j, '[', ']');
            lemma_balanced_neutral(seq!['['], '{', '}');
            lemma_balanced_neutral(seq![']'], '{', '}');
            lemma_balanced_concat(seq!['['], j, '{', '}');
            lemma_balanced_concat(seq!['['] + j, seq![']'], '{', '}');
        },
        Json::Object(m) => {
            lemma_member_texts_len(m);
            let texts = native_member_texts(m);
            assert forall|i: int| 0 <= i < texts.len() implies balanced(#[trigger] texts[i], '[', ']')
                && balanced(texts[i], '{', '}') by {
                lemma_member_text(m, i);
                lemma_nested_text(m[i].1);
                let k = m[i].0;
                assert(bracket_free(k));
                lemma_balanced_neutral(k + ":"@, '[', ']');
                lemma_balanced_neutral(k + ":"@, '{', '}');
                lemma_balanced_concat(k + ":"@, native_value_text(m[i].1), '[', ']');
                lemma_balanced_concat(k + ":"@, native_value_text(m[i].1), '{', '}');
            }
            let j = join(texts, ","@);
            lemma_balanced_join(texts, ","@, '[', ']');
            lemma_balanced_join(texts, ","@, '{', '}');
            assert(t =~= seq!['{'] + j + seq!['}']);
            lemma_balanced_wrap(j, '{', '}');
            lemma_balanced_neutral(seq!['{'], '[', ']');
            lemma_balanced_neutral(seq!['}'], '[', ']');
            lemma_balanced_concat(seq!['{'], j, '[', ']');
            lemma_balanced_concat(seq!['{'] + j, seq!['}'], '[', ']');
        },
        _ => {
            assert(flat_value(v));
            lemma_flat_text_ends(v);
            if let Json::Str(x) = v {
                let d = gemma_delim();
                assert forall|i: int| 0 <= i < t.len() implies (#[trigger] t[i]) != '[' && t[i] != ']'
                    && t[i] != '{' && t[i] != '}' by {
                    if i < 5 {
                        assert(t[i] == d[i]);
                    } else if i < 5 + x.len() {
                        assert(t[i] == x[i - 5]);
                    } else {
                        assert(t[i] == d[i - 5 - x.len()]);
                    }
                }
            }
            if let Json::Number(x) = v {
                lemma_number_ok(x);
                assert forall|i: int| 0 <= i < t.len() implies (#[trigger] t[i]) != '[' && t[i] != ']'
                    && t[i] != '{' && t[i] != '}' by {
                    assert(number_char(t[i]));
                }
            }
            lemma_balanced_neutral(t, '[', ']');
            lemma_balanced_neutral(t, '{', '}');
        },
    }
}

/// What a nested array or object says of its parts.
proof fn lemma_nested_parts(v: Json)
    requires
        nested_value(v),
    ensures
        v matches Json::Array(a) ==> forall|i: int| 0 <= i < a.len() ==> nested_value(#[trigger] a[i]),
        v matches Json::Object(m) ==> forall|i: int|
            0 <= i < m.len() ==> plain_key((#[trigger] m[i]).0) && bracket_free(m[i].0) && nested_value(m[i].1),
        v matches Json::Object(m) ==> forall|i: int, j: int|
            0 <= i < j < m.len() ==> key_lt((#[trigger] m[i]).0, (#[trigger] m[j]).0),
{
}

/// The items of a nested array, written and joined, are balanced.
proof fn lemma_nested_items_balanced(a: Seq<Json>, open: char, close: char)
    requires
        nested_value(Json::Array(a)),
        std_ascii_whitespace(),
        (open == '[' && close == ']') || (open == '{' && close == '}'),
    ensures
        balanced(items_text_from(a, 0), open, close),
{
    lemma_nested_parts(Json::Array(a));
    reveal_strlit(",");
    lemma_item_texts_len(a);
    let texts = native_item_texts(a);
    assert(texts.skip(0) =~= texts);
    assert forall|i: int| 0 <= i < texts.len() implies balanced(#[trigger] texts[i], open, close) by {
        lemma_item_text(a, i);
        lemma_nested_text(a[i]);
    }
    lemma_balanced_neutral(","@, open, close);
    lemma_balanced_join(texts, ","@, open, close);
}

/// The members of a nested object, written and joined, are balanced.
proof fn lemma_nested_members_balanced(m: Seq<(Seq<char>, Json)>, open: char, close: char)
    requires
        nested_value(Json::Object(m)),
        std_ascii_whitespace(),
        (open == '[' && close == ']') || (open == '{' && close == '}'),
    ensures
        balanced(members_text_from(m, 0), open, close),
{
    lemma_nested_parts(Json::Object(m));
    reveal_strlit(",");
    reveal_strlit(":");
    lemma_member_texts_len(m);
    let texts = native_member_texts(m);
    assert(texts.skip(0) =~= texts);
    assert forall|i: int| 0 <= i < texts.len() implies balanced(#[trigger] texts[i], open, close) by {
        lemma_member_text(m, i);
        lemma_nested_text(m[i].1);
        let k = m[i].0;
        assert(bracket_free(k));
        lemma_balanced_neutral(k + ":"@, open, close);
        lemma_balanced_concat(k + ":"@, native_value_text(m[i].1), open, close);
    }
    lemma_balanced_neutral(","@, open, close);
    lemma_balanced_join(texts, ","@, open, close);
}

/// The bracket that opens a text `open + j + close + rest`, with `j`
/// balanced, is closed by the `close` after `j`.
proof fn lemma_wrapped_close(j: Seq<char>, rest: Seq<char>, open: char, close: char)
    requires
        balanced(j, open, close),
        open != close,
    ensures
        crate::local_gemma::args::match_close(seq![open] + j + seq![close] + rest, open, close, 0, 0)
            == Some(j.len() as int + 1),
{
    let s = seq![open] + j + seq![close] + rest;
    assert(s.subrange(1, 1 + j.len() as int) =~= j);
    lemma_match_close_balanced(s, open, close, 1, j, 1, j.len() as int);
    assert(j.take(j.len() as int) =~= j);
    assert(s[j.len() as int + 1] == close);
    assert(s[0] == open);
}

/// Reading a nested value back from its text followed by `rest`, where
/// `rest` is empty or starts with a comma.
#[verifier::spinoff_prover]
proof fn lemma_nested_read(v: Json, rest: Seq<char>)
    requires
        nested_value(v),
        std_ascii_whitespace(),
        rest.len() > 0 ==> rest[0] == ',',
    ensures
        gemma_value(native_value_text(v) + rest) == Some((v, rest)),
    decreases v, 0int,
{
    reveal_strlit("[");
    reveal_strlit("]");
    reveal_strlit("{");
    reveal_strlit("}");
    let d = gemma_delim();
    match v {
        Json::Array(a) => {
            let j = items_text_from(a, 0);
            lemma_item_texts_len(a);
            assert(native_item_texts(a).skip(0) =~= native_item_texts(a));
            let s = native_value_text(v) + rest;
            assert(s =~= seq!['['] + j + seq![']'] + rest);
            assert(!starts_with(s, d)) by {
                if starts_with(s, d) {
                    assert(s.subrange(0, 5)[0] == s[0]);
                }
            }
            lemma_nested_items_balanced(a, '[', ']');
            lemma_wrapped_close(j, rest, '[', ']');
            let c = j.len() + 1;
            assert(s.subrange(1, c as int) =~= j);
            assert(s.skip(c as int + 1) =~= rest);
            if a.len() > 0 {
                lemma_nested_items_ends(a, 0);
            }
            lemma_trim_same(j);
            lemma_nested_items(a, 0);
            assert(a.skip(0) =~= a);
            assert(crate::local_gemma::args::gemma_array(j) == Some(Json::Array(a)));
        },
        Json::Object(m) => {
            let j = members_text_from(m, 0);
            lemma_member_texts_len(m);
            assert(native_member_texts(m).skip(0) =~= native_member_texts(m));
            let s = native_value_text(v) + rest;
            assert(s =~= seq!['{'] + j + seq!['}'] + rest);
            assert(!starts_with(s, d)) by {
                if starts_with(s, d) {
                    assert(s.subrange(0, 5)[0] == s[0]);
                }
            }
            lemma_nested_members_balanced(m, '{', '}');
            lemma_wrapped_close(j, rest, '{', '}');
            let c = j.len() + 1;
            assert(s.subrange(1, c as int) =~= j);
            assert(s.skip(c as int + 1) =~= rest);
            if m.len() > 0 {
                lemma_nested_members_ends(m, 0);
            }
            lemma_trim_same(j);
            lemma_nested_members(m, 0);
            assert(m.take(0) =~= Seq::<(Seq<char>, Json)>::empty());
            assert(gemma_object(j) == Some(Json::Object(m)));
        },
        _ => {
            assert(flat_value(v));
            lemma_flat_value_read(v, rest);
        },
    }
}

proof fn lemma_nested_items_ends(a: Seq<Json>, k: int)
    requires
        0 <= k < a.len(),
        nested_value(Json::Array(a)),
        std_ascii_whitespace(),
    ensures
        items_text_from(a, k).len() > 0,
        items_text_from(a, k)[0] == native_value_text(a[k])[0],
        !unicode_whitespace(items_text_from(a, k)[0]),
        !unicode_whitespace(items_text_from(a, k).last()),
{
    lemma_nested_parts(Json::Array(a));
    let parts = native_item_texts(a).skip(k);
    lemma_item_text(a, k);
    lemma_item_text(a, a.len() - 1);
    lemma_nested_text(a[k]);
    lemma_nested_text(a[a.len() - 1]);
    assert(parts[0] == native_value_text(a[k]));
    assert(parts.last() == native_value_text(a[a.len() - 1]));
    lemma_join_ends(parts, ","@);
}

proof fn lemma_nested_members_ends(m: Seq<(Seq<char>, Json)>, k: int)
    requires
        0 <= k < m.len(),
        nested_value(Json::Object(m)),
        std_ascii_whitespace(),
    ensures
        members_text_from(m, k).len() > 0,
        members_text_from(m, k)[0] == m[k].0[0],
        !unicode_whitespace(members_text_from(m, k)[0]),
        !unicode_whitespace(members_text_from(m, k).last()),
{
    lemma_nested_parts(Json::Object(m));
    reveal_strlit(":");
    let parts = native_member_texts(m).skip(k);
    lemma_member_text(m, k);
    lemma_member_text(m, m.len() - 1);
    assert(plain_key(m[k].0));
    lemma_nested_text(m[m.len() - 1].1);
    let first = m[k].0 + ":"@ + native_value_text(m[k].1);
    assert(parts[0] == first);
    assert(first[0] == m[k].0[0]);
    let lt = native_value_text(m[m.len() - 1].1);
    let last = m[m.len() - 1].0 + ":"@ + lt;
    assert(parts.last() == last);
    assert(last.last() == lt.last());
    lemma_join_ends(parts, ","@);
}

/// Reading the items of a nested array from `k` on.
#[verifier::spinoff_prover]
proof fn lemma_nested_items(a: Seq<Json>, k: int)
    requires
        0 <= k <= a.len(),
        nested_value(Json::Array(a)),
        std_ascii_whitespace(),
    ensures
        crate::local_gemma::args::gemma_items(items_text_from(a, k)) == Some(a.skip(k)),
    decreases a, a.len() - k,
{
    lemma_nested_parts(Json::Array(a));
    reveal_strlit(",");
    let n = a.len() as int;
    lemma_item_texts_len(a);
    let texts = native_item_texts(a);
    let r = items_text_from(a, k);
    if k == n {
        assert(texts.skip(k) =~= Seq::<Seq<char>>::empty());
        assert(a.skip(k) =~= Seq::<Json>::empty());
        return;
    }
    let v = a[k];
    assert(nested_value(v));
    lemma_item_text(a, k);
    let tail = if k + 1 < n {
        ","@ + items_text_from(a, k + 1)
    } else {
        Seq::<char>::empty()
    };
    let parts = texts.skip(k);
    if k + 1 < n {
        lemma_join_front(parts, ","@);
        assert(parts.drop_first() =~= texts.skip(k + 1));
        assert(tail[0] == ',');
    } else {
        assert(parts.len() == 1);
    }
    assert(r =~= native_value_text(v) + tail);
    lemma_nested_read(v, tail);
    let nxt = next_remaining(tail);
    if k + 1 < n {
        lemma_nested_items_ends(a, k + 1);
        let r2 = items_text_from(a, k + 1);
        assert(tail.drop_first() =~= r2);
        lemma_nested_text(a[k + 1]);
        assert(r2[0] != ',');
        assert(strip_commas(r2) == r2);
        assert(strip_commas(tail) == r2);
        lemma_trim_same(r2);
        assert(nxt == r2);
    } else {
        assert(strip_commas(tail) == tail);
        lemma_trim_same(tail);
        assert(texts.skip(k + 1) =~= Seq::<Seq<char>>::empty());
        assert(nxt =~= items_text_from(a, k + 1));
    }
    lemma_nested_text(v);
    lemma_nested_items(a, k + 1);
    assert(seq![v] + a.skip(k + 1) =~= a.skip(k));
}

/// Reading the members of a nested object from `k` on, after the ones
/// before `k`.
#[verifier::spinoff_prover]
proof fn lemma_nested_members(m: Seq<(Seq<char>, Json)>, k: int)
    requires
        0 <= k <= m.len(),
        nested_value(Json::Object(m)),
        std_ascii_whitespace(),
    ensures
        gemma_members(members_text_from(m, k), m.take(k)) == Some(m),
    decreases m, m.len() - k,
{
    lemma_nested_parts(Json::Object(m));
    reveal_strlit(":");
    reveal_strlit(",");
    let n = m.len() as int;
    lemma_member_texts_len(m);
    let texts = native_member_texts(m);
    let r = members_text_from(m, k);
    if k == n {
        assert(texts.skip(k) =~= Seq::<Seq<char>>::empty());
        assert(r == Seq::<char>::empty());
        assert(m.take(k) =~= m);
        return;
    }
    let key = m[k].0;
    let v = m[k].1;
    let vt = native_value_text(v);
    assert(plain_key(key));
    assert(nested_value(v));
    lemma_member_text(m, k);
    let tail = if k + 1 < n {
        ","@ + members_text_from(m, k + 1)
    } else {
        Seq::<char>::empty()
    };
    let parts = texts.skip(k);
    if k + 1 < n {
        lemma_join_front(parts, ","@);
        assert(parts.drop_first() =~= texts.skip(k + 1));
    } else {
        assert(parts.len() == 1);
    }
    assert(parts[0] == key + ":"@ + vt);
    assert(r =~= key + (seq![':'] + (vt + tail)));
    let c = key.len() as int;
    assert(r.subrange(c, c + 1) =~= seq![':']);
    assert forall|j: int| 0 <= j < c implies !occurs_at(r, seq![':'], j) by {
        assert(r[j] == key[j]);
        if occurs_at(r, seq![':'], j) {
            assert(r.subrange(j, j + 1)[0] == r[j]);
        }
    }
    lemma_find_first(r, seq![':'], 0, c);
    assert(r.take(c) =~= key);
    lemma_trim_same(key);
    lemma_nested_text(v);
    assert(r.skip(c + 1) =~= vt + tail);
    lemma_trim_start_same(vt + tail);
    if k + 1 < n {
        assert(tail[0] == ',');
    }
    lemma_nested_read(v, tail);
    let nxt = next_remaining(tail);
    if k + 1 < n {
        lemma_nested_members_ends(m, k + 1);
        let r2 = members_text_from(m, k + 1);
        assert(tail.drop_first() =~= r2);
        assert(plain_key(m[k + 1].0));
        assert(r2[0] != ',');
        assert(strip_commas(r2) == r2);
        assert(strip_commas(tail) == r2);
        lemma_trim_same(r2);
        assert(nxt == r2);
    } else {
        assert(strip_commas(tail) == tail);
        lemma_trim_same(tail);
        assert(texts.skip(k + 1) =~= Seq::<Seq<char>>::empty());
        assert(nxt =~= members_text_from(m, k + 1));
    }
    assert forall|i: int| 0 <= i < m.take(k).len() implies key_lt((#[trigger] m.take(k)[i]).0, key) by {
        assert(m.take(k)[i] == m[i]);
        assert(key_lt(m[i].0, m[k].0));
    }
    lemma_insert_last(m.take(k), key, v);
    assert(m.take(k).push((key, v)) =~= m.take(k + 1));
    lemma_nested_members(m, k + 1);
}

/// Law: arguments written in the native format read back as they were, at
/// any depth. An object whose values nest arrays and objects of strings
/// without the `<|"|>` delimiter and without brackets or braces, booleans,
/// null and numbers whose text reads back as itself, whose keys are plain (not empty, without `:`,
/// `,`, whitespace, brackets or braces) and come in increasing order without
/// repetition at every level, as a JSON object keeps them, is parsed from
/// its own text to itself.
#[verifier::spinoff_prover]
pub proof fn law_nested_args_round_trip(m: Seq<(Seq<char>, Json)>)
    requires
        nested_value(Json::Object(m)),
    ensures
        gemma_args(native_value_text(Json::Object(m))) == Some(Json::Object(m)),
{
    lemma_std_ascii_whitespace();
    reveal_strlit("{");
    reveal_strlit("}");
    reveal_strlit(",");
    lemma_member_texts_len(m);
    let j = members_text_from(m, 0);
    assert(native_member_texts(m).skip(0) =~= native_member_texts(m));
    let t = native_value_text(Json::Object(m));
    assert(t =~= seq!['{'] + j + seq!['}']);
    assert(is_ascii_char('{') && is_ascii_char('}'));
    assert(!unicode_whitespace('{') && !unicode_whitespace('}'));
    lemma_trim_same(t);
    assert(t.subrange(1, t.len() - 1) =~= j);
    if m.len() > 0 {
        lemma_nested_members_ends(m, 0);
    }
    lemma_trim_same(j);
    lemma_nested_members(m, 0);
    assert(m.take(0) =~= Seq::<(Seq<char>, Json)>::empty());
    assert(gemma_object(j) == Some(Json::Object(m)));
}

} // verus!
