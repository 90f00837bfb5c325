//! The ontology terms that the source code names: every `foundation:Name`
//! token in a text, so that the classes and properties the code relies on
//! can be locked.
use vstd::prelude::*;
use crate::text::{
    chars_of, string_of, slice_chars, matches_at, occurs_at, is_ascii_alphanumeric, is_ascii_upper, is_ascii_lower,
    strings_view, str_eq, copy_string,
};
use crate::json::{key_lt, key_less};
use crate::tool_prompt::contains_name;

verus! {

/// The namespace prefix of the terms.
pub const FOUNDATION_PREFIX: &'static str = "foundation:";

/// A character of a term's local name.
pub open spec fn is_name_char(c: char) -> bool {
    is_ascii_alphanumeric(c) || c == '_'
}

/// Where the local name that starts at `start` ends.
pub open spec fn name_end(s: Seq<char>, start: int) -> int
    decreases s.len() - start,
{
    if start < 0 || start >= s.len() || !is_name_char(s[start]) {
        start
    } else {
        name_end(s, start + 1)
    }
}

/// The terms found from position `i` on, in order: at each occurrence of
/// the prefix followed by at least one character, the local name (letters,
/// digits, underscores) that follows; a name that starts with a letter
/// makes a term. The scan goes on after the name.
pub open spec fn terms_from(s: Seq<char>, i: int) -> Seq<Seq<char>>
    decreases s.len() - i, 1int,
{
    if i < 0 || i + 11 >= s.len() {
        Seq::empty()
    } else if occurs_at(s, FOUNDATION_PREFIX@, i) {
        let start = i + 11;
        let end = name_end(s, start);
        proof {
            lemma_name_end_bounds(s, start);
        }
        (if end > start && (is_ascii_upper(s[start]) || is_ascii_lower(s[start])) {
            seq![FOUNDATION_PREFIX@ + s.subrange(start, end)]
        } else {
            Seq::empty()
        }) + terms_from(s, end)
    } else {
        terms_from(s, i + 1)
    }
}

pub proof fn lemma_name_end_bounds(s: Seq<char>, start: int)
    ensures
        start <= name_end(s, start),
        0 <= start <= s.len() ==> name_end(s, start) <= s.len(),
        forall|k: int| start <= k < name_end(s, start) ==> is_name_char(#[trigger] s[k]),
        0 <= start && name_end(s, start) < s.len() ==> !is_name_char(s[name_end(s, start)]),
    decreases s.len() - start,
{
    if !(start < 0 || start >= s.len() || !is_name_char(s[start])) {
        lemma_name_end_bounds(s, start + 1);
    }
}

proof fn lemma_cons_to_set(t: Seq<char>, rest: Seq<Seq<char>>)
    ensures
        (seq![t] + rest).to_set() == rest.to_set().insert(t),
{
    let c = seq![t] + rest;
    assert forall|x: Seq<char>| c.to_set().contains(x) implies rest.to_set().insert(t).contains(x) by {
        let k = choose|k: int| 0 <= k < c.len() && c[k] == x;
        if k > 0 {
            assert(rest[k - 1] == x);
        }
    }
    assert forall|x: Seq<char>| rest.to_set().insert(t).contains(x) implies c.to_set().contains(x) by {
        if x == t {
            assert(c[0] == x);
        } else {
            let k = choose|k: int| 0 <= k < rest.len() && rest[k] == x;
            assert(c[k + 1] == x);
        }
    }
    assert(c.to_set() =~= rest.to_set().insert(t));
}

/// The terms of a text.
pub open spec fn foundation_terms(s: Seq<char>) -> Set<Seq<char>> {
    terms_from(s, 0).to_set()
}

fn is_name(c: char) -> (r: bool)
    ensures
        r == is_name_char(c),
{
    ('0' <= c && c <= '9') || ('A' <= c && c <= 'Z') || ('a' <= c && c <= 'z') || c == '_'
}

fn contains_string(v: &Vec<String>, s: &Vec<char>) -> (r: bool)
    ensures
        r == strings_view(v@).contains(s@),
{
    let mut i: usize = 0;
    while i < v.len()
        invariant
            i <= v@.len(),
            forall|k: int| 0 <= k < i ==> strings_view(v@)[k] != s@,
        decreases v.len() - i,
    {
        if crate::text::chars_eq(&chars_of(v[i].as_str()), s) {
            assert(strings_view(v@)[i as int] == s@);
            return true;
        }
        i = i + 1;
    }
    false
}

/// The `foundation:` terms a text names, each once, in the order of their
/// first occurrence.
pub fn extract_foundation_iris(text: &str) -> (r: Vec<String>)
    ensures
        strings_view(r@).to_set() == foundation_terms(text@),
        strings_view(r@).no_duplicates(),
{
    let s = chars_of(text);
    let prefix = chars_of(FOUNDATION_PREFIX);
    proof {
        reveal_strlit("foundation:");
    }
    let mut out: Vec<String> = Vec::new();
    let mut i: usize = 0;
    assert(strings_view(out@).to_set() =~= Set::<Seq<char>>::empty());
    while i < s.len() && s.len() - i > 11
        invariant
            s@ == text@,
            prefix@ == FOUNDATION_PREFIX@,
            prefix@.len() == 11,
            i <= s@.len(),
            strings_view(out@).to_set() + terms_from(s@, i as int).to_set() == foundation_terms(text@),
            strings_view(out@).no_duplicates(),
        decreases s.len() - i,
    {
        if matches_at(&s, &prefix, i) {
            let start = i + 11;
            let mut end = start;
            while end < s.len() && is_name(s[end])
                invariant
                    start <= end <= s@.len(),
                    name_end(s@, start as int) == name_end(s@, end as int),
                decreases s.len() - end,
            {
                end = end + 1;
            }
            proof {
                lemma_name_end_bounds(s@, start as int);
            }
            assert(name_end(s@, end as int) == end);
            let ghost here = if end > start && (is_ascii_upper(s@[start as int]) || is_ascii_lower(s@[start as int])) {
                seq![FOUNDATION_PREFIX@ + s@.subrange(start as int, end as int)]
            } else {
                Seq::<Seq<char>>::empty()
            };
            assert(terms_from(s@, i as int) == here + terms_from(s@, end as int));
            if end > start && (('A' <= s[start] && s[start] <= 'Z') || ('a' <= s[start] && s[start] <= 'z')) {
                let term = crate::text::concat_chars(&prefix, &slice_chars(&s, start, end));
                assert(term@ == here[0]);
                let ghost prev = strings_view(out@);
                proof {
                    lemma_cons_to_set(term@, terms_from(s@, end as int));
                    assert(here =~= seq![term@]);
                }
                if !contains_string(&out, &term) {
                    out.push(string_of(&term));
                    assert(strings_view(out@) =~= prev.push(term@));
                    proof {
                        prev.lemma_push_to_set_commute(term@);
                    }
                    assert(strings_view(out@).to_set() =~= prev.to_set().insert(term@));
                } else {
                    assert(prev.contains(term@));
                    assert(prev.to_set().contains(term@));
                }
                assert(strings_view(out@).to_set() + terms_from(s@, end as int).to_set() =~= prev.to_set() + (
                here + terms_from(s@, end as int)).to_set());
            } else {
                assert(here + terms_from(s@, end as int) =~= terms_from(s@, end as int));
            }
            i = end;
        } else {
            assert(terms_from(s@, i as int) == terms_from(s@, i + 1));
            i = i + 1;
        }
    }
    assert(terms_from(s@, i as int) =~= Seq::<Seq<char>>::empty());
    assert(strings_view(out@).to_set() + Set::<Seq<char>>::empty() =~= strings_view(out@).to_set());
    out
}

// ---------------------------------------------------------------------------
// Which terms still need a lock
// ---------------------------------------------------------------------------

/// The strings in increasing key order, none twice.
pub open spec fn strictly_sorted(v: Seq<Seq<char>>) -> bool {
    forall|i: int, j: int| 0 <= i < j < v.len() ==> key_lt(#[trigger] v[i], #[trigger] v[j])
}

pub proof fn lemma_key_lt_irreflexive(a: Seq<char>)
    ensures
        !key_lt(a, a),
    decreases a.len(),
{
    if a.len() > 0 {
        lemma_key_lt_irreflexive(a.drop_first());
    }
}

pub proof fn lemma_key_lt_transitive(a: Seq<char>, b: Seq<char>, c: Seq<char>)
    requires
        key_lt(a, b),
        key_lt(b, c),
    ensures
        key_lt(a, c),
    decreases a.len(),
{
    if a.len() > 0 && a[0] == b[0] && b[0] == c[0] {
        lemma_key_lt_transitive(a.drop_first(), b.drop_first(), c.drop_first());
    }
}

proof fn lemma_char_u32(c: char)
    ensures
        (c as u32) as int == c as int,
{
}

pub proof fn lemma_key_lt_total(a: Seq<char>, b: Seq<char>)
    requires
        a != b,
    ensures
        key_lt(a, b) || key_lt(b, a),
    decreases a.len(),
{
    if a.len() > 0 && b.len() > 0 && a[0] == b[0] {
        if a.drop_first() == b.drop_first() {
            assert(a =~= seq![a[0]] + a.drop_first());
            assert(b =~= seq![b[0]] + b.drop_first());
        }
        lemma_key_lt_total(a.drop_first(), b.drop_first());
    } else if a.len() == 0 && b.len() == 0 {
        assert(a =~= b);
    } else if a.len() > 0 && b.len() > 0 {
        lemma_char_u32(a[0]);
        lemma_char_u32(b[0]);
    }
}

/// Puts `x` in its place in a list in increasing key order, unless it is
/// there already.
fn insert_sorted(v: &mut Vec<String>, x: String)
    requires
        strictly_sorted(strings_view(old(v)@)),
    ensures
        strictly_sorted(strings_view(final(v)@)),
        forall|s: Seq<char>| strings_view(final(v)@).contains(s) <==> (strings_view(old(v)@).contains(s) || s == x@),
{
    let ghost w = strings_view(v@);
    let xc = chars_of(x.as_str());
    let mut i: usize = 0;
    let mut more = v.len() > 0 && key_less(&chars_of(v[0].as_str()), &xc);
    while more
        invariant
            i < v@.len() || !more,
            i <= v@.len(),
            w == strings_view(v@),
            xc@ == x@,
            forall|k: int| 0 <= k < i ==> key_lt(#[trigger] w[k], x@),
            more ==> key_lt(w[i as int], x@),
            !more ==> i == v@.len() || !key_lt(w[i as int], x@),
        decreases v.len() - i,
    {
        i = i + 1;
        more = i < v.len() && key_less(&chars_of(v[i].as_str()), &xc);
    }
    if i < v.len() && str_eq(v[i].as_str(), x.as_str()) {
        assert(w[i as int] == x@);
        return;
    }
    let ghost old_v = v@;
    v.insert(i, x);
    let ghost nw = strings_view(v@);
    assert(nw =~= w.insert(i as int, x@));
    proof {
        if i < w.len() {
            assert(!key_lt(w[i as int], x@));
            assert(w[i as int] != x@);
            lemma_key_lt_total(w[i as int], x@);
        }
        assert forall|a: int, b: int| 0 <= a < b < nw.len() implies key_lt(#[trigger] nw[a], #[trigger] nw[b]) by {
            if b < i {
            } else if b == i {
            } else if a < i {
                if b - 1 > i {
                    lemma_key_lt_transitive(x@, w[i as int], w[b - 1]);
                }
                lemma_key_lt_transitive(nw[a], x@, nw[b]);
            } else if a == i {
                if b - 1 > i {
                    lemma_key_lt_transitive(x@, w[i as int], w[b - 1]);
                }
            } else {
            }
        }
        assert forall|s: Seq<char>| nw.contains(s) implies (w.contains(s) || s == x@) by {
            let k = choose|k: int| 0 <= k < nw.len() && nw[k] == s;
            if k < i {
                assert(w[k] == s);
            } else if k > i {
                assert(w[k - 1] == s);
            }
        }
        assert forall|s: Seq<char>| (w.contains(s) || s == x@) implies nw.contains(s) by {
            if s == x@ {
                assert(nw[i as int] == s);
            } else {
                let k = choose|k: int| 0 <= k < w.len() && w[k] == s;
                if k < i {
                    assert(nw[k] == s);
                } else {
                    assert(nw[k + 1] == s);
                }
            }
        }
    }
}

/// The ontology terms still to lock: those the code names that are defined
/// in the ontology and not locked yet, in increasing order, none twice.
pub fn pending_locks(code: &Vec<String>, ontology: &Vec<String>, locked: &Vec<String>) -> (r: Vec<String>)
    ensures
        strictly_sorted(strings_view(r@)),
        forall|s: Seq<char>|
            #![trigger strings_view(r@).contains(s)]
            strings_view(r@).contains(s) <==> (strings_view(code@).contains(s) && strings_view(ontology@).contains(s)
                && !strings_view(locked@).contains(s)),
{
    let mut out: Vec<String> = Vec::new();
    let ghost cv = strings_view(code@);
    let mut i: usize = 0;
    assert(strings_view(out@) =~= Seq::<Seq<char>>::empty());
    while i < code.len()
        invariant
            i <= code@.len(),
            cv == strings_view(code@),
            strictly_sorted(strings_view(out@)),
            forall|s: Seq<char>|
                #![trigger strings_view(out@).contains(s)]
                strings_view(out@).contains(s) <==> (cv.take(i as int).contains(s) && strings_view(
                    ontology@,
                ).contains(s) && !strings_view(locked@).contains(s)),
        decreases code.len() - i,
    {
        let c = &code[i];
        let keep = contains_name(ontology, c.as_str()) && !contains_name(locked, c.as_str());
        let ghost before = strings_view(out@);
        if keep {
            insert_sorted(&mut out, copy_string(c));
        }
        proof {
            let t1 = cv.take(i + 1);
            let t0 = cv.take(i as int);
            assert forall|s: Seq<char>| t1.contains(s) <==> (t0.contains(s) || s == cv[i as int]) by {
                if t1.contains(s) {
                    let k = choose|k: int| 0 <= k < t1.len() && t1[k] == s;
                    if k < i {
                        assert(t0[k] == s);
                    }
                }
                if t0.contains(s) {
                    let k = choose|k: int| 0 <= k < t0.len() && t0[k] == s;
                    assert(t1[k] == s);
                }
                if s == cv[i as int] {
                    assert(t1[i as int] == s);
                }
            }
            assert forall|s: Seq<char>| #![trigger strings_view(out@).contains(s)] strings_view(out@).contains(s) <==> (
                cv.take(i + 1).contains(s) && strings_view(ontology@).contains(s) && !strings_view(locked@).contains(s)) by {
                assert(before.contains(s) <==> (cv.take(i as int).contains(s) && strings_view(ontology@).contains(s)
                    && !strings_view(locked@).contains(s)));
            }
        }
        i = i + 1;
    }
    assert(cv.take(code@.len() as int) =~= cv);
    out
}

} // verus!
