//! Orphan instances: things whose every type is gone from the ontology.
use vstd::prelude::*;
use crate::text::{strings_view, str_eq, copy_string, to_owned_string};
use crate::tool_prompt::contains_name;

verus! {

/// The types from standard vocabularies, which exist without a class
/// declaration.
pub open spec fn builtin_types() -> Seq<Seq<char>> {
    seq![
        "owl:Class"@, "rdfs:Class"@, "owl:Thing"@, "rdfs:Resource"@, "owl:NamedIndividual"@,
        "owl:ObjectProperty"@, "owl:DatatypeProperty"@, "owl:AnnotationProperty"@,
        "owl:TransitiveProperty"@, "owl:SymmetricProperty"@, "owl:FunctionalProperty"@,
        "owl:InverseFunctionalProperty"@, "rdf:Property"@, "owl:Ontology"@, "owl:Restriction"@,
        "owl:AllDifferent"@, "owl:AllDisjointClasses"@,
    ]
}

fn builtin_type_list() -> (r: Vec<String>)
    ensures
        strings_view(r@) == builtin_types(),
{
    let v = vec![
        to_owned_string("owl:Class"), to_owned_string("rdfs:Class"), to_owned_string("owl:Thing"),
        to_owned_string("rdfs:Resource"), to_owned_string("owl:NamedIndividual"),
        to_owned_string("owl:ObjectProperty"), to_owned_string("owl:DatatypeProperty"),
        to_owned_string("owl:AnnotationProperty"), to_owned_string("owl:TransitiveProperty"),
        to_owned_string("owl:SymmetricProperty"), to_owned_string("owl:FunctionalProperty"),
        to_owned_string("owl:InverseFunctionalProperty"), to_owned_string("rdf:Property"),
        to_owned_string("owl:Ontology"), to_owned_string("owl:Restriction"),
        to_owned_string("owl:AllDifferent"), to_owned_string("owl:AllDisjointClasses"),
    ];
    assert(strings_view(v@) =~= builtin_types());
    v
}

/// The `(subject, type)` pairs as text.
pub open spec fn pairs_view(p: Seq<(String, String)>) -> Seq<(Seq<char>, Seq<char>)> {
    p.map_values(|x: (String, String)| (x.0@, x.1@))
}

/// The types of `s` among the pairs, in order.
pub open spec fn types_of(p: Seq<(Seq<char>, Seq<char>)>, s: Seq<char>) -> Seq<Seq<char>>
    decreases p.len(),
{
    if p.len() == 0 {
        Seq::empty()
    } else if p.last().0 == s {
        types_of(p.drop_last(), s).push(p.last().1)
    } else {
        types_of(p.drop_last(), s)
    }
}

/// A type that still means something: a standard one, or a class that the
/// ontology declares.
pub open spec fn valid_type(t: Seq<char>, live: Seq<Seq<char>>) -> bool {
    builtin_types().contains(t) || live.contains(t)
}

/// A subject of the pairs none of whose types is valid.
pub open spec fn is_orphan(p: Seq<(Seq<char>, Seq<char>)>, live: Seq<Seq<char>>, s: Seq<char>) -> bool {
    &&& exists|i: int| 0 <= i < p.len() && (#[trigger] p[i]).0 == s
    &&& forall|k: int| 0 <= k < types_of(p, s).len() ==> !valid_type(#[trigger] types_of(p, s)[k], live)
}

/// The first pair of `s` is at `i`.
pub open spec fn first_at(p: Seq<(Seq<char>, Seq<char>)>, i: int) -> bool {
    0 <= i < p.len() && forall|j: int| 0 <= j < i ==> (#[trigger] p[j]).0 != p[i].0
}

proof fn lemma_types_of_take(p: Seq<(Seq<char>, Seq<char>)>, s: Seq<char>, n: int)
    requires
        0 <= n < p.len(),
    ensures
        types_of(p.take(n + 1), s) == if p[n].0 == s {
            types_of(p.take(n), s).push(p[n].1)
        } else {
            types_of(p.take(n), s)
        },
{
    assert(p.take(n + 1).drop_last() =~= p.take(n));
}

/// The types of `s`, in order.
fn collect_types(pairs: &Vec<(String, String)>, s: &str) -> (r: Vec<String>)
    ensures
        strings_view(r@) == types_of(pairs_view(pairs@), s@),
{
    let ghost pv = pairs_view(pairs@);
    let mut out: Vec<String> = Vec::new();
    let mut i: usize = 0;
    assert(pv.take(0) =~= Seq::<(Seq<char>, Seq<char>)>::empty());
    assert(strings_view(out@) =~= Seq::<Seq<char>>::empty());
    while i < pairs.len()
        invariant
            i <= pairs@.len(),
            pv == pairs_view(pairs@),
            strings_view(out@) == types_of(pv.take(i as int), s@),
        decreases pairs.len() - i,
    {
        proof {
            lemma_types_of_take(pv, s@, i as int);
        }
        assert(pv[i as int] == (pairs@[i as int].0@, pairs@[i as int].1@));
        if str_eq(pairs[i].0.as_str(), s) {
            let ghost prev = strings_view(out@);
            out.push(copy_string(&pairs[i].1));
            assert(strings_view(out@) =~= prev.push(pairs@[i as int].1@));
        }
        i = i + 1;
    }
    assert(pv.take(pairs@.len() as int) =~= pv);
    out
}

/// Whether `s` occurs as a subject before position `i`.
fn seen_before(pairs: &Vec<(String, String)>, i: usize) -> (r: bool)
    requires
        i < pairs@.len(),
    ensures
        r == !first_at(pairs_view(pairs@), i as int),
{
    let ghost pv = pairs_view(pairs@);
    let mut j: usize = 0;
    while j < i
        invariant
            j <= i < pairs@.len(),
            pv == pairs_view(pairs@),
            forall|k: int| 0 <= k < j ==> (#[trigger] pv[k]).0 != pv[i as int].0,
        decreases i - j,
    {
        assert(pv[j as int].0 == pairs@[j as int].0@);
        assert(pv[i as int].0 == pairs@[i as int].0@);
        if str_eq(pairs[j].0.as_str(), pairs[i].0.as_str()) {
            return true;
        }
        j = j + 1;
    }
    false
}

/// The orphan instances, each with its types, in the order of their first
/// pair: the subjects none of whose types is a standard one or a class the
/// ontology declares.
pub fn orphans(instance_types: &Vec<(String, String)>, live: &Vec<String>) -> (r: Vec<(String, Vec<String>)>)
    ensures
        forall|i: int|
            0 <= i < r@.len() ==> is_orphan(pairs_view(instance_types@), strings_view(live@), (#[trigger] r@[i]).0@)
                && strings_view(r@[i].1@) == types_of(pairs_view(instance_types@), r@[i].0@),
        forall|i: int, j: int| 0 <= i < j < r@.len() ==> (#[trigger] r@[i]).0@ != (#[trigger] r@[j]).0@,
        forall|s: Seq<char>|
            is_orphan(pairs_view(instance_types@), strings_view(live@), s) ==> exists|i: int|
                0 <= i < r@.len() && (#[trigger] r@[i]).0@ == s,
{
    let ghost pv = pairs_view(instance_types@);
    let ghost lv = strings_view(live@);
    let builtin = builtin_type_list();
    let mut out: Vec<(String, Vec<String>)> = Vec::new();
    let mut i: usize = 0;
    while i < instance_types.len()
        invariant
            i <= instance_types@.len(),
            pv == pairs_view(instance_types@),
            lv == strings_view(live@),
            strings_view(builtin@) == builtin_types(),
            forall|k: int|
                0 <= k < out@.len() ==> is_orphan(pv, lv, (#[trigger] out@[k]).0@) && strings_view(out@[k].1@)
                    == types_of(pv, out@[k].0@) && exists|j: int| 0 <= j < i && first_at(pv, j) && pv[j].0
                    == out@[k].0@,
            forall|a: int, b: int| 0 <= a < b < out@.len() ==> (#[trigger] out@[a]).0@ != (#[trigger] out@[b]).0@,
            forall|j: int|
                0 <= j < i && first_at(pv, j) && is_orphan(pv, lv, pv[j].0) ==> exists|k: int|
                    0 <= k < out@.len() && (#[trigger] out@[k]).0@ == pv[j].0,
        decreases instance_types.len() - i,
    {
        assert(pv[i as int] == (instance_types@[i as int].0@, instance_types@[i as int].1@));
        if !seen_before(instance_types, i) {
            let subject = &instance_types[i].0;
            let types = collect_types(instance_types, subject.as_str());
            let ghost tv = strings_view(types@);
            let mut valid = false;
            let mut k: usize = 0;
            while k < types.len()
                invariant
                    k <= types@.len(),
                    tv == strings_view(types@),
                    strings_view(builtin@) == builtin_types(),
                    lv == strings_view(live@),
                    valid == exists|m: int| 0 <= m < k && valid_type(#[trigger] tv[m], lv),
                decreases types.len() - k,
            {
                if contains_name(&builtin, types[k].as_str()) || contains_name(live, types[k].as_str()) {
                    assert(valid_type(tv[k as int], lv));
                    valid = true;
                }
                k = k + 1;
            }
            proof {
                assert(pv[i as int].0 == subject@);
            }
            if !valid {
                let ghost before = out@;
                proof {
                    assert(is_orphan(pv, lv, subject@));
                    assert forall|a: int| 0 <= a < before.len() implies (#[trigger] before[a]).0@ != subject@ by {
                        let j = choose|j: int| 0 <= j < i && first_at(pv, j) && pv[j].0 == before[a].0@;
                        assert(pv[j].0 != pv[i as int].0);
                    }
                }
                out.push((copy_string(subject), types));
                proof {
                    assert forall|a: int, b: int| 0 <= a < b < out@.len() implies (#[trigger] out@[a]).0@
                        != (#[trigger] out@[b]).0@ by {
                        if b < before.len() {
                            assert(out@[a] == before[a] && out@[b] == before[b]);
                        } else {
                            assert(out@[a] == before[a]);
                        }
                    }
                    assert forall|kk: int| 0 <= kk < out@.len() implies is_orphan(pv, lv, (#[trigger] out@[kk]).0@)
                        && strings_view(out@[kk].1@) == types_of(pv, out@[kk].0@) && exists|j: int|
                        0 <= j < i + 1 && first_at(pv, j) && pv[j].0 == out@[kk].0@ by {
                        if kk < before.len() {
                            assert(out@[kk] == before[kk]);
                        } else {
                            assert(first_at(pv, i as int));
                        }
                    }
                    assert forall|j: int| 0 <= j < i + 1 && first_at(pv, j) && is_orphan(pv, lv, pv[j].0)
                        implies exists|kk: int| 0 <= kk < out@.len() && (#[trigger] out@[kk]).0@ == pv[j].0 by {
                        if j < i {
                            let kk = choose|kk: int| 0 <= kk < before.len() && (#[trigger] before[kk]).0@ == pv[j].0;
                            assert(out@[kk] == before[kk]);
                        } else {
                            assert(out@[before.len() as int].0@ == pv[j].0);
                        }
                    }
                }
            } else {
                proof {
                    let m = choose|m: int| 0 <= m < tv.len() && valid_type(#[trigger] tv[m], lv);
                    assert(!is_orphan(pv, lv, pv[i as int].0));
                }
            }
        }
        i = i + 1;
    }
    proof {
        assert forall|s: Seq<char>| is_orphan(pv, lv, s) implies exists|k: int|
            0 <= k < out@.len() && (#[trigger] out@[k]).0@ == s by {
            let j0 = choose|j: int| 0 <= j < pv.len() && (#[trigger] pv[j]).0 == s;
            lemma_first_occurrence(pv, j0);
            let j = choose|j: int| 0 <= j <= j0 && first_at(pv, j) && pv[j].0 == pv[j0].0;
        }
    }
    out
}

/// Every subject has a first pair.
proof fn lemma_first_occurrence(p: Seq<(Seq<char>, Seq<char>)>, j0: int)
    requires
        0 <= j0 < p.len(),
    ensures
        exists|j: int| 0 <= j <= j0 && first_at(p, j) && p[j].0 == p[j0].0,
    decreases j0,
{
    if first_at(p, j0) {
        assert(first_at(p, j0) && p[j0].0 == p[j0].0);
    } else {
        let j1 = choose|j: int| 0 <= j < j0 && (#[trigger] p[j]).0 == p[j0].0;
        lemma_first_occurrence(p, j1);
    }
}

} // verus!
