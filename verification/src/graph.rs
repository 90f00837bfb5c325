//! The graph records the conversation logic reads: an individual and its
//! property values, as the graph store hands them over.
use vstd::prelude::*;
use crate::text::{str_eq, copy_string};

verus! {

/// The object of a triple.
#[derive(Debug)]
pub enum GraphObject {
    Iri(String),
    Literal { value: String, datatype: Option<String>, language: Option<String> },
    Integer(i64),
    /// An RFC 3339 timestamp.
    DateTime(String),
    Blank(String),
    /// A decimal number, as the bit pattern of its `f64`.
    Number(u64),
}

/// An individual of the graph with its current property values, in the
/// order the store lists them.
#[derive(Debug)]
pub struct Individual {
    pub iri: String,
    pub properties: Vec<(String, GraphObject)>,
}

/// `Object::as_literal`: the value of a literal.
pub open spec fn literal_of(o: GraphObject) -> Option<Seq<char>> {
    match o {
        GraphObject::Literal { value, .. } => Some(value@),
        _ => None,
    }
}

/// `Object::as_iri`: the IRI of an IRI object.
pub open spec fn iri_of(o: GraphObject) -> Option<Seq<char>> {
    match o {
        GraphObject::Iri(i) => Some(i@),
        _ => None,
    }
}

/// The index of the first property named `key`.
pub open spec fn first_property_index(props: Seq<(String, GraphObject)>, key: Seq<char>) -> Option<int>
    decreases props.len(),
{
    if props.len() == 0 {
        None
    } else if props[0].0@ == key {
        Some(0)
    } else {
        match first_property_index(props.drop_first(), key) {
            Some(i) => Some(i + 1),
            None => None,
        }
    }
}

/// `properties.iter().find(|(k, _)| k == key)`: the value of the first
/// property named `key`.
pub open spec fn first_property(props: Seq<(String, GraphObject)>, key: Seq<char>) -> Option<GraphObject> {
    match first_property_index(props, key) {
        Some(i) => Some(props[i].1),
        None => None,
    }
}

/// The literal value of the first property named `key`, if that value is a
/// literal.
pub open spec fn first_literal(props: Seq<(String, GraphObject)>, key: Seq<char>) -> Option<Seq<char>> {
    match first_property(props, key) {
        Some(o) => literal_of(o),
        None => None,
    }
}

pub proof fn lemma_first_property_index(props: Seq<(String, GraphObject)>, key: Seq<char>)
    ensures
        match first_property_index(props, key) {
            Some(i) => 0 <= i < props.len() && props[i].0@ == key && forall|j: int|
                0 <= j < i ==> props[j].0@ != key,
            None => forall|j: int| 0 <= j < props.len() ==> props[j].0@ != key,
        },
    decreases props.len(),
{
    if props.len() > 0 {
        lemma_first_property_index(props.drop_first(), key);
        if props[0].0@ != key {
            assert forall|j: int| 1 <= j < props.len() implies props[j] == props.drop_first()[j - 1] by {}
        }
    }
}

/// The value of the first property named `key`.
pub fn find_property<'a>(props: &'a Vec<(String, GraphObject)>, key: &str) -> (r: Option<&'a GraphObject>)
    ensures
        match r {
            Some(o) => first_property(props@, key@) == Some(*o),
            None => first_property(props@, key@) is None,
        },
{
    proof {
        lemma_first_property_index(props@, key@);
    }
    let mut i: usize = 0;
    while i < props.len()
        invariant
            i <= props@.len(),
            forall|j: int| 0 <= j < i ==> props@[j].0@ != key@,
            match first_property_index(props@, key@) {
                Some(x) => 0 <= x < props@.len() && props@[x].0@ == key@ && forall|j: int|
                    0 <= j < x ==> props@[j].0@ != key@,
                None => forall|j: int| 0 <= j < props@.len() ==> props@[j].0@ != key@,
            },
        decreases props.len() - i,
    {
        if str_eq(props[i].0.as_str(), key) {
            proof {
                match first_property_index(props@, key@) {
                    Some(x) => {
                        if x < i {
                            assert(props@[x].0@ != key@);
                        } else if x > i {
                            assert(props@[i as int].0@ != key@);
                        }
                    },
                    None => {
                        assert(props@[i as int].0@ != key@);
                    },
                }
            }
            return Some(&props[i].1);
        }
        i = i + 1;
    }
    None
}

/// The literal value of the first property named `key`, if a literal.
pub fn find_literal(props: &Vec<(String, GraphObject)>, key: &str) -> (r: Option<String>)
    ensures
        match r {
            Some(v) => first_literal(props@, key@) == Some(v@),
            None => first_literal(props@, key@) is None,
        },
{
    match find_property(props, key) {
        Some(GraphObject::Literal { value, .. }) => Some(copy_string(value)),
        _ => None,
    }
}

} // verus!
