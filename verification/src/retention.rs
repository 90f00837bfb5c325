//! The retention policy: classes may keep their instances for a number of
//! days, after which an instance not updated since is retracted.
use vstd::prelude::*;
use crate::graph::GraphObject;
use crate::recovery::{rfc3339_millis, parse_rfc3339_millis};
use crate::text::{copy_string, strings_view};

verus! {

/// A day in milliseconds.
pub const DAY_MS: i64 = 86400000;

/// The classes that set a retention, with their number of days: the
/// `retentionDays` values that are positive integers, in order.
pub open spec fn retention_classes_spec(triples: Seq<(String, GraphObject)>) -> Seq<(Seq<char>, i64)>
    decreases triples.len(),
{
    if triples.len() == 0 {
        Seq::empty()
    } else {
        let rest = retention_classes_spec(triples.drop_last());
        match triples.last().1 {
            GraphObject::Integer(n) => if n > 0 {
                rest.push((triples.last().0@, n))
            } else {
                rest
            },
            _ => rest,
        }
    }
}

pub open spec fn classes_view(v: Seq<(String, i64)>) -> Seq<(Seq<char>, i64)> {
    v.map_values(|p: (String, i64)| (p.0@, p.1))
}

/// The classes that set a retention (see [`retention_classes_spec`]), from
/// the subjects and objects of the `retentionDays` triples.
pub fn classes_with_retention(triples: &[(String, GraphObject)]) -> (r: Vec<(String, i64)>)
    ensures
        classes_view(r@) == retention_classes_spec(triples@),
{
    let mut out: Vec<(String, i64)> = Vec::new();
    let mut i: usize = 0;
    assert(classes_view(out@) =~= retention_classes_spec(triples@.take(0)));
    while i < triples.len()
        invariant
            i <= triples@.len(),
            classes_view(out@) == retention_classes_spec(triples@.take(i as int)),
        decreases triples.len() - i,
    {
        assert(triples@.take(i + 1).drop_last() =~= triples@.take(i as int));
        assert(triples@.take(i + 1).last() == triples@[i as int]);
        match &triples[i].1 {
            GraphObject::Integer(n) => {
                if *n > 0 {
                    let ghost prev = classes_view(out@);
                    out.push((copy_string(&triples[i].0), *n));
                    assert(classes_view(out@) =~= prev.push((triples@[i as int].0@, *n)));
                }
            },
            _ => {},
        }
        i = i + 1;
    }
    assert(triples@.take(i as int) =~= triples@);
    out
}

/// The instant before which an instance of a class kept `days` days is
/// stale.
pub fn retention_cutoff(now_ms: i64, days: i64) -> (r: i64)
    requires
        0 < days,
        days * DAY_MS <= i64::MAX,
        now_ms - days * DAY_MS >= i64::MIN,
    ensures
        r == now_ms - days * DAY_MS,
{
    assert(days * DAY_MS >= DAY_MS) by (nonlinear_arith)
        requires
            days >= 1,
    ;
    now_ms - days * DAY_MS
}

/// When an instance was last updated, in milliseconds, when its
/// `lastUpdatedAt` reads as RFC 3339.
pub open spec fn last_updated_ms(last_updated: Option<String>) -> Option<i64> {
    match last_updated {
        Some(t) => rfc3339_millis(t@),
        None => None,
    }
}

/// The instances to retract: those last updated before `cutoff_ms`, in
/// order. Instances without a readable update time are kept.
pub open spec fn stale_spec(instances: Seq<(String, Option<String>)>, cutoff_ms: i64) -> Seq<Seq<char>>
    decreases instances.len(),
{
    if instances.len() == 0 {
        Seq::empty()
    } else {
        let rest = stale_spec(instances.drop_last(), cutoff_ms);
        match last_updated_ms(instances.last().1) {
            Some(ms) => if ms < cutoff_ms {
                rest.push(instances.last().0@)
            } else {
                rest
            },
            None => rest,
        }
    }
}

/// The instances to retract (see [`stale_spec`]), from each instance and
/// its `lastUpdatedAt` text.
pub fn stale_instances(instances: &[(String, Option<String>)], cutoff_ms: i64) -> (r: Vec<String>)
    ensures
        strings_view(r@) == stale_spec(instances@, cutoff_ms),
{
    let mut out: Vec<String> = Vec::new();
    let mut i: usize = 0;
    assert(strings_view(out@) =~= stale_spec(instances@.take(0), cutoff_ms));
    while i < instances.len()
        invariant
            i <= instances@.len(),
            strings_view(out@) == stale_spec(instances@.take(i as int), cutoff_ms),
        decreases instances.len() - i,
    {
        assert(instances@.take(i + 1).drop_last() =~= instances@.take(i as int));
        assert(instances@.take(i + 1).last() == instances@[i as int]);
        let ms = match &instances[i].1 {
            Some(t) => parse_rfc3339_millis(t.as_str()),
            None => None,
        };
        match ms {
            Some(m) => {
                if m < cutoff_ms {
                    let ghost prev = strings_view(out@);
                    out.push(copy_string(&instances[i].0));
                    assert(strings_view(out@) =~= prev.push(instances@[i as int].0@));
                }
            },
            None => {},
        }
        i = i + 1;
    }
    assert(instances@.take(i as int) =~= instances@);
    out
}

} // verus!
