use foundation_ai::graph::GraphObject;
use foundation_ai::retention::{classes_with_retention, retention_cutoff, stale_instances, DAY_MS};

#[test]
fn only_positive_integer_retentions_count() {
    let triples = vec![
        ("foundation:Log".to_string(), GraphObject::Integer(30)),
        ("foundation:Zero".to_string(), GraphObject::Integer(0)),
        ("foundation:Neg".to_string(), GraphObject::Integer(-3)),
        ("foundation:Text".to_string(), GraphObject::DateTime("2024-01-01T00:00:00Z".to_string())),
        ("foundation:Trace".to_string(), GraphObject::Integer(7)),
    ];
    let cs = classes_with_retention(&triples);
    assert_eq!(cs, vec![("foundation:Log".to_string(), 30), ("foundation:Trace".to_string(), 7)]);
}

#[test]
fn cutoff_is_days_before_now() {
    assert_eq!(retention_cutoff(10 * DAY_MS, 3), 7 * DAY_MS);
    assert_eq!(DAY_MS, 24 * 60 * 60 * 1000);
}

#[test]
fn stale_instances_are_those_updated_before_cutoff() {
    let cutoff = 1_700_000_000_000; // 2023-11-14T22:13:20Z
    let instances = vec![
        ("a".to_string(), Some("2023-11-14T22:13:19Z".to_string())),
        ("b".to_string(), Some("2023-11-14T22:13:20Z".to_string())),
        ("c".to_string(), None),
        ("d".to_string(), Some("ontem".to_string())),
        ("e".to_string(), Some("2020-01-01T00:00:00+02:00".to_string())),
    ];
    assert_eq!(stale_instances(&instances, cutoff), vec!["a".to_string(), "e".to_string()]);
}
