use foundation_ai::json::{json_get, object_insert, JsonValue};

fn num(n: &str) -> JsonValue {
    JsonValue::Number(n.to_string())
}

#[test]
fn insert_then_get_reads_the_written_value() {
    let mut m = vec![("a".to_string(), num("1")), ("c".to_string(), num("3"))];
    object_insert(&mut m, "b".to_string(), num("2"));
    let keys: Vec<&str> = m.iter().map(|(k, _)| k.as_str()).collect();
    assert_eq!(keys, vec!["a", "b", "c"]);
    object_insert(&mut m, "c".to_string(), num("30"));
    assert_eq!(m.len(), 3);
    let v = JsonValue::Object(m);
    assert_eq!(json_get(&v, "c"), Some(&num("30")));
    assert_eq!(json_get(&v, "a"), Some(&num("1")));
    assert_eq!(json_get(&v, "b"), Some(&num("2")));
    assert_eq!(json_get(&v, "z"), None);
}

#[test]
fn insert_into_empty_and_at_ends() {
    let mut m: Vec<(String, JsonValue)> = vec![];
    object_insert(&mut m, "m".to_string(), JsonValue::Null);
    object_insert(&mut m, "a".to_string(), JsonValue::Bool(true));
    object_insert(&mut m, "z".to_string(), JsonValue::Str("fim".to_string()));
    let keys: Vec<&str> = m.iter().map(|(k, _)| k.as_str()).collect();
    assert_eq!(keys, vec!["a", "m", "z"]);
}
