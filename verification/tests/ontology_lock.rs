use foundation_ai::ontology_lock::extract_foundation_iris;

#[test]
fn finds_each_term_once() {
    let text = "uses foundation:Task and foundation:hasStatus, foundation:_x, foundation:1a, foundation:Task again";
    assert_eq!(extract_foundation_iris(text), vec!["foundation:Task".to_string(), "foundation:hasStatus".to_string()]);
}

#[test]
fn names_stop_at_other_characters() {
    assert_eq!(extract_foundation_iris("\"foundation:Ação\""), vec!["foundation:A".to_string()]);
    assert_eq!(extract_foundation_iris("foundation:Xfoundation:Y"), vec!["foundation:Xfoundation".to_string()]);
    assert_eq!(extract_foundation_iris("foundation:Snake_case_2 "), vec!["foundation:Snake_case_2".to_string()]);
}

#[test]
fn prefix_needs_something_after_it() {
    assert!(extract_foundation_iris("foundation:").is_empty());
    assert!(extract_foundation_iris("").is_empty());
    assert!(extract_foundation_iris("foundation: Task").is_empty());
    assert_eq!(extract_foundation_iris("foundation:A"), vec!["foundation:A".to_string()]);
}
