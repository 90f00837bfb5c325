use foundation_ai::foundation_context::{blackboard_context, BlackboardWidget};
use foundation_ai::graph::{GraphObject, Individual};
use foundation_ai::settings::{get_max_input_tokens, NO_MAX_INPUT_TOKENS_ERROR};
use foundation_ai::subconscious::{resolve_possessive_entities, UserRelation};

fn literal(v: &str) -> GraphObject {
    GraphObject::Literal { value: v.to_string(), datatype: None, language: None }
}

fn individual(props: Vec<(&str, GraphObject)>) -> Individual {
    Individual {
        iri: "foundation:X".to_string(),
        properties: props.into_iter().map(|(k, v)| (k.to_string(), v)).collect(),
    }
}

#[test]
fn max_input_tokens_from_setting_then_model() {
    let setting = individual(vec![("foundation:settingValue", literal("50000"))]);
    assert_eq!(get_max_input_tokens(Some(&setting), Ok(None)), Ok(50000));
    let bad = individual(vec![("foundation:settingValue", literal("muito"))]);
    let model = individual(vec![("foundation:maxInputTokens", GraphObject::Integer(128000))]);
    assert_eq!(get_max_input_tokens(Some(&bad), Ok(Some(&model))), Ok(128000));
    assert_eq!(get_max_input_tokens(None, Ok(Some(&model))), Ok(128000));
    assert_eq!(get_max_input_tokens(None, Ok(None)), Err(NO_MAX_INPUT_TOKENS_ERROR.to_string()));
    let no_budget = individual(vec![("foundation:maxInputTokens", literal("5"))]);
    assert_eq!(get_max_input_tokens(None, Ok(Some(&no_budget))), Err(NO_MAX_INPUT_TOKENS_ERROR.to_string()));
    assert_eq!(
        get_max_input_tokens(None, Err("Failed to get AI model: IRI not found".to_string())),
        Err("Failed to get AI model: IRI not found".to_string())
    );
}

#[test]
fn blackboard_lists_widgets() {
    assert_eq!(blackboard_context(&[]), None);
    let ws = vec![
        BlackboardWidget {
            widget_type: "table".to_string(),
            class_iri: "foundation:Task".to_string(),
            class_label: "Task".to_string(),
            entity_iri: "foundation:Task_1".to_string(),
            entity_label: "Comprar pão".to_string(),
        },
        BlackboardWidget {
            widget_type: "card".to_string(),
            class_iri: String::new(),
            class_label: String::new(),
            entity_iri: "foundation:X".to_string(),
            entity_label: String::new(),
        },
    ];
    assert_eq!(
        blackboard_context(&ws).unwrap(),
        "## Blackboard\nThe user is currently viewing the following widgets:\n\
- widget_type=table, class_iri=foundation:Task, class_name=Task, instance_iri=foundation:Task_1, instance_name=Comprar pão\n\
- widget_type=card, class_iri=, class_name=, instance_iri=foundation:X, instance_name="
    );
}

fn relation(p: &str, obj: &str, label: &str, inverse: Option<&str>) -> UserRelation {
    UserRelation {
        predicate: p.to_string(),
        object_iri: obj.to_string(),
        predicate_label: label.to_string(),
        inverse_label: inverse.map(|s| s.to_string()),
    }
}

#[test]
fn possessives_resolve_through_the_users_relations() {
    let rels = vec![
        relation("foundation:worksAt", "foundation:Org_1", "Empresa", Some("funcionário de")),
        relation("foundation:hasPet", "foundation:Dog_1", "cachorro", None),
        relation("foundation:hasStatus", "foundation:Status_1", "status", None),
    ];
    assert_eq!(
        resolve_possessive_entities("Como está MEU cachorro? E a minha (empresa)!", &rels),
        vec![
            ("foundation:Org_1".to_string(), "funcionário de".to_string()),
            ("foundation:Dog_1".to_string(), "cachorro".to_string()),
        ]
    );
    assert!(resolve_possessive_entities("como está o cachorro", &rels).is_empty());
    assert!(resolve_possessive_entities("meu status", &rels).is_empty());
}
