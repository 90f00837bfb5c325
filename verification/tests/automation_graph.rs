use foundation_ai::automation::{
    graph_edges, is_start_event, node_reads, subprocess_outputs, FlowFacts, HandlerFacts, NodeEdgeFacts,
    SegwayFacts, SegwayOutput,
};

fn s(x: &str) -> Option<String> {
    Some(x.to_string())
}

fn node(id: &str, ty: &str, segways: Vec<SegwayFacts>, handlers: Vec<HandlerFacts>) -> NodeEdgeFacts {
    NodeEdgeFacts { id: id.to_string(), node_type: ty.to_string(), segways, handlers }
}

#[test]
fn edges_are_numbered_by_group() {
    let flows = vec![
        FlowFacts { source: s("a"), target: s("b"), label: s("sim"), condition_expression: s("x > 1") },
        FlowFacts { source: None, target: s("c"), label: None, condition_expression: None },
        FlowFacts { source: s("b"), target: s("c"), label: None, condition_expression: None },
    ];
    let nodes = vec![
        node("a", "bpmn_Task", vec![], vec![
            HandlerFacts { type_iri: "foundation:ErrorHandler".to_string(), fallback: s("z") },
            HandlerFacts { type_iri: "foundation:Other".to_string(), fallback: s("y") },
        ]),
        node(
            "sp",
            "bpmn_SubProcess",
            vec![
                SegwayFacts { to_node: s("c"), label: s("ok") },
                SegwayFacts { to_node: None, label: None },
                SegwayFacts { to_node: s("d"), label: None },
            ],
            vec![],
        ),
        node("b", "bpmn_Task", vec![SegwayFacts { to_node: s("ignored"), label: None }], vec![
            HandlerFacts { type_iri: "foundation:ErrorHandler".to_string(), fallback: None },
            HandlerFacts { type_iri: "foundation:ErrorHandler".to_string(), fallback: s("w") },
        ]),
    ];
    let es = graph_edges(&flows, &nodes);
    let ids: Vec<&str> = es.iter().map(|e| e.id.as_str()).collect();
    assert_eq!(ids, vec!["e1", "e3", "seg0_2", "seg0_4", "err0_4", "err2_5"]);
    assert_eq!(es[0].label.as_deref(), Some("sim"));
    assert_eq!(es[0].condition_expression.as_deref(), Some("x > 1"));
    assert_eq!(es[2].source, "sp");
    assert_eq!(es[2].source_handle.as_deref(), Some("output-0"));
    assert_eq!(es[3].source_handle.as_deref(), Some("output-2"));
    assert_eq!(es[4].target, "z");
    assert_eq!(es[4].label.as_deref(), Some("on error"));
    assert_eq!(es[5].source_handle.as_deref(), Some("error"));
}

#[test]
fn single_output_becomes_node_output() {
    let (label, icon, list) = subprocess_outputs(vec![SegwayOutput {
        end_label: "Fim".to_string(),
        class: Some(("Pedido".to_string(), s("box"))),
    }]);
    assert_eq!(label.as_deref(), Some("Pedido (Fim)"));
    assert_eq!(icon.as_deref(), Some("box"));
    assert!(list.is_empty());
    let (label, icon, list) = subprocess_outputs(vec![
        SegwayOutput { end_label: "A".to_string(), class: None },
        SegwayOutput { end_label: "B".to_string(), class: Some(("C".to_string(), None)) },
    ]);
    assert!(label.is_none() && icon.is_none());
    assert_eq!(list.len(), 2);
    assert_eq!(list[0].label, "A");
    assert_eq!(list[1].label, "C (B)");
}

#[test]
fn reads_by_node_type() {
    let r = node_reads("automation_SubProcess");
    assert!(r.called_element && r.subprocess_io && !r.invokes_process && !r.user_task);
    assert!(node_reads("process_SubProcess").invokes_process);
    assert!(node_reads("automation_UserTask").user_task);
    assert!(node_reads("automation_TimerStartEvent").timer_cycle);
    assert!(!node_reads("automation_Other").assigned_agent);
    assert!(is_start_event("process_StartEvent") && !is_start_event("StartEvent"));
}
