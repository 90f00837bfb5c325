//! Automation processes as the UI draws them: the graph of a process and
//! the detail of its executions.
use vstd::prelude::*;
use crate::text::{rfind, starts_with, chars_of, string_of, slice_chars, rfind_chars, str_eq,
    matches_at, copy_string, str_concat, to_owned_string};
use crate::number_text::{decimal_text, sum_text};
use crate::tool_calls::usize_to_string;

verus! {

#[derive(Debug)]
pub struct ClassRef {
    pub label: String,
    pub icon: Option<String>,
}

#[derive(Debug)]
pub struct AutomationRef {
    pub iri: String,
    pub label: String,
}

#[derive(Debug)]
pub struct AutomationGraphNode {
    pub id: String,
    pub node_type: String,
    pub label: String,
    pub assigned_agent: Option<String>,
    pub invokes_process: Option<String>,
    pub status: Option<String>,
    pub status_color: Option<String>,
    pub status_icon: Option<String>,
    pub input_class_label: Option<String>,
    pub input_class_icon: Option<String>,
    pub output_class_label: Option<String>,
    pub output_class_icon: Option<String>,
    pub message_payload: Option<String>,
    pub uses_tools: Vec<String>,
    pub assigned_to_roles: Vec<String>,
    pub assigned_to_users: Vec<String>,
    pub output_classes: Vec<ClassRef>,
    pub timer_cycle: Option<String>,
}

#[derive(Debug)]
pub struct AutomationGraphEdge {
    pub id: String,
    pub source: String,
    pub target: String,
    pub label: Option<String>,
    pub condition_expression: Option<String>,
    pub source_handle: Option<String>,
}

#[derive(Debug)]
pub struct AutomationGraph {
    pub process_label: String,
    pub is_executable: bool,
    pub nodes: Vec<AutomationGraphNode>,
    pub edges: Vec<AutomationGraphEdge>,
    pub sequence_flow_iris: Vec<String>,
}

#[derive(Debug)]
pub struct ConversationMessage {
    pub role: String,
    pub content: String,
}

#[derive(Debug)]
pub struct StepExecutionDetail {
    pub iri: String,
    pub node_iri: String,
    pub node_label: String,
    pub node_type: String,
    pub status_label: String,
    pub status_color: Option<String>,
    pub status_icon: Option<String>,
    pub started_at: Option<String>,
    pub finished_at: Option<String>,
    pub output: Option<String>,
    pub error: Option<String>,
    pub conversation_iri: Option<String>,
    pub messages: Vec<ConversationMessage>,
}

#[derive(Debug)]
pub struct WorkflowExecutionDetail {
    pub iri: String,
    pub process_iri: String,
    pub process_label: String,
    pub status_label: String,
    pub status_color: Option<String>,
    pub status_icon: Option<String>,
    pub error_message: Option<String>,
    pub steps: Vec<StepExecutionDetail>,
}

/// The local name of an IRI: after its last `:`, else after its last `#`,
/// else after its last `/`, else the whole IRI.
pub open spec fn iri_local_name(iri: Seq<char>) -> Seq<char> {
    match rfind(iri, seq![':']) {
        Some(i) => iri.skip(i + 1),
        None => match rfind(iri, seq!['#']) {
            Some(i) => iri.skip(i + 1),
            None => match rfind(iri, seq!['/']) {
                Some(i) => iri.skip(i + 1),
                None => iri,
            },
        },
    }
}

fn after_last(v: &Vec<char>, c: char) -> (r: Option<Vec<char>>)
    ensures
        match r {
            Some(x) => rfind(v@, seq![c]) matches Some(i) && x@ == v@.skip(i + 1),
            None => rfind(v@, seq![c]) is None,
        },
{
    let pat = vec![c];
    assert(pat@ =~= seq![c]);
    let n = v.len();
    match rfind_chars(v, &pat) {
        Some(i) => {
            assert(v@.skip(i + 1) =~= v@.subrange(i + 1, v@.len() as int));
            Some(slice_chars(v, i + 1, n))
        },
        None => None,
    }
}

/// `extract_local_name`.
pub fn extract_local_name(iri: &str) -> (r: String)
    ensures
        r@ == iri_local_name(iri@),
{
    let v = chars_of(iri);
    match after_last(&v, ':') {
        Some(x) => string_of(&x),
        None => match after_last(&v, '#') {
            Some(x) => string_of(&x),
            None => match after_last(&v, '/') {
                Some(x) => string_of(&x),
                None => string_of(&v),
            },
        },
    }
}

/// Whether a class is a BPMN render type (its local name starts with `bpmn_`).
pub open spec fn is_bpmn_name(iri: Seq<char>) -> bool {
    starts_with(iri_local_name(iri), "bpmn_"@)
}

fn bpmn_name(iri: &str) -> (r: bool)
    ensures
        r == is_bpmn_name(iri@),
{
    let local = chars_of(extract_local_name(iri).as_str());
    matches_at(&local, &chars_of("bpmn_"), 0)
}

// ---------------------------------------------------------------------------
// Edges of the graph
// ---------------------------------------------------------------------------

/// A sequence flow of the process: its end points (when set) and its label
/// and condition.
#[derive(Debug)]
pub struct FlowFacts {
    pub source: Option<String>,
    pub target: Option<String>,
    pub label: Option<String>,
    pub condition_expression: Option<String>,
}

/// A way out of a subprocess: the node it leads to, and its label.
#[derive(Debug)]
pub struct SegwayFacts {
    pub to_node: Option<String>,
    pub label: Option<String>,
}

/// Something that applies to a node: its type, and the node to go to when
/// the node fails.
#[derive(Debug)]
pub struct HandlerFacts {
    pub type_iri: String,
    pub fallback: Option<String>,
}

/// A node of the graph with what its edges are drawn from: the ways out of
/// a subprocess, and what applies to the node.
#[derive(Debug)]
pub struct NodeEdgeFacts {
    pub id: String,
    pub node_type: String,
    pub segways: Vec<SegwayFacts>,
    pub handlers: Vec<HandlerFacts>,
}

/// An edge as a mathematical value: id, source, target, label, condition,
/// source handle.
pub type EdgeView = (Seq<char>, Seq<char>, Seq<char>, Option<Seq<char>>, Option<Seq<char>>, Option<Seq<char>>);

pub open spec fn opt_text(o: Option<String>) -> Option<Seq<char>> {
    match o {
        Some(s) => Some(s@),
        None => None,
    }
}

pub open spec fn edge_view(e: AutomationGraphEdge) -> EdgeView {
    (e.id@, e.source@, e.target@, opt_text(e.label), opt_text(e.condition_expression), opt_text(e.source_handle))
}

pub open spec fn edges_view(es: Seq<AutomationGraphEdge>) -> Seq<EdgeView> {
    es.map_values(|e: AutomationGraphEdge| edge_view(e))
}

/// The edges of the sequence flows that have both end points, numbered
/// `e1`, `e2`, ... by the flow's place among all flows.
pub open spec fn flow_edges(flows: Seq<FlowFacts>) -> Seq<EdgeView>
    decreases flows.len(),
{
    if flows.len() == 0 {
        Seq::empty()
    } else {
        let f = flows.last();
        let rest = flow_edges(flows.drop_last());
        match (f.source, f.target) {
            (Some(s), Some(t)) => rest.push(
                (
                    "e"@ + decimal_text(flows.len() as int),
                    s@,
                    t@,
                    opt_text(f.label),
                    opt_text(f.condition_expression),
                    None,
                ),
            ),
            _ => rest,
        }
    }
}

/// The edges out of the subprocess `sp`, the `si`-th subprocess: one per
/// way out that leads to a node, numbered after the `offset` edges before
/// them, from the handle of its place.
pub open spec fn segway_edges(si: int, sp: Seq<char>, segs: Seq<SegwayFacts>, offset: int) -> Seq<EdgeView>
    decreases segs.len(),
{
    if segs.len() == 0 {
        Seq::empty()
    } else {
        let gi = segs.len() - 1;
        let g = segs.last();
        let rest = segway_edges(si, sp, segs.drop_last(), offset);
        match g.to_node {
            Some(t) => rest.push(
                (
                    "seg"@ + decimal_text(si) + "_"@ + decimal_text(gi + offset),
                    sp,
                    t@,
                    opt_text(g.label),
                    None,
                    Some("output-"@ + decimal_text(gi)),
                ),
            ),
            None => rest,
        }
    }
}

/// The subprocess nodes (of type `bpmn_SubProcess`), in order.
pub open spec fn subprocesses(nodes: Seq<NodeEdgeFacts>) -> Seq<NodeEdgeFacts>
    decreases nodes.len(),
{
    if nodes.len() == 0 {
        Seq::empty()
    } else if nodes.last().node_type@ == "bpmn_SubProcess"@ {
        subprocesses(nodes.drop_last()).push(nodes.last())
    } else {
        subprocesses(nodes.drop_last())
    }
}

/// The edges out of the subprocesses, in order.
pub open spec fn all_segway_edges(sps: Seq<NodeEdgeFacts>, offset: int) -> Seq<EdgeView>
    decreases sps.len(),
{
    if sps.len() == 0 {
        Seq::empty()
    } else {
        all_segway_edges(sps.drop_last(), offset) + segway_edges(
            sps.len() - 1,
            sps.last().id@,
            sps.last().segways@,
            offset,
        )
    }
}

/// The error edges of the `ei`-th node: one per error handler with a
/// fallback node, labelled `on error`, from the `error` handle.
pub open spec fn handler_edges(ei: int, node: Seq<char>, hs: Seq<HandlerFacts>, offset: int) -> Seq<EdgeView>
    decreases hs.len(),
{
    if hs.len() == 0 {
        Seq::empty()
    } else {
        let hi = hs.len() - 1;
        let h = hs.last();
        let rest = handler_edges(ei, node, hs.drop_last(), offset);
        if h.type_iri@ == "foundation:ErrorHandler"@ {
            match h.fallback {
                Some(f) => rest.push(
                    (
                        "err"@ + decimal_text(ei) + "_"@ + decimal_text(hi + offset),
                        node,
                        f@,
                        Some("on error"@),
                        None,
                        Some("error"@),
                    ),
                ),
                None => rest,
            }
        } else {
            rest
        }
    }
}

/// The error edges of all nodes, in order.
pub open spec fn all_handler_edges(nodes: Seq<NodeEdgeFacts>, offset: int) -> Seq<EdgeView>
    decreases nodes.len(),
{
    if nodes.len() == 0 {
        Seq::empty()
    } else {
        all_handler_edges(nodes.drop_last(), offset) + handler_edges(
            nodes.len() - 1,
            nodes.last().id@,
            nodes.last().handlers@,
            offset,
        )
    }
}

/// The edges of the graph: the sequence flows, then the ways out of the
/// subprocesses, then the error edges, each group numbered after the
/// edges before it.
pub open spec fn graph_edges_spec(flows: Seq<FlowFacts>, nodes: Seq<NodeEdgeFacts>) -> Seq<EdgeView> {
    let fe = flow_edges(flows);
    let se = all_segway_edges(subprocesses(nodes), fe.len() as int);
    fe + se + all_handler_edges(nodes, (fe.len() + se.len()) as int)
}

fn opt_copy(o: &Option<String>) -> (r: Option<String>)
    ensures
        opt_text(r) == opt_text(*o),
{
    match o {
        Some(s) => Some(copy_string(s)),
        None => None,
    }
}

fn flow_edges_of(flows: &[FlowFacts]) -> (r: Vec<AutomationGraphEdge>)
    ensures
        edges_view(r@) == flow_edges(flows@),
{
    let mut out: Vec<AutomationGraphEdge> = Vec::new();
    let mut i: usize = 0;
    assert(edges_view(out@) =~= flow_edges(flows@.take(0)));
    while i < flows.len()
        invariant
            i <= flows@.len(),
            edges_view(out@) == flow_edges(flows@.take(i as int)),
        decreases flows.len() - i,
    {
        let f = &flows[i];
        assert(flows@.take(i + 1).drop_last() =~= flows@.take(i as int));
        assert(flows@.take(i + 1).last() == flows@[i as int]);
        match (&f.source, &f.target) {
            (Some(s), Some(t)) => {
                let ghost prev = edges_view(out@);
                let id = str_concat("e", sum_text(i, 1).as_str());
                let e = AutomationGraphEdge {
                    id,
                    source: copy_string(s),
                    target: copy_string(t),
                    label: opt_copy(&f.label),
                    condition_expression: opt_copy(&f.condition_expression),
                    source_handle: None,
                };
                let ghost ev = edge_view(e);
                out.push(e);
                assert(edges_view(out@) =~= prev.push(ev));
            },
            _ => {},
        }
        i = i + 1;
    }
    assert(flows@.take(i as int) =~= flows@);
    out
}

fn push_segway_edges(out: &mut Vec<AutomationGraphEdge>, si: usize, sp: &String, segs: &Vec<SegwayFacts>, offset: usize)
    ensures
        edges_view(final(out)@) == edges_view(old(out)@) + segway_edges(si as int, sp@, segs@, offset as int),
{
    let ghost start = edges_view(out@);
    let mut gi: usize = 0;
    assert(segway_edges(si as int, sp@, segs@.take(0), offset as int) =~= Seq::<EdgeView>::empty());
    assert(start + Seq::<EdgeView>::empty() =~= start);
    while gi < segs.len()
        invariant
            gi <= segs@.len(),
            start == edges_view(old(out)@),
            edges_view(out@) == start + segway_edges(si as int, sp@, segs@.take(gi as int), offset as int),
        decreases segs.len() - gi,
    {
        let g = &segs[gi];
        assert(segs@.take(gi + 1).drop_last() =~= segs@.take(gi as int));
        assert(segs@.take(gi + 1).last() == segs@[gi as int]);
        match &g.to_node {
            Some(t) => {
                let ghost prev = edges_view(out@);
                let a = str_concat("seg", usize_to_string(si).as_str());
                let b = str_concat(a.as_str(), "_");
                let id = str_concat(b.as_str(), sum_text(gi, offset).as_str());
                let e = AutomationGraphEdge {
                    id,
                    source: copy_string(sp),
                    target: copy_string(t),
                    label: opt_copy(&g.label),
                    condition_expression: None,
                    source_handle: Some(str_concat("output-", usize_to_string(gi).as_str())),
                };
                let ghost ev = edge_view(e);
                out.push(e);
                assert(edges_view(out@) =~= prev.push(ev));
                assert(segway_edges(si as int, sp@, segs@.take(gi + 1), offset as int) =~= segway_edges(
                    si as int,
                    sp@,
                    segs@.take(gi as int),
                    offset as int,
                ).push(ev));
            },
            None => {},
        }
        gi = gi + 1;
    }
    assert(segs@.take(gi as int) =~= segs@);
}

fn push_handler_edges(out: &mut Vec<AutomationGraphEdge>, ei: usize, node: &String, hs: &Vec<HandlerFacts>, offset: usize)
    ensures
        edges_view(final(out)@) == edges_view(old(out)@) + handler_edges(ei as int, node@, hs@, offset as int),
{
    let ghost start = edges_view(out@);
    let mut hi: usize = 0;
    assert(handler_edges(ei as int, node@, hs@.take(0), offset as int) =~= Seq::<EdgeView>::empty());
    assert(start + Seq::<EdgeView>::empty() =~= start);
    while hi < hs.len()
        invariant
            hi <= hs@.len(),
            start == edges_view(old(out)@),
            edges_view(out@) == start + handler_edges(ei as int, node@, hs@.take(hi as int), offset as int),
        decreases hs.len() - hi,
    {
        let h = &hs[hi];
        assert(hs@.take(hi + 1).drop_last() =~= hs@.take(hi as int));
        assert(hs@.take(hi + 1).last() == hs@[hi as int]);
        if str_eq(h.type_iri.as_str(), "foundation:ErrorHandler") {
            match &h.fallback {
                Some(f) => {
                    let ghost prev = edges_view(out@);
                    let a = str_concat("err", usize_to_string(ei).as_str());
                    let b = str_concat(a.as_str(), "_");
                    let id = str_concat(b.as_str(), sum_text(hi, offset).as_str());
                    let e = AutomationGraphEdge {
                        id,
                        source: copy_string(node),
                        target: copy_string(f),
                        label: Some(to_owned_string("on error")),
                        condition_expression: None,
                        source_handle: Some(to_owned_string("error")),
                    };
                    let ghost ev = edge_view(e);
                    out.push(e);
                    assert(edges_view(out@) =~= prev.push(ev));
                    assert(handler_edges(ei as int, node@, hs@.take(hi + 1), offset as int) =~= handler_edges(
                        ei as int,
                        node@,
                        hs@.take(hi as int),
                        offset as int,
                    ).push(ev));
                },
                None => {},
            }
        }
        hi = hi + 1;
    }
    assert(hs@.take(hi as int) =~= hs@);
}

/// The edges of the graph (see [`graph_edges_spec`]).
pub fn graph_edges(flows: &[FlowFacts], nodes: &[NodeEdgeFacts]) -> (r: Vec<AutomationGraphEdge>)
    ensures
        edges_view(r@) == graph_edges_spec(flows@, nodes@),
{
    let mut out = flow_edges_of(flows);
    let ghost fe = edges_view(out@);
    let offset = out.len();
    // The ways out of the subprocesses.
    let mut si: usize = 0;
    let mut k: usize = 0;
    assert(subprocesses(nodes@.take(0)) =~= Seq::<NodeEdgeFacts>::empty());
    assert(fe + all_segway_edges(Seq::<NodeEdgeFacts>::empty(), offset as int) =~= fe);
    while k < nodes.len()
        invariant
            k <= nodes@.len(),
            offset == fe.len(),
            si == subprocesses(nodes@.take(k as int)).len(),
            si <= k,
            edges_view(out@) == fe + all_segway_edges(subprocesses(nodes@.take(k as int)), offset as int),
        decreases nodes.len() - k,
    {
        let n = &nodes[k];
        assert(nodes@.take(k + 1).drop_last() =~= nodes@.take(k as int));
        assert(nodes@.take(k + 1).last() == nodes@[k as int]);
        if str_eq(n.node_type.as_str(), "bpmn_SubProcess") {
            let ghost sps = subprocesses(nodes@.take(k as int));
            let ghost before = edges_view(out@);
            push_segway_edges(&mut out, si, &n.id, &n.segways, offset);
            assert(subprocesses(nodes@.take(k + 1)) == sps.push(nodes@[k as int]));
            assert(sps.push(nodes@[k as int]).drop_last() =~= sps);
            assert(edges_view(out@) =~= fe + all_segway_edges(sps.push(nodes@[k as int]), offset as int));
            si = si + 1;
        }
        k = k + 1;
    }
    assert(nodes@.take(k as int) =~= nodes@);
    let ghost se_all = edges_view(out@);
    let offset2 = out.len();
    // The error edges.
    let mut ei: usize = 0;
    assert(se_all + all_handler_edges(nodes@.take(0), offset2 as int) =~= se_all);
    while ei < nodes.len()
        invariant
            ei <= nodes@.len(),
            offset2 == se_all.len(),
            edges_view(out@) == se_all + all_handler_edges(nodes@.take(ei as int), offset2 as int),
        decreases nodes.len() - ei,
    {
        let n = &nodes[ei];
        assert(nodes@.take(ei + 1).drop_last() =~= nodes@.take(ei as int));
        assert(nodes@.take(ei + 1).last() == nodes@[ei as int]);
        push_handler_edges(&mut out, ei, &n.id, &n.handlers, offset2);
        assert(edges_view(out@) =~= se_all + all_handler_edges(nodes@.take(ei + 1), offset2 as int));
        ei = ei + 1;
    }
    assert(nodes@.take(ei as int) =~= nodes@);
    out
}

// ---------------------------------------------------------------------------
// Nodes of the graph
// ---------------------------------------------------------------------------

/// What the graph reads of a node, by the local name of its type: the
/// agent of an agent task; the process a subprocess calls (by
/// `calledElement` for an automation subprocess, by `invokesProcess` for a
/// process subprocess); the input and output classes, from the called
/// process and the ways out for an automation subprocess, from the node
/// itself otherwise; the payload of a message task; the cycle of a timer
/// start event; the tools, roles and users of a user task.
#[derive(Debug, PartialEq, Eq, Structural, Clone, Copy)]
pub struct NodeReads {
    pub assigned_agent: bool,
    pub called_element: bool,
    pub invokes_process: bool,
    pub subprocess_io: bool,
    pub message_payload: bool,
    pub timer_cycle: bool,
    pub user_task: bool,
}

pub open spec fn node_reads_spec(raw_type: Seq<char>) -> NodeReads {
    NodeReads {
        assigned_agent: raw_type == "automation_AgentTask"@,
        called_element: raw_type == "automation_SubProcess"@,
        invokes_process: raw_type == "process_SubProcess"@,
        subprocess_io: raw_type == "automation_SubProcess"@,
        message_payload: raw_type == "automation_NOVAMessageTask"@,
        timer_cycle: raw_type == "automation_TimerStartEvent"@,
        user_task: raw_type == "automation_UserTask"@,
    }
}

/// What the graph reads of a node of the given type (see
/// [`node_reads_spec`]).
pub fn node_reads(raw_type: &str) -> (r: NodeReads)
    ensures
        r == node_reads_spec(raw_type@),
{
    NodeReads {
        assigned_agent: str_eq(raw_type, "automation_AgentTask"),
        called_element: str_eq(raw_type, "automation_SubProcess"),
        invokes_process: str_eq(raw_type, "process_SubProcess"),
        subprocess_io: str_eq(raw_type, "automation_SubProcess"),
        message_payload: str_eq(raw_type, "automation_NOVAMessageTask"),
        timer_cycle: str_eq(raw_type, "automation_TimerStartEvent"),
        user_task: str_eq(raw_type, "automation_UserTask"),
    }
}

/// The start event of a called process gives the input class of the
/// subprocess.
pub fn is_start_event(raw_type: &str) -> (r: bool)
    ensures
        r == (raw_type@ == "automation_StartEvent"@ || raw_type@ == "process_StartEvent"@),
{
    str_eq(raw_type, "automation_StartEvent") || str_eq(raw_type, "process_StartEvent")
}

/// A way out of a subprocess, as its handle is labelled: the label of the
/// end event that takes it, and the class that end event outputs (label and
/// icon), when it has one.
#[derive(Debug)]
pub struct SegwayOutput {
    pub end_label: String,
    pub class: Option<(String, Option<String>)>,
}

/// The label and icon of a way out: `<class> (<end event>)` with the class
/// icon, or the end event's label alone.
pub open spec fn output_ref(o: SegwayOutput) -> (Seq<char>, Option<Seq<char>>) {
    match o.class {
        Some((cl, icon)) => (cl@ + " ("@ + o.end_label@ + ")"@, opt_text(icon)),
        None => (o.end_label@, None),
    }
}

pub open spec fn class_refs_view(cs: Seq<ClassRef>) -> Seq<(Seq<char>, Option<Seq<char>>)> {
    cs.map_values(|c: ClassRef| (c.label@, opt_text(c.icon)))
}

/// The outputs of an automation subprocess: a single way out becomes the
/// node's output class (label and icon) and no list; several (or none)
/// are listed, one per way out, and the node has no single output class.
pub fn subprocess_outputs(outs: Vec<SegwayOutput>) -> (r: (Option<String>, Option<String>, Vec<ClassRef>))
    ensures
        outs@.len() == 1 ==> opt_text(r.0) == Some(output_ref(outs@[0]).0) && opt_text(r.1) == output_ref(
            outs@[0],
        ).1 && r.2@.len() == 0,
        outs@.len() != 1 ==> r.0 is None && r.1 is None && class_refs_view(r.2@) == outs@.map_values(
            |o: SegwayOutput| output_ref(o),
        ),
{
    let ghost ov = outs@;
    let mut refs: Vec<ClassRef> = Vec::new();
    let mut rest = outs;
    let ghost mut k: int = 0;
    assert(ov.skip(0) =~= ov);
    while rest.len() > 0
        invariant
            0 <= k <= ov.len(),
            rest@ == ov.skip(k),
            class_refs_view(refs@) == ov.take(k).map_values(|o: SegwayOutput| output_ref(o)),
        decreases rest.len(),
    {
        let o = rest.remove(0);
        assert(o == ov[k]);
        assert(rest@ =~= ov.skip(k + 1));
        let ghost prev = class_refs_view(refs@);
        let r = match o.class {
            Some((cl, icon)) => {
                let a = str_concat(cl.as_str(), " (");
                let b = str_concat(a.as_str(), o.end_label.as_str());
                ClassRef { label: str_concat(b.as_str(), ")"), icon }
            },
            None => ClassRef { label: o.end_label, icon: None },
        };
        let ghost rv = (r.label@, opt_text(r.icon));
        assert(rv == output_ref(ov[k]));
        refs.push(r);
        assert(class_refs_view(refs@) =~= prev.push(rv));
        assert(ov.take(k + 1) =~= ov.take(k).push(ov[k]));
        proof {
            k = k + 1;
        }
    }
    assert(ov.take(k) =~= ov);
    if refs.len() == 1 {
        assert(class_refs_view(refs@)[0] == output_ref(ov[0]));
        assert(class_refs_view(refs@)[0] == (refs@[0].label@, opt_text(refs@[0].icon)));
        let single = refs.remove(0);
        assert(refs@.len() == 0);
        return (Some(single.label), single.icon, refs);
    }
    (None, None, refs)
}

} // verus!
