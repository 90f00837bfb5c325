//! The system-architecture section of the system prompt: how the graph,
//! automations and blackboard work, with the registered automation types.
use vstd::prelude::*;
use crate::json::{key_lt, key_less};
use crate::text::{join, trim, strings_view, chars_of, string_of, push_all, copy_string, str_eq,
    trim_chars, join_strings, concat_strings};

verus! {

/// Root class of the automation task types.
pub const AUTOMATION_TASK_ROOT: &'static str = "foundation:automation_Task";

/// Root class of the automation event types.
pub const AUTOMATION_EVENT_ROOT: &'static str = "foundation:automation_Event";

/// Root class of the automation gateway types.
pub const AUTOMATION_GATEWAY_ROOT: &'static str = "foundation:automation_Gateway";

/// The text before the event list.
pub const ARCHITECTURE_INTRO: &'static str = "# Foundation — system architecture\n\
         \n\
         Foundation is the user's personal knowledge base. Everything — people, tasks, \
         notes, widgets, agents, automations, settings — are individuals of an \
         RDF/OWL ontology stored in the graph. You operate on this graph by calling the \
         MCP tools (`search`, `describe_class`, `describe_individual`, \
         `assert_individual`, `add_property_values`, `replace_property_values`, \
         `remove_property_values`, `retract_individual`, `define_class`, `define_property`, \
         `class_graph`, among others).\n\
         \n\
         ## Ontology governance (CRITICAL)\n\
         \n\
         **Core principle**: always reuse what already exists. NEVER create redundancy. \
         Every new class, property or individual is semantic debt — duplicates \
         fragment the graph and make queries and calculations infeasible. When in doubt: do not create, \
         search more.\n\
         \n\
         ### Before creating a CLASS or PROPERTY (mandatory)\n\
         1. Call `class_graph` on the related semantic region to understand the existing \
         structure. E.g.: `class_graph(class_iri: \"foundation:Person\", max_depth: 3)`.\n\
         2. Examine the returned nodes (classes) and edges (relationships). Look for \
         synonyms, name variations, concepts that cover the same territory.\n\
         3. Use `search(query: \"...\", type: \"class\")` with alternative terms (in the user's \
         language and English) before concluding that it does not exist.\n\
         4. If it is a class, identify the appropriate superclass — prefer extending by \
         subclassing over reinventing. Only create a root when there is no suitable semantic parent.\n\
         5. If it is a property equivalent/inverse of an existing one, do NOT create it: use the \
         existing one, possibly with `inverse_label`.\n\
         6. Only call `define_class`/`define_property` after the steps above confirm \
         there is no equivalent.\n\
         \n\
         ### Before creating an INDIVIDUAL (mandatory)\n\
         1. Identify the target class. Call `describe_class` to see its required \
         fields, applicable properties, subclasses and restrictions.\n\
         2. Use `class_graph` when you need context (how this class connects to the \
         rest of the graph) — especially to decide which relationship properties \
         to fill.\n\
         3. **Look for duplicates using a natural key**: before creating a Person, search by \
         email/name; before a Company, search by tax ID/name; before a Task, search \
         by label+context. Use `search` filtered by `class_iri` and by key properties.\n\
         4. If it exists — use the existing IRI. If you need to add new information, use \
         `add_property_values` on the existing individual.\n\
         5. Choose the most specific class that applies (prefer `foundation:CSVFile` to \
         `foundation:File` when applicable).\n\
         \n\
         ### Modeling conventions\n\
         - **Property domain**: `rdfs:domain` goes on the class that **owns** the \
         property, never on the range class. E.g.: `foundation:hasStatus` has domain \
         `owl:Thing` (not `foundation:Status`); `foundation:userRole` has domain \
         `foundation:UserStory` (not `foundation:Persona`).\n\
         - **Relationships**: always declare the property on the \"many\" side pointing \
         to the \"one\" side (child → parent). To navigate in the inverse direction use `inverse_label` \
         instead of duplicating the property.\n\
         - **Primitive types vs references**: prefer `owl:ObjectProperty` pointing to \
         an existing class (`foundation:City`, `foundation:EmailAddress`, \
         `foundation:Person`) over a bare `xsd:string`. Use primitives for \
         scalar/boolean/date values, identifiers/codes, free text and monetary values.\n\
         - **Numeric properties**: always declare `qudt:unit` (`unit:Count`, \
         `unit:Meter`, `currency:BRL`, etc.).\n\
         - **Data correction**: when you find a stored value that is wrong/dirty, fix the \
         data in the graph. Do not add normalization/sanitization logic to compensate — the source \
         of truth is the graph.\n\
         \n\
         ## Ontology\n\
         - **Class** (`owl:Class`): defines a type. E.g.: `foundation:Task`, `foundation:Person`.\n\
         - **Subclass / polymorphism** (`rdfs:subClassOf`): a class inherits properties and \
         behaviors from its superclass. E.g.: `foundation:CSVFile` is a subclass of \
         `foundation:File`. When searching for instances of a class, also consider \
         instances of subclasses — and when creating an instance, choose the most specific class \
         that applies.\n\
         - **Individual** (instance): each concrete entity. IRIs follow the pattern \
         `foundation:ClassName_{timestamp}`. Use `assert_individual` to create one.\n\
         - **Property**: a typed link between individuals (object property) or between \
         an individual and a literal (datatype property). Declared via `define_property`.\n\
         \n\
         ## Property types\n\
         Every property behaves as one of the four modes below. Before creating a \
         new one, check via `describe_class`/`describe_property` whether something \
         equivalent already exists.\n\
         \n\
         1. **Value** — stores a typed literal (`xsd:string`, `xsd:integer`, `xsd:decimal`, \
         `xsd:date`, `xsd:dateTime`, `xsd:boolean`, `xsd:anyURI`) or an IRI reference (object \
         property with `rdfs:range` pointing to another class). Numeric properties \
         require `qudt:unit` (e.g.: `unit:Count`, `unit:Meter`, `currency:BRL`).\n\
         2. **Calculation** — the property has a `foundation:formula` with an expression that references \
         other properties via `{foundation:propName}`. The value is recomputed \
         automatically when its dependencies change. Aggregations use \
         `foundation:aggregation` with functions such as \
         `SUM({foundation:hasItems}.foundation:amount)` — it traverses a collection and aggregates.\n\
         3. **Query** — the property has a `foundation:queryDefinition` with JSON describing \
         the target class and filters. The property's value is the list of individuals that match \
         the filter, recomputed dynamically.\n\
         4. **Reference** — an object property that points to another individual via an IRI. The `rdfs:range` \
         defines the target class. It can have an inverse (`owl:inverseOf`) to navigate in both \
         directions without duplicating the triple.\n\
         \n\
         ## Automations\n\
         A `foundation:automation_Process` is a BPMN-like flow. Each node is a \
         `foundation:automation_FlowNode` connected to the process via `foundation:partOfProcess` \
         and to its neighbors via `foundation:flowTo`. The executor dispatches each node to the \
         corresponding handler based on its `rdf:type`.\n\
         \n\
         ### Registered events\n\
         ";

/// The text between the event list and the task list.
pub const ARCHITECTURE_TASKS: &'static str = "\n\
         \n\
         ### Registered task types\n\
         ";

/// The text between the task list and the gateway list.
pub const ARCHITECTURE_GATEWAYS: &'static str = "\n\
         \n\
         ### Gateways\n\
         ";

/// The text after the gateway list.
pub const ARCHITECTURE_OUTRO: &'static str = "\n\
         \n\
         For a task/process to run, it needs `foundation:scheduledAt` in the future or \
         `foundation:hasStatus = foundation:InProgress`. Without that it stays pending.\n\
         \n\
         ## Blackboard\n\
         The blackboard is the visual widget panel. There is one blackboard per conversation, and \
         a default blackboard (`foundation:DefaultBlackboard`) used when the internal chat \
         is not active. Each widget renders a graph entity using a \
         `foundation:WidgetType`. You add widgets via \
         `add_widget_to_blackboard(entity_iri, widget_type, blackboard_iri?)` — `blackboard_iri` \
         is optional: if omitted, it uses the active conversation's blackboard. The list of available \
         widgets appears later in this prompt in the \"AI-creatable widgets\" section.";

/// A registered subclass: IRI, label and optional description.
pub type SubclassEntry = (String, String, Option<String>);

/// A descendant class as the graph gives it: IRI, optional label, optional
/// comment.
pub type DescendantEntry = (String, Option<String>, Option<String>);

/// `a` sorts no later than `b` by label.
pub open spec fn label_le(a: Seq<char>, b: Seq<char>) -> bool {
    !key_lt(b, a)
}

/// Stable insertion of `e` after every entry whose label is not greater.
pub open spec fn insert_by_label(s: Seq<(Seq<char>, Seq<char>, Option<Seq<char>>)>, e: (Seq<char>, Seq<char>, Option<Seq<char>>)) -> Seq<(Seq<char>, Seq<char>, Option<Seq<char>>)>
    decreases s.len(),
{
    if s.len() == 0 {
        seq![e]
    } else if label_le(s.last().1, e.1) {
        s.push(e)
    } else {
        insert_by_label(s.drop_last(), e).push(s.last())
    }
}

/// The entries stably sorted by label (`sort_by(|a, b| a.1.cmp(&b.1))`).
pub open spec fn sort_by_label(s: Seq<(Seq<char>, Seq<char>, Option<Seq<char>>)>) -> Seq<(Seq<char>, Seq<char>, Option<Seq<char>>)>
    decreases s.len(),
{
    if s.len() == 0 {
        Seq::empty()
    } else {
        insert_by_label(sort_by_label(s.drop_last()), s.last())
    }
}

/// A descendant as listed: its label, or its IRI when it has none; its
/// comment only when not blank.
pub open spec fn listed_entry(d: (Seq<char>, Option<Seq<char>>, Option<Seq<char>>)) -> (Seq<char>, Seq<char>, Option<Seq<char>>) {
    (
        d.0,
        match d.1 {
            Some(l) => l,
            None => d.0,
        },
        match d.2 {
            Some(c) => if trim(c).len() > 0 {
                Some(c)
            } else {
                None
            },
            None => None,
        },
    )
}

pub open spec fn descendant_view(d: DescendantEntry) -> (Seq<char>, Option<Seq<char>>, Option<Seq<char>>) {
    (
        d.0@,
        match d.1 {
            Some(l) => Some(l@),
            None => None,
        },
        match d.2 {
            Some(c) => Some(c@),
            None => None,
        },
    )
}

pub open spec fn entry_view(e: SubclassEntry) -> (Seq<char>, Seq<char>, Option<Seq<char>>) {
    (
        e.0@,
        e.1@,
        match e.2 {
            Some(c) => Some(c@),
            None => None,
        },
    )
}

/// The descendants other than the root itself, as listed.
pub open spec fn listed_entries(root: Seq<char>, ds: Seq<(Seq<char>, Option<Seq<char>>, Option<Seq<char>>)>) -> Seq<(Seq<char>, Seq<char>, Option<Seq<char>>)>
    decreases ds.len(),
{
    if ds.len() == 0 {
        Seq::empty()
    } else if ds.last().0 == root {
        listed_entries(root, ds.drop_last())
    } else {
        listed_entries(root, ds.drop_last()).push(listed_entry(ds.last()))
    }
}

/// `list_subclasses_of`: the descendants of `root` found in the graph, the
/// root excluded, stably sorted by label.
pub open spec fn subclasses_spec(root: Seq<char>, ds: Seq<DescendantEntry>) -> Seq<(Seq<char>, Seq<char>, Option<Seq<char>>)> {
    sort_by_label(listed_entries(root, ds.map_values(|d: DescendantEntry| descendant_view(d))))
}

/// One line of a list: `` - `iri` (label) — comment ``.
pub open spec fn list_line(e: (Seq<char>, Seq<char>, Option<Seq<char>>)) -> Seq<char> {
    match e.2 {
        Some(c) => "- `"@ + e.0 + "` ("@ + e.1 + ") — "@ + c,
        None => "- `"@ + e.0 + "` ("@ + e.1 + ")"@,
    }
}

/// `render_list`: the lines of the entries, or `_message_` when there are none.
pub open spec fn render_list_spec(items: Seq<(Seq<char>, Seq<char>, Option<Seq<char>>)>, empty_msg: Seq<char>) -> Seq<char> {
    if items.len() == 0 {
        "_"@ + empty_msg + "_"@
    } else {
        join(items.map_values(|e: (Seq<char>, Seq<char>, Option<Seq<char>>)| list_line(e)), "\n"@)
    }
}

/// The architecture section around the three rendered lists.
pub open spec fn architecture_spec(event_list: Seq<char>, task_list: Seq<char>, gateway_list: Seq<char>) -> Seq<char> {
    ARCHITECTURE_INTRO@ + event_list + ARCHITECTURE_TASKS@ + task_list + ARCHITECTURE_GATEWAYS@ + gateway_list
        + ARCHITECTURE_OUTRO@
}

pub proof fn lemma_insert_at(
    s: Seq<(Seq<char>, Seq<char>, Option<Seq<char>>)>,
    e: (Seq<char>, Seq<char>, Option<Seq<char>>),
    k: int,
)
    requires
        0 <= k <= s.len(),
        k == 0 || label_le(s[k - 1].1, e.1),
        forall|j: int| k <= j < s.len() ==> !label_le(#[trigger] s[j].1, e.1),
    ensures
        insert_by_label(s, e) == s.take(k).push(e) + s.skip(k),
    decreases s.len(),
{
    if s.len() == k {
        assert(s.take(k) =~= s);
        assert(s.skip(k) =~= Seq::<(Seq<char>, Seq<char>, Option<Seq<char>>)>::empty());
        if k == 0 {
            assert(s.take(k).push(e) + s.skip(k) =~= seq![e]);
        } else {
            assert(s.take(k).push(e) + s.skip(k) =~= s.push(e));
        }
    } else {
        let d = s.drop_last();
        assert(!label_le(s[s.len() - 1].1, e.1));
        assert forall|j: int| k <= j < d.len() implies !label_le(#[trigger] d[j].1, e.1) by {
            assert(d[j] == s[j]);
        }
        if k > 0 {
            assert(d[k - 1] == s[k - 1]);
        }
        lemma_insert_at(d, e, k);
        assert(d.take(k) =~= s.take(k));
        assert((d.take(k).push(e) + d.skip(k)).push(s.last()) =~= s.take(k).push(e) + s.skip(k));
    }
}

fn entry_label_le(a: &Vec<char>, b: &Vec<char>) -> (r: bool)
    ensures
        r == label_le(a@, b@),
{
    !key_less(b, a)
}

/// Inserts `e` into the label-sorted `v` after every entry whose label is
/// not greater.
fn insert_sorted(v: &mut Vec<SubclassEntry>, e: SubclassEntry)
    ensures
        final(v)@.map_values(|x: SubclassEntry| entry_view(x)) == insert_by_label(
            old(v)@.map_values(|x: SubclassEntry| entry_view(x)),
            entry_view(e),
        ),
{
    let ghost sv = v@.map_values(|x: SubclassEntry| entry_view(x));
    let el = chars_of(e.1.as_str());
    let mut k = v.len();
    while k > 0 && !entry_label_le(&chars_of(v[k - 1].1.as_str()), &el)
        invariant
            k <= v@.len(),
            v@ == old(v)@,
            sv == v@.map_values(|x: SubclassEntry| entry_view(x)),
            el@ == e.1@,
            forall|j: int| k <= j < sv.len() ==> !label_le(#[trigger] sv[j].1, e.1@),
        decreases k,
    {
        k = k - 1;
    }
    proof {
        lemma_insert_at(sv, entry_view(e), k as int);
    }
    let ghost ev = entry_view(e);
    v.insert(k, e);
    assert(v@.map_values(|x: SubclassEntry| entry_view(x)) =~= sv.take(k as int).push(ev) + sv.skip(k as int));
}

fn listed_entry_of(d: &DescendantEntry) -> (r: SubclassEntry)
    ensures
        entry_view(r) == listed_entry(descendant_view(*d)),
{
    let label = match &d.1 {
        Some(l) => copy_string(l),
        None => copy_string(&d.0),
    };
    let comment = match &d.2 {
        Some(c) => if trim_chars(&chars_of(c.as_str())).len() > 0 {
            Some(copy_string(c))
        } else {
            None
        },
        None => None,
    };
    (copy_string(&d.0), label, comment)
}

/// The registered subclasses of `root` among its descendants found in the
/// graph: the root itself excluded, each labelled by its label (or IRI) with
/// its non-blank comment, stably sorted by label.
pub fn list_subclasses_of(root_iri: &str, found: &[DescendantEntry]) -> (r: Vec<SubclassEntry>)
    ensures
        r@.map_values(|x: SubclassEntry| entry_view(x)) == subclasses_spec(root_iri@, found@),
{
    let ghost dv = found@.map_values(|d: DescendantEntry| descendant_view(d));
    let mut out: Vec<SubclassEntry> = Vec::new();
    let mut i: usize = 0;
    assert(out@.map_values(|x: SubclassEntry| entry_view(x)) =~= sort_by_label(listed_entries(root_iri@, dv.take(0))));
    while i < found.len()
        invariant
            i <= found@.len(),
            dv == found@.map_values(|d: DescendantEntry| descendant_view(d)),
            out@.map_values(|x: SubclassEntry| entry_view(x)) == sort_by_label(listed_entries(root_iri@, dv.take(i as int))),
        decreases found.len() - i,
    {
        assert(dv.take(i + 1).drop_last() =~= dv.take(i as int));
        assert(dv.take(i + 1).last() == descendant_view(found@[i as int]));
        let ghost l = listed_entries(root_iri@, dv.take(i as int));
        if !str_eq(found[i].0.as_str(), root_iri) {
            let e = listed_entry_of(&found[i]);
            proof {
                let x = listed_entry(dv[i as int]);
                assert(listed_entries(root_iri@, dv.take(i + 1)) == l.push(x));
                assert(l.push(x).drop_last() =~= l);
                assert(sort_by_label(l.push(x)) == insert_by_label(sort_by_label(l), x));
            }
            insert_sorted(&mut out, e);
        } else {
            assert(listed_entries(root_iri@, dv.take(i + 1)) == l);
        }
        i = i + 1;
    }
    assert(dv.take(dv.len() as int) =~= dv);
    out
}

fn list_line_of(e: &SubclassEntry) -> (r: String)
    ensures
        r@ == list_line(entry_view(*e)),
{
    let mut v = chars_of("- `");
    push_all(&mut v, &chars_of(e.0.as_str()));
    push_all(&mut v, &chars_of("` ("));
    push_all(&mut v, &chars_of(e.1.as_str()));
    match &e.2 {
        Some(c) => {
            push_all(&mut v, &chars_of(") — "));
            push_all(&mut v, &chars_of(c.as_str()));
        },
        None => {
            push_all(&mut v, &chars_of(")"));
        },
    }
    string_of(&v)
}

/// Renders the entries one per line, or `_message_` when there are none.
pub fn render_list(items: &[SubclassEntry], empty_msg: &str) -> (r: String)
    ensures
        r@ == render_list_spec(items@.map_values(|x: SubclassEntry| entry_view(x)), empty_msg@),
{
    let ghost iv = items@.map_values(|x: SubclassEntry| entry_view(x));
    if items.len() == 0 {
        let mut v = chars_of("_");
        push_all(&mut v, &chars_of(empty_msg));
        push_all(&mut v, &chars_of("_"));
        return string_of(&v);
    }
    let mut lines: Vec<String> = Vec::new();
    let mut i: usize = 0;
    while i < items.len()
        invariant
            i <= items@.len(),
            iv == items@.map_values(|x: SubclassEntry| entry_view(x)),
            strings_view(lines@) == iv.take(i as int).map_values(|e: (Seq<char>, Seq<char>, Option<Seq<char>>)| list_line(e)),
        decreases items.len() - i,
    {
        let ghost prev = strings_view(lines@);
        lines.push(list_line_of(&items[i]));
        assert(strings_view(lines@) =~= prev.push(list_line(iv[i as int])));
        assert(iv.take(i + 1) =~= iv.take(i as int).push(iv[i as int]));
        i = i + 1;
    }
    assert(iv.take(iv.len() as int) =~= iv);
    join_strings(&lines, "\n")
}

/// The system-architecture section of the prompt, listing the registered
/// event, task and gateway types among the descendants found for each
/// automation root.
pub fn foundation_architecture_context(
    task_found: &[DescendantEntry],
    event_found: &[DescendantEntry],
    gateway_found: &[DescendantEntry],
) -> (r: String)
    ensures
        r@ == architecture_spec(
            render_list_spec(subclasses_spec(AUTOMATION_EVENT_ROOT@, event_found@), "no event types registered"@),
            render_list_spec(subclasses_spec(AUTOMATION_TASK_ROOT@, task_found@), "no task types registered"@),
            render_list_spec(subclasses_spec(AUTOMATION_GATEWAY_ROOT@, gateway_found@), "no gateway types registered"@),
        ),
{
    let task_types = list_subclasses_of(AUTOMATION_TASK_ROOT, task_found);
    let event_types = list_subclasses_of(AUTOMATION_EVENT_ROOT, event_found);
    let gateway_types = list_subclasses_of(AUTOMATION_GATEWAY_ROOT, gateway_found);
    let task_list = render_list(task_types.as_slice(), "no task types registered");
    let event_list = render_list(event_types.as_slice(), "no event types registered");
    let gateway_list = render_list(gateway_types.as_slice(), "no gateway types registered");
    let mut v = chars_of(ARCHITECTURE_INTRO);
    push_all(&mut v, &chars_of(event_list.as_str()));
    push_all(&mut v, &chars_of(ARCHITECTURE_TASKS));
    push_all(&mut v, &chars_of(task_list.as_str()));
    push_all(&mut v, &chars_of(ARCHITECTURE_GATEWAYS));
    push_all(&mut v, &chars_of(gateway_list.as_str()));
    push_all(&mut v, &chars_of(ARCHITECTURE_OUTRO));
    string_of(&v)
}

/// A widget on the user's blackboard, with its entity and the entity's
/// class, each by IRI and label.
#[derive(Debug)]
pub struct BlackboardWidget {
    pub widget_type: String,
    pub class_iri: String,
    pub class_label: String,
    pub entity_iri: String,
    pub entity_label: String,
}

/// The heading of the blackboard context.
pub const BLACKBOARD_HEAD: &'static str = "## Blackboard\nThe user is currently viewing the following widgets:\n";

pub open spec fn widget_line(w: BlackboardWidget) -> Seq<char> {
    "- widget_type="@ + w.widget_type@ + ", class_iri="@ + w.class_iri@ + ", class_name="@ + w.class_label@
        + ", instance_iri="@ + w.entity_iri@ + ", instance_name="@ + w.entity_label@
}

/// What the model is told of the blackboard: one line per widget; nothing
/// when no widget is shown.
pub open spec fn blackboard_spec(ws: Seq<BlackboardWidget>) -> Option<Seq<char>> {
    if ws.len() == 0 {
        None
    } else {
        Some(BLACKBOARD_HEAD@ + crate::text::join(ws.map_values(|w: BlackboardWidget| widget_line(w)), "\n"@))
    }
}

/// The blackboard context of a turn (see [`blackboard_spec`]).
pub fn blackboard_context(widgets: &[BlackboardWidget]) -> (r: Option<String>)
    ensures
        match r {
            Some(t) => blackboard_spec(widgets@) == Some(t@),
            None => blackboard_spec(widgets@) is None,
        },
{
    if widgets.len() == 0 {
        return None;
    }
    let mut lines: Vec<String> = Vec::new();
    let mut i: usize = 0;
    while i < widgets.len()
        invariant
            i <= widgets@.len(),
            lines@.len() == i,
            forall|k: int| 0 <= k < i ==> #[trigger] lines@[k]@ == widget_line(widgets@[k]),
        decreases widgets.len() - i,
    {
        let w = &widgets[i];
        let parts = vec![
            crate::text::to_owned_string("- widget_type="),
            copy_string(&w.widget_type),
            crate::text::to_owned_string(", class_iri="),
            copy_string(&w.class_iri),
            crate::text::to_owned_string(", class_name="),
            copy_string(&w.class_label),
            crate::text::to_owned_string(", instance_iri="),
            copy_string(&w.entity_iri),
            crate::text::to_owned_string(", instance_name="),
            copy_string(&w.entity_label),
        ];
        let line = crate::text::concat_strings(&parts);
        proof {
            let sv = crate::text::strings_view(parts@);
            assert(sv.len() == 10);
            reveal_with_fuel(crate::text::concat_all, 11);
            assert(crate::text::concat_all(sv) =~= widget_line(widgets@[i as int]));
        }
        lines.push(line);
        i = i + 1;
    }
    assert(crate::text::strings_view(lines@) =~= widgets@.map_values(|w: BlackboardWidget| widget_line(w)));
    let body = crate::text::join_strings(&lines, "\n");
    Some(crate::text::str_concat(BLACKBOARD_HEAD, body.as_str()))
}

} // verus!
