//! Process models: reading a LogicFlow JSON document into nodes and edges, and walking them.

use vstd::prelude::*;
use crate::error::{error_message, JeeflowError, JeeflowResult};
use crate::json::{
    entry_lookup, jview, jview_as_i64, jview_entries, jview_list, last_lookup, lemma_jview_list, FlowData,
    JView, JsonValue,
};
use crate::json_parse::{json_read, parse_json};
use crate::model::opt_view;
use crate::text::{owned, push_str, starts_with, str_eq, to_upper, trim, upper_text};

verus! {

// ═══════════════════════ JSON access in specs ═══════════════════════

/// Field `k` of an object (the first entry with that key); `None` for anything else.
pub open spec fn jfield(v: JView, k: Seq<char>) -> Option<JView> {
    match v {
        JView::Object(es) => entry_lookup(es, k),
        _ => None,
    }
}

/// String field `k` of an object.
pub open spec fn jstr(v: JView, k: Seq<char>) -> Option<Seq<char>> {
    match jfield(v, k) {
        Some(JView::Str(t)) => Some(t),
        _ => None,
    }
}

pub open spec fn or_text(o: Option<Seq<char>>, d: Seq<char>) -> Seq<char> {
    match o {
        Some(t) => t,
        None => d,
    }
}

/// `text.value` of a node or edge.
pub open spec fn text_value(v: JView) -> Option<Seq<char>> {
    match jfield(v, "text"@) {
        Some(t) => jstr(t, "value"@),
        None => None,
    }
}

/// The entries of the `properties` object (none when absent or not an object).
pub open spec fn props_of(v: JView) -> Seq<(Seq<char>, JView)> {
    match jfield(v, "properties"@) {
        Some(JView::Object(es)) => es,
        _ => Seq::empty(),
    }
}

/// The items of array field `k` (none when absent or not an array).
pub open spec fn items_of(v: JView, k: Seq<char>) -> Seq<JView> {
    match jfield(v, k) {
        Some(JView::Array(items)) => items,
        _ => Seq::empty(),
    }
}

// ═══════════════════════ node types ═══════════════════════

#[derive(Debug, Clone, Copy, PartialEq, Eq, Structural)]
pub enum NodeType {
    Start,
    Task,
    Decision,
    Fork,
    Join,
    End,
    Custom,
    SubProcess,
}

pub open spec fn node_type_of(t: Seq<char>) -> NodeType {
    if t == "snaker:start"@ {
        NodeType::Start
    } else if t == "snaker:task"@ {
        NodeType::Task
    } else if t == "snaker:decision"@ {
        NodeType::Decision
    } else if t == "snaker:fork"@ {
        NodeType::Fork
    } else if t == "snaker:join"@ {
        NodeType::Join
    } else if t == "snaker:end"@ {
        NodeType::End
    } else if t == "snaker:subprocess"@ {
        NodeType::SubProcess
    } else {
        NodeType::Custom
    }
}

pub open spec fn node_type_name(t: NodeType) -> Seq<char> {
    match t {
        NodeType::Start => "start"@,
        NodeType::Task => "task"@,
        NodeType::Decision => "decision"@,
        NodeType::Fork => "fork"@,
        NodeType::Join => "join"@,
        NodeType::End => "end"@,
        NodeType::Custom => "custom"@,
        NodeType::SubProcess => "subprocess"@,
    }
}

impl NodeType {
    /// The node type of a LogicFlow `snaker:*` type name; anything unknown is a custom node.
    pub fn from_snaker_type(t: &str) -> (r: NodeType)
        ensures
            r == node_type_of(t@),
    {
        if str_eq(t, "snaker:start") {
            NodeType::Start
        } else if str_eq(t, "snaker:task") {
            NodeType::Task
        } else if str_eq(t, "snaker:decision") {
            NodeType::Decision
        } else if str_eq(t, "snaker:fork") {
            NodeType::Fork
        } else if str_eq(t, "snaker:join") {
            NodeType::Join
        } else if str_eq(t, "snaker:end") {
            NodeType::End
        } else if str_eq(t, "snaker:subprocess") {
            NodeType::SubProcess
        } else {
            NodeType::Custom
        }
    }

    pub fn as_str(&self) -> (r: &'static str)
        ensures
            r@ == node_type_name(*self),
    {
        match self {
            NodeType::Start => "start",
            NodeType::Task => "task",
            NodeType::Decision => "decision",
            NodeType::Fork => "fork",
            NodeType::Join => "join",
            NodeType::End => "end",
            NodeType::Custom => "custom",
            NodeType::SubProcess => "subprocess",
        }
    }
}

// ═══════════════════════ nodes and edges ═══════════════════════

pub struct NodeModel {
    pub id: String,
    pub node_type: NodeType,
    pub display_name: String,
    pub properties: FlowData,
}

pub struct EdgeModel {
    pub id: String,
    pub source_node_id: String,
    pub target_node_id: String,
    pub label: Option<String>,
    pub properties: FlowData,
}

/// String property `k`.
pub open spec fn prop_text(p: FlowData, k: Seq<char>) -> Option<Seq<char>> {
    match p.lookup(k) {
        Some(JView::Str(t)) => Some(t),
        _ => None,
    }
}

/// Integer property `k` (numbers, and strings that read as integers).
pub open spec fn prop_int(p: FlowData, k: Seq<char>) -> Option<i64> {
    match p.lookup(k) {
        Some(v) => jview_as_i64(v),
        None => None,
    }
}

/// `performType`: `1` (as a number or text) is countersign, and so are `ALL` and `COUNTERSIGN`
/// in any case; anything else is normal (`0`).
pub open spec fn perform_type_of(p: FlowData) -> i32 {
    match prop_int(p, "performType"@) {
        Some(n) => if n == 1 { 1 } else { 0 },
        None => match prop_text(p, "performType"@) {
            Some(s) => {
                let u = upper_text(s);
                if u == "1"@ || u == "ALL"@ || u == "COUNTERSIGN"@ { 1 } else { 0 }
            },
            None => 0,
        },
    }
}

/// A node whose `performType` is a text (not an integer) that reads `ALL` or `COUNTERSIGN` in
/// any case is a countersign node, as one whose `performType` is 1 (number or text); any other
/// text, and any other number, make a normal node.
pub proof fn law_perform_type(p: FlowData, s: Seq<char>, n: i64)
    ensures
        (p.lookup("performType"@) == Some(JView::Str(s)) && jview_as_i64(JView::Str(s)) is None
            && (upper_text(s) == "ALL"@ || upper_text(s) == "COUNTERSIGN"@)) ==> perform_type_of(p) == 1,
        (p.lookup("performType"@) == Some(JView::Str(s)) && jview_as_i64(JView::Str(s)) is None
            && upper_text(s) != "ALL"@ && upper_text(s) != "COUNTERSIGN"@ && upper_text(s) != "1"@) ==> perform_type_of(p) == 0,
        (p.lookup("performType"@) is Some && jview_as_i64(p.lookup("performType"@).unwrap()) == Some(n))
            ==> perform_type_of(p) == (if n == 1 { 1i32 } else { 0i32 }),
        p.lookup("performType"@) is None ==> perform_type_of(p) == 0,
{
}

/// The `PERMISSION_*` properties that hold integers, in property order, each as `i32`.
pub open spec fn permissions_of(es: Seq<(Seq<char>, JView)>) -> Seq<(Seq<char>, i32)>
    decreases es.len(),
{
    if es.len() == 0 {
        Seq::empty()
    } else {
        let prev = permissions_of(es.drop_last());
        let (k, v) = es.last();
        if starts_with(k, "PERMISSION_"@) && jview_as_i64(v) is Some {
            prev.push((k, jview_as_i64(v).unwrap() as i32))
        } else {
            prev
        }
    }
}

impl NodeModel {
    /// String property.
    pub fn prop_str(&self, key: &str) -> (r: Option<String>)
        ensures
            opt_view(r) == prop_text(self.properties, key@),
    {
        match self.properties.get_str(key) {
            Some(s) => Some(owned(s)),
            None => None,
        }
    }

    /// Integer property.
    pub fn prop_i64(&self, key: &str) -> (r: Option<i64>)
        ensures
            r == prop_int(self.properties, key@),
    {
        self.properties.get_i64(key)
    }

    /// Fixed participant.
    pub fn assignee(&self) -> (r: Option<String>)
        ensures
            opt_view(r) == prop_text(self.properties, "assignee"@),
    {
        self.prop_str("assignee")
    }

    /// Dynamic participant: the registration name of an assignment handler.
    pub fn assignment_handler(&self) -> (r: Option<String>)
        ensures
            opt_view(r) == prop_text(self.properties, "assignmentHandler"@),
    {
        self.prop_str("assignmentHandler")
    }

    /// Perform type: `1` countersign, `0` normal.
    pub fn perform_type(&self) -> (r: i32)
        ensures
            r == perform_type_of(self.properties),
    {
        match self.prop_i64("performType") {
            Some(n) => {
                if n == 1 {
                    1
                } else {
                    0
                }
            },
            None => match self.prop_str("performType") {
                Some(s) => {
                    let u = to_upper(s.as_str());
                    let u = u.as_str();
                    if str_eq(u, "1") || str_eq(u, "ALL") || str_eq(u, "COUNTERSIGN") {
                        1
                    } else {
                        0
                    }
                },
                None => 0,
            },
        }
    }

    /// Task type (`taskType`, `0` when absent), cut to `i32`.
    pub fn task_type(&self) -> (r: i32)
        ensures
            r == (match prop_int(self.properties, "taskType"@) {
                Some(n) => n as i32,
                None => 0i32,
            }),
    {
        match self.prop_i64("taskType") {
            Some(n) => n as i32,
            None => 0,
        }
    }

    /// Countersign type (`PARALLEL` when absent).
    pub fn countersign_type(&self) -> (r: String)
        ensures
            r@ == or_text(prop_text(self.properties, "countersignType"@), "PARALLEL"@),
    {
        match self.prop_str("countersignType") {
            Some(s) => s,
            None => owned("PARALLEL"),
        }
    }

    pub fn expr(&self) -> (r: Option<String>)
        ensures
            opt_view(r) == prop_text(self.properties, "expr"@),
    {
        self.prop_str("expr")
    }

    pub fn form_key(&self) -> (r: Option<String>)
        ensures
            opt_view(r) == prop_text(self.properties, "form"@),
    {
        self.prop_str("form")
    }

    /// Candidate users, comma-separated.
    pub fn candidate_users(&self) -> (r: Option<String>)
        ensures
            opt_view(r) == prop_text(self.properties, "candidateUsers"@),
    {
        self.prop_str("candidateUsers")
    }

    /// Candidate groups, comma-separated.
    pub fn candidate_groups(&self) -> (r: Option<String>)
        ensures
            opt_view(r) == prop_text(self.properties, "candidateGroups"@),
    {
        self.prop_str("candidateGroups")
    }

    /// Field permissions: each `PERMISSION_*` property with an integer value.
    pub fn field_permissions(&self) -> (r: Vec<(String, i32)>)
        ensures
            r@.map_values(|p: (String, i32)| (p.0@, p.1)) == permissions_of(self.properties.kv()),
    {
        let es = self.properties.entries();
        let ghost kv = jview_entries(es@);
        proof {
            crate::json::lemma_jview_entries(es@);
        }
        let mut out: Vec<(String, i32)> = Vec::new();
        let mut i: usize = 0;
        while i < es.len()
            invariant
                0 <= i <= es.len(),
                kv == jview_entries(es@),
                kv == self.properties.kv(),
                kv.len() == es@.len(),
                forall|j: int| 0 <= j < es@.len() ==> #[trigger] kv[j] == (es@[j].0@, jview(es@[j].1)),
                out@.map_values(|p: (String, i32)| (p.0@, p.1)) == permissions_of(kv.take(i as int)),
            decreases es.len() - i,
        {
            let (k, v) = &es[i];
            assert(kv.take(i + 1).drop_last() =~= kv.take(i as int));
            assert(kv.take(i + 1).last() == (k@, jview(*v)));
            if crate::text::has_prefix(k.as_str(), "PERMISSION_") {
                match v.as_i64() {
                    Some(n) => {
                        let ghost before = out@;
                        out.push((k.clone(), n as i32));
                        assert(out@.map_values(|p: (String, i32)| (p.0@, p.1)) =~= before.map_values(
                            |p: (String, i32)| (p.0@, p.1),
                        ).push((k@, n as i32)));
                    },
                    None => {},
                }
            }
            i = i + 1;
        }
        assert(kv.take(es.len() as int) =~= kv);
        out
    }

    /// Name of the define a sub-process node starts.
    pub fn sub_process_name(&self) -> (r: Option<String>)
        ensures
            opt_view(r) == prop_text(self.properties, "subProcessName"@),
    {
        self.prop_str("subProcessName")
    }

    /// The completion condition of a countersign node (`countersignCompletionCondition`).
    pub fn countersign_completion_condition(&self) -> (r: Option<String>)
        ensures
            opt_view(r) == prop_text(self.properties, "countersignCompletionCondition"@),
    {
        self.prop_str("countersignCompletionCondition")
    }

    /// A copy of the node.
    pub fn dup(&self) -> (r: NodeModel)
        ensures
            r.id@ == self.id@,
            r.node_type == self.node_type,
            r.display_name@ == self.display_name@,
            r.properties.kv() == self.properties.kv(),
    {
        NodeModel {
            id: self.id.clone(),
            node_type: self.node_type,
            display_name: self.display_name.clone(),
            properties: self.properties.dup(),
        }
    }

    pub fn is_countersign(&self) -> (r: bool)
        ensures
            r == (perform_type_of(self.properties) == 1),
    {
        self.perform_type() == 1
    }
}

impl EdgeModel {
    /// The branch expression of a decision edge.
    pub fn expr(&self) -> (r: Option<String>)
        ensures
            opt_view(r) == prop_text(self.properties, "expr"@),
    {
        match self.properties.get_str("expr") {
            Some(s) => Some(owned(s)),
            None => None,
        }
    }
}

// ═══════════════════════ the model ═══════════════════════

pub struct ProcessModel {
    pub name: String,
    pub display_name: String,
    pub model_type: String,
    pub expire_time: Option<String>,
    /// `ARCHIVE` or `SYNC`.
    pub persist_mode: Option<String>,
    pub rel_table_name: Option<String>,
    pub nodes: Vec<NodeModel>,
    pub edges: Vec<EdgeModel>,
}

/// A node as the document describes it.
pub open spec fn node_matches(n: NodeModel, v: JView) -> bool {
    &&& n.id@ == or_text(jstr(v, "id"@), Seq::empty())
    &&& n.node_type == node_type_of(or_text(jstr(v, "type"@), "snaker:task"@))
    &&& n.display_name@ == or_text(
        match text_value(v) {
            Some(t) => Some(t),
            None => jstr(v, "displayName"@),
        },
        Seq::empty(),
    )
    &&& forall|q: Seq<char>| #[trigger] n.properties.lookup(q) == last_lookup(props_of(v), q)
}

/// An edge as the document describes it.
pub open spec fn edge_matches(e: EdgeModel, v: JView) -> bool {
    &&& e.id@ == or_text(jstr(v, "id"@), Seq::empty())
    &&& e.source_node_id@ == or_text(jstr(v, "sourceNodeId"@), Seq::empty())
    &&& e.target_node_id@ == or_text(jstr(v, "targetNodeId"@), Seq::empty())
    &&& opt_view(e.label) == text_value(v)
    &&& forall|q: Seq<char>| #[trigger] e.properties.lookup(q) == last_lookup(props_of(v), q)
}

/// The model a JSON document describes; absent fields take their defaults (name `unknown`,
/// display name the name, type `approval`, node type `snaker:task`, empty texts).
pub open spec fn model_matches(m: ProcessModel, root: JView) -> bool {
    let name = or_text(jstr(root, "name"@), "unknown"@);
    &&& m.name@ == name
    &&& m.display_name@ == or_text(jstr(root, "displayName"@), name)
    &&& m.model_type@ == or_text(jstr(root, "type"@), "approval"@)
    &&& opt_view(m.expire_time) == jstr(root, "expireTime"@)
    &&& opt_view(m.persist_mode) == jstr(root, "persistMode"@)
    &&& opt_view(m.rel_table_name) == match jstr(root, "relTableName"@) {
        Some(t) => Some(t),
        None => jstr(root, "name"@),
    }
    &&& m.nodes@.len() == items_of(root, "nodes"@).len()
    &&& forall|i: int| 0 <= i < m.nodes@.len() ==> #[trigger] node_matches(m.nodes@[i], items_of(root, "nodes"@)[i])
    &&& m.edges@.len() == items_of(root, "edges"@).len()
    &&& forall|i: int| 0 <= i < m.edges@.len() ==> #[trigger] edge_matches(m.edges@[i], items_of(root, "edges"@)[i])
}

fn str_or(o: Option<&str>, d: &str) -> (r: String)
    ensures
        r@ == match o {
            Some(s) => s@,
            None => d@,
        },
{
    match o {
        Some(s) => owned(s),
        None => owned(d),
    }
}

fn opt_string(o: Option<&str>) -> (r: Option<String>)
    ensures
        opt_view(r) == match o {
            Some(s) => Some(s@),
            None => None::<Seq<char>>,
        },
{
    match o {
        Some(s) => Some(owned(s)),
        None => None,
    }
}

fn props_flow(v: &JsonValue) -> (r: FlowData)
    ensures
        forall|q: Seq<char>| #[trigger] r.lookup(q) == last_lookup(props_of(jview(*v)), q),
{
    match v.get("properties") {
        Some(p) => match p.as_object() {
            Some(es) => FlowData::from_pairs(es),
            None => {
                let r = FlowData::new();
                assert forall|q: Seq<char>| #[trigger] r.lookup(q) == last_lookup(props_of(jview(*v)), q) by {
                    crate::json::lemma_entry_lookup_none(Seq::<(Seq<char>, JView)>::empty(), q);
                }
                r
            },
        },
        None => {
            let r = FlowData::new();
            assert forall|q: Seq<char>| #[trigger] r.lookup(q) == last_lookup(props_of(jview(*v)), q) by {
                crate::json::lemma_entry_lookup_none(Seq::<(Seq<char>, JView)>::empty(), q);
            }
            r
        },
    }
}

fn text_value_of(v: &JsonValue) -> (r: Option<&str>)
    ensures
        match r {
            Some(s) => text_value(jview(*v)) == Some(s@),
            None => text_value(jview(*v)) is None,
        },
{
    match v.get("text") {
        Some(t) => t.get_str("value"),
        None => None,
    }
}

fn parse_node(v: &JsonValue) -> (r: NodeModel)
    ensures
        node_matches(r, jview(*v)),
{
    let id = str_or(v.get_str("id"), "");
    let raw = match v.get_str("type") {
        Some(t) => t,
        None => "snaker:task",
    };
    let node_type = NodeType::from_snaker_type(raw);
    let display = match text_value_of(v) {
        Some(t) => Some(t),
        None => v.get_str("displayName"),
    };
    let display_name = str_or(display, "");
    let properties = props_flow(v);
    proof {
        reveal_strlit("");
    }
    let r = NodeModel { id, node_type, display_name, properties };
    assert(r.id@ == or_text(jstr(jview(*v), "id"@), Seq::empty()));
    assert(r.node_type == node_type_of(or_text(jstr(jview(*v), "type"@), "snaker:task"@)));
    assert(r.display_name@ == or_text(
        match text_value(jview(*v)) {
            Some(t) => Some(t),
            None => jstr(jview(*v), "displayName"@),
        },
        Seq::empty(),
    ));
    assert(forall|q: Seq<char>| #[trigger] r.properties.lookup(q) == last_lookup(props_of(jview(*v)), q));
    r
}

fn parse_edge(v: &JsonValue) -> (r: EdgeModel)
    ensures
        edge_matches(r, jview(*v)),
{
    let id = str_or(v.get_str("id"), "");
    let source_node_id = str_or(v.get_str("sourceNodeId"), "");
    let target_node_id = str_or(v.get_str("targetNodeId"), "");
    let label = opt_string(text_value_of(v));
    let properties = props_flow(v);
    proof {
        reveal_strlit("");
    }
    let r = EdgeModel { id, source_node_id, target_node_id, label, properties };
    assert(r.id@ == or_text(jstr(jview(*v), "id"@), Seq::empty()));
    assert(r.source_node_id@ == or_text(jstr(jview(*v), "sourceNodeId"@), Seq::empty()));
    assert(r.target_node_id@ == or_text(jstr(jview(*v), "targetNodeId"@), Seq::empty()));
    assert(opt_view(r.label) == text_value(jview(*v)));
    assert(forall|q: Seq<char>| #[trigger] r.properties.lookup(q) == last_lookup(props_of(jview(*v)), q));
    r
}

fn items<'a>(root: &'a JsonValue, key: &str) -> (r: Option<&'a Vec<JsonValue>>)
    ensures
        match r {
            Some(a) => jview_list(a@) == items_of(jview(*root), key@),
            None => items_of(jview(*root), key@).len() == 0,
        },
{
    match root.get(key) {
        Some(v) => v.as_array(),
        None => None,
    }
}

pub struct ModelParser;

impl ModelParser {
    /// The model a parsed document describes.
    pub fn from_value(root: &JsonValue) -> (r: ProcessModel)
        ensures
            model_matches(r, jview(*root)),
    {
        let name = str_or(root.get_str("name"), "unknown");
        let display_name = match root.get_str("displayName") {
            Some(s) => owned(s),
            None => name.clone(),
        };
        let model_type = str_or(root.get_str("type"), "approval");
        let expire_time = opt_string(root.get_str("expireTime"));
        let persist_mode = opt_string(root.get_str("persistMode"));
        let rel = match root.get_str("relTableName") {
            Some(s) => Some(s),
            None => root.get_str("name"),
        };
        let rel_table_name = opt_string(rel);
        let ghost rv = jview(*root);

        let mut nodes: Vec<NodeModel> = Vec::new();
        match items(root, "nodes") {
            Some(arr) => {
                proof {
                    lemma_jview_list(arr@);
                }
                let mut i: usize = 0;
                while i < arr.len()
                    invariant
                        0 <= i <= arr.len(),
                        jview_list(arr@) == items_of(rv, "nodes"@),
                        jview_list(arr@).len() == arr@.len(),
                        forall|j: int| 0 <= j < arr@.len() ==> #[trigger] jview_list(arr@)[j] == jview(arr@[j]),
                        nodes@.len() == i,
                        forall|j: int| 0 <= j < i ==> #[trigger] node_matches(nodes@[j], items_of(rv, "nodes"@)[j]),
                    decreases arr.len() - i,
                {
                    let n = parse_node(&arr[i]);
                    nodes.push(n);
                    assert(jview_list(arr@)[i as int] == jview(arr@[i as int]));
                    i = i + 1;
                }
            },
            None => {},
        }

        let mut edges: Vec<EdgeModel> = Vec::new();
        match items(root, "edges") {
            Some(arr) => {
                proof {
                    lemma_jview_list(arr@);
                }
                let mut i: usize = 0;
                while i < arr.len()
                    invariant
                        0 <= i <= arr.len(),
                        jview_list(arr@) == items_of(rv, "edges"@),
                        jview_list(arr@).len() == arr@.len(),
                        forall|j: int| 0 <= j < arr@.len() ==> #[trigger] jview_list(arr@)[j] == jview(arr@[j]),
                        edges@.len() == i,
                        forall|j: int| 0 <= j < i ==> #[trigger] edge_matches(edges@[j], items_of(rv, "edges"@)[j]),
                    decreases arr.len() - i,
                {
                    let e = parse_edge(&arr[i]);
                    edges.push(e);
                    assert(jview_list(arr@)[i as int] == jview(arr@[i as int]));
                    i = i + 1;
                }
            },
            None => {},
        }

        ProcessModel { name, display_name, model_type, expire_time, persist_mode, rel_table_name, nodes, edges }
    }

    /// Parse a LogicFlow JSON document into a model.
    pub fn parse(json_str: &str) -> (r: JeeflowResult<ProcessModel>)
        ensures
            match r {
                Ok(m) => json_read(json_str@) matches Some(v) && model_matches(m, v),
                Err(e) => json_read(json_str@) is None && (e matches JeeflowError::ParseError(m)
                    && starts_with(m@, "JSON parse error: "@)),
            },
            trim(json_str@).len() == 0 ==> (r matches Ok(m) && model_matches(m, JView::Null)),
    {
        match parse_json(json_str) {
            Err(e) => {
                let mut m = owned("JSON parse error: ");
                push_str(&mut m, e.as_str());
                assert(m@.take("JSON parse error: "@.len() as int) =~= "JSON parse error: "@);
                Err(JeeflowError::ParseError(m))
            },
            Ok(root) => {
                let m = Self::from_value(&root);
                assert(model_matches(m, jview(root)));
                Ok(m)
            },
        }
    }
}


// ═══════════════════════ walking the model ═══════════════════════

/// Index of the first element that satisfies `p`, or `-1`.
pub open spec fn first_where<A>(s: Seq<A>, p: spec_fn(A) -> bool) -> int
    decreases s.len(),
{
    if s.len() == 0 {
        -1
    } else {
        let r = first_where(s.drop_last(), p);
        if r >= 0 {
            r
        } else if p(s.last()) {
            s.len() - 1
        } else {
            -1
        }
    }
}

/// The elements that satisfy `p`, in order.
pub open spec fn filter_where<A>(s: Seq<A>, p: spec_fn(A) -> bool) -> Seq<A>
    decreases s.len(),
{
    if s.len() == 0 {
        Seq::empty()
    } else {
        let r = filter_where(s.drop_last(), p);
        if p(s.last()) {
            r.push(s.last())
        } else {
            r
        }
    }
}

pub proof fn lemma_first_where<A>(s: Seq<A>, p: spec_fn(A) -> bool)
    ensures
        -1 <= first_where(s, p) < s.len(),
        first_where(s, p) >= 0 ==> p(s[first_where(s, p)]) && forall|j: int| 0 <= j < first_where(s, p) ==> !p(#[trigger] s[j]),
        first_where(s, p) == -1 ==> forall|j: int| 0 <= j < s.len() ==> !p(#[trigger] s[j]),
    decreases s.len(),
{
    if s.len() > 0 {
        lemma_first_where(s.drop_last(), p);
        assert forall|j: int| 0 <= j < s.len() - 1 implies s[j] == s.drop_last()[j] by {}
    }
}

pub proof fn lemma_first_where_unique<A>(s: Seq<A>, p: spec_fn(A) -> bool, i: int)
    requires
        0 <= i < s.len(),
        p(s[i]),
        forall|j: int| 0 <= j < i ==> !p(#[trigger] s[j]),
    ensures
        first_where(s, p) == i,
{
    lemma_first_where(s, p);
}

pub open spec fn deref_seq<A>(s: Seq<&A>) -> Seq<A> {
    s.map_values(|x: &A| *x)
}

pub open spec fn is_type(t: NodeType) -> spec_fn(NodeModel) -> bool {
    |n: NodeModel| n.node_type == t
}

pub open spec fn has_id(id: Seq<char>) -> spec_fn(NodeModel) -> bool {
    |n: NodeModel| n.id@ == id
}

pub open spec fn from_node(id: Seq<char>) -> spec_fn(EdgeModel) -> bool {
    |e: EdgeModel| e.source_node_id@ == id
}

pub open spec fn to_node(id: Seq<char>) -> spec_fn(EdgeModel) -> bool {
    |e: EdgeModel| e.target_node_id@ == id
}

pub open spec fn opt_at<A>(s: Seq<A>, i: int) -> Option<A> {
    if 0 <= i < s.len() {
        Some(s[i])
    } else {
        None
    }
}

pub open spec fn opt_deref<A>(o: Option<&A>) -> Option<A> {
    match o {
        Some(x) => Some(*x),
        None => None,
    }
}

/// The node the first output edge of the start node leads to.
pub open spec fn first_task_node(m: ProcessModel) -> Option<NodeModel> {
    let st = first_where(m.nodes@, is_type(NodeType::Start));
    if st < 0 {
        None
    } else {
        let outs = filter_where(m.edges@, from_node(m.nodes@[st].id@));
        if outs.len() == 0 {
            None
        } else {
            opt_at(m.nodes@, first_where(m.nodes@, has_id(outs[0].target_node_id@)))
        }
    }
}

impl ProcessModel {
    /// The start node (the first node of type start).
    pub fn get_start(&self) -> (r: Option<&NodeModel>)
        ensures
            opt_deref(r) == opt_at(self.nodes@, first_where(self.nodes@, is_type(NodeType::Start))),
    {
        self.first_node_of_type(NodeType::Start)
    }

    fn first_node_of_type(&self, t: NodeType) -> (r: Option<&NodeModel>)
        ensures
            opt_deref(r) == opt_at(self.nodes@, first_where(self.nodes@, is_type(t))),
    {
        proof {
            lemma_first_where(self.nodes@, is_type(t));
        }
        let mut i: usize = 0;
        while i < self.nodes.len()
            invariant
                0 <= i <= self.nodes.len(),
                forall|j: int| 0 <= j < i ==> !is_type(t)(#[trigger] self.nodes@[j]),
            decreases self.nodes.len() - i,
        {
            if self.nodes[i].node_type == t {
                proof {
                    lemma_first_where_unique(self.nodes@, is_type(t), i as int);
                }
                return Some(&self.nodes[i]);
            }
            i = i + 1;
        }
        proof {
            lemma_first_where(self.nodes@, is_type(t));
        }
        None
    }

    /// The node with `id` (the first one).
    pub fn get_node(&self, id: &str) -> (r: Option<&NodeModel>)
        ensures
            opt_deref(r) == opt_at(self.nodes@, first_where(self.nodes@, has_id(id@))),
    {
        proof {
            lemma_first_where(self.nodes@, has_id(id@));
        }
        let mut i: usize = 0;
        while i < self.nodes.len()
            invariant
                0 <= i <= self.nodes.len(),
                forall|j: int| 0 <= j < i ==> !has_id(id@)(#[trigger] self.nodes@[j]),
            decreases self.nodes.len() - i,
        {
            if str_eq(self.nodes[i].id.as_str(), id) {
                proof {
                    lemma_first_where_unique(self.nodes@, has_id(id@), i as int);
                }
                return Some(&self.nodes[i]);
            }
            i = i + 1;
        }
        proof {
            lemma_first_where(self.nodes@, has_id(id@));
        }
        None
    }

    /// The nodes of a type, in order.
    pub fn get_nodes_by_type(&self, node_type: NodeType) -> (r: Vec<&NodeModel>)
        ensures
            deref_seq(r@) == filter_where(self.nodes@, is_type(node_type)),
    {
        let mut out: Vec<&NodeModel> = Vec::new();
        let mut i: usize = 0;
        while i < self.nodes.len()
            invariant
                0 <= i <= self.nodes.len(),
                deref_seq(out@) == filter_where(self.nodes@.take(i as int), is_type(node_type)),
            decreases self.nodes.len() - i,
        {
            assert(self.nodes@.take(i + 1).drop_last() =~= self.nodes@.take(i as int));
            let n = &self.nodes[i];
            if n.node_type == node_type {
                let ghost before = out@;
                out.push(n);
                assert(deref_seq(out@) =~= deref_seq(before).push(*n));
            }
            i = i + 1;
        }
        assert(self.nodes@.take(self.nodes.len() as int) =~= self.nodes@);
        out
    }

    fn edges_where(&self, node_id: &str, outgoing: bool) -> (r: Vec<&EdgeModel>)
        ensures
            deref_seq(r@) == filter_where(self.edges@, if outgoing { from_node(node_id@) } else { to_node(node_id@) }),
    {
        let ghost p = if outgoing { from_node(node_id@) } else { to_node(node_id@) };
        let mut out: Vec<&EdgeModel> = Vec::new();
        let mut i: usize = 0;
        while i < self.edges.len()
            invariant
                0 <= i <= self.edges.len(),
                p == if outgoing { from_node(node_id@) } else { to_node(node_id@) },
                deref_seq(out@) == filter_where(self.edges@.take(i as int), p),
            decreases self.edges.len() - i,
        {
            assert(self.edges@.take(i + 1).drop_last() =~= self.edges@.take(i as int));
            let e = &self.edges[i];
            let end = if outgoing { e.source_node_id.as_str() } else { e.target_node_id.as_str() };
            if str_eq(end, node_id) {
                let ghost before = out@;
                out.push(e);
                assert(deref_seq(out@) =~= deref_seq(before).push(*e));
            }
            i = i + 1;
        }
        assert(self.edges@.take(self.edges.len() as int) =~= self.edges@);
        out
    }

    /// The edges leaving a node, in order.
    pub fn get_output_edges(&self, node_id: &str) -> (r: Vec<&EdgeModel>)
        ensures
            deref_seq(r@) == filter_where(self.edges@, from_node(node_id@)),
    {
        self.edges_where(node_id, true)
    }

    /// The edges entering a node, in order.
    pub fn get_input_edges(&self, node_id: &str) -> (r: Vec<&EdgeModel>)
        ensures
            deref_seq(r@) == filter_where(self.edges@, to_node(node_id@)),
    {
        self.edges_where(node_id, false)
    }

    /// The node an edge leads to.
    pub fn get_target_node(&self, edge: &EdgeModel) -> (r: Option<&NodeModel>)
        ensures
            opt_deref(r) == opt_at(self.nodes@, first_where(self.nodes@, has_id(edge.target_node_id@))),
    {
        self.get_node(edge.target_node_id.as_str())
    }

    /// The node the start node's first output edge leads to.
    pub fn get_first_task_node(&self) -> (r: Option<&NodeModel>)
        ensures
            opt_deref(r) == first_task_node(*self),
    {
        proof {
            lemma_first_where(self.nodes@, is_type(NodeType::Start));
        }
        match self.get_start() {
            Some(start) => {
                let edges = self.get_output_edges(start.id.as_str());
                if edges.len() > 0 {
                    assert(deref_seq(edges@)[0] == *edges@[0]);
                    self.get_node(edges[0].target_node_id.as_str())
                } else {
                    None
                }
            },
            None => None,
        }
    }

    /// Is `node_id` the first task node?
    pub fn is_first_task_node(&self, node_id: &str) -> (r: bool)
        ensures
            r == (match first_task_node(*self) {
                Some(n) => n.id@ == node_id@,
                None => false,
            }),
    {
        match self.get_first_task_node() {
            Some(first) => str_eq(first.id.as_str(), node_id),
            None => false,
        }
    }

    /// The end nodes, in order.
    pub fn get_end_nodes(&self) -> (r: Vec<&NodeModel>)
        ensures
            deref_seq(r@) == filter_where(self.nodes@, is_type(NodeType::End)),
    {
        self.get_nodes_by_type(NodeType::End)
    }
}

} // verus!
