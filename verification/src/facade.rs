//! The pure parts of the action facade: key case conversion, `m_` query parameters, static
//! candidates of the next nodes, and the highlighted path of an instance graph.

use vstd::prelude::*;
use crate::json::{json_text, jview, jview_entries, lemma_jview_entries, FlowData, JView, JsonValue};
use crate::model::{camel_from, contains_str, filter_op_named, to_camel_case, FilterOp, QueryFilter};
use crate::parser::{
    deref_seq, filter_where, first_where, from_node, has_id, opt_at, prop_text, EdgeModel, NodeModel, NodeType,
    ProcessModel,
};
use crate::text::{
    char_is_upper, char_lower_first, chars_of, csv_items, is_upper_char, join, join_with, lower_first, owned,
    push_char, split_char, split_csv, starts_with, str_eq, string_of_range, to_upper, trim, trim_str, upper_text,
    views, split_on, has_prefix,
};

verus! {

/// `snake_case` → `camelCase` (see `camel_from`).
pub fn to_camel(s: &str) -> (r: String)
    ensures
        r@ == camel_from(s@, false),
{
    to_camel_case(s)
}

/// Keys whose values are free-form maps or graphs, kept with their inner keys as they are.
pub open spec fn opaque_value_key(k: Seq<char>) -> bool {
    ||| k == "jsonObject"@ || k == "json_object"@
    ||| k == "ext"@ || k == "instanceExt"@ || k == "instance_ext"@
    ||| k == "variable"@
    ||| k == "taskFormData"@ || k == "task_form_data"@
    ||| k == "formData"@ || k == "form_data"@
    ||| k == "nodeProgress"@ || k == "node_progress"@
}

/// Is `k` a key whose value keeps its inner keys (see `opaque_value_key`)?
pub fn is_opaque_value_key(k: &str) -> (r: bool)
    ensures
        r == opaque_value_key(k@),
{
    str_eq(k, "jsonObject") || str_eq(k, "json_object") || str_eq(k, "ext") || str_eq(k, "instanceExt")
        || str_eq(k, "instance_ext") || str_eq(k, "variable") || str_eq(k, "taskFormData")
        || str_eq(k, "task_form_data") || str_eq(k, "formData") || str_eq(k, "form_data")
        || str_eq(k, "nodeProgress") || str_eq(k, "node_progress")
}

/// `camelCase` → `snake_case`: every upper-case character is lower-cased and, unless it is
/// the first character, preceded by `_`.
pub open spec fn snake_from(s: Seq<char>, first: bool) -> Seq<char>
    decreases s.len(),
{
    if s.len() == 0 {
        Seq::empty()
    } else {
        let c = s[0];
        let piece = if is_upper_char(c) {
            if first {
                seq![lower_first(c)]
            } else {
                seq!['_', lower_first(c)]
            }
        } else {
            seq![c]
        };
        piece + snake_from(s.drop_first(), false)
    }
}

/// Convert `camelCase` to `snake_case` (see `snake_from`).
pub fn camel_to_snake(s: &str) -> (r: String)
    ensures
        r@ == snake_from(s@, true),
{
    let v = chars_of(s);
    let mut out = String::new();
    let mut i: usize = 0;
    assert(v@.skip(0) =~= v@);
    assert(out@ + snake_from(v@.skip(0), true) =~= snake_from(s@, true));
    while i < v.len()
        invariant
            0 <= i <= v.len(),
            v@ == s@,
            out@ + snake_from(v@.skip(i as int), i == 0) == snake_from(s@, true),
        decreases v.len() - i,
    {
        let c = v[i];
        assert(v@.skip(i as int).drop_first() =~= v@.skip(i + 1));
        assert(v@.skip(i as int)[0] == c);
        let ghost before = out@;
        if char_is_upper(c) {
            if i > 0 {
                push_char(&mut out, '_');
            }
            push_char(&mut out, char_lower_first(c));
        } else {
            push_char(&mut out, c);
        }
        i = i + 1;
        assert(out@ + snake_from(v@.skip(i as int), i == 0) =~= snake_from(s@, true));
    }
    assert(v@.skip(v.len() as int) =~= Seq::<char>::empty());
    out
}

/// The operator names an `m_` parameter may use, in any case.
pub open spec fn known_op(s: Seq<char>) -> bool {
    let u = upper_text(s);
    ||| u == "EQ"@ || u == "NE"@ || u == "LIKE"@ || u == "LLIKE"@ || u == "RLIKE"@
    ||| u == "GT"@ || u == "LT"@ || u == "GE"@ || u == "LE"@
    ||| u == "IN"@ || u == "NIN"@ || u == "BT"@
}

/// Is `s` an operator name (see `known_op`)?
pub fn is_known_op(s: &str) -> (r: bool)
    ensures
        r == known_op(s@),
{
    let u = to_upper(s);
    let u = u.as_str();
    str_eq(u, "EQ") || str_eq(u, "NE") || str_eq(u, "LIKE") || str_eq(u, "LLIKE") || str_eq(u, "RLIKE")
        || str_eq(u, "GT") || str_eq(u, "LT") || str_eq(u, "GE") || str_eq(u, "LE") || str_eq(u, "IN")
        || str_eq(u, "NIN") || str_eq(u, "BT")
}

// ─────────────── static candidates of the next task nodes ───────────────

/// Add `t` unless it is empty or already there.
pub open spec fn push_unique(acc: Seq<Seq<char>>, t: Seq<char>) -> Seq<Seq<char>> {
    if t.len() > 0 && !acc.contains(t) {
        acc.push(t)
    } else {
        acc
    }
}

pub open spec fn push_all_unique(acc: Seq<Seq<char>>, items: Seq<Seq<char>>) -> Seq<Seq<char>>
    decreases items.len(),
{
    if items.len() == 0 {
        acc
    } else {
        push_all_unique(push_unique(acc, items[0]), items.drop_first())
    }
}

/// The actors a task node names statically: its trimmed assignee (unless `applicant`), then
/// its candidate users.
pub open spec fn node_static_actors(n: NodeModel) -> Seq<Seq<char>> {
    let a = match prop_text(n.properties, "assignee"@) {
        Some(x) => if trim(x).len() > 0 && trim(x) != "applicant"@ {
            seq![trim(x)]
        } else {
            Seq::<Seq<char>>::empty()
        },
        None => Seq::<Seq<char>>::empty(),
    };
    let c = match prop_text(n.properties, "candidateUsers"@) {
        Some(u) => csv_items(u),
        None => Seq::<Seq<char>>::empty(),
    };
    a + c
}

/// The static actors of the task nodes the edges `edges` lead to, each once, in order.
pub open spec fn static_candidates(m: ProcessModel, edges: Seq<EdgeModel>, acc: Seq<Seq<char>>) -> Seq<Seq<char>>
    decreases edges.len(),
{
    if edges.len() == 0 {
        acc
    } else {
        let n = opt_at(m.nodes@, first_where(m.nodes@, has_id(edges[0].target_node_id@)));
        let acc2 = match n {
            Some(node) => if node.node_type == NodeType::Task {
                push_all_unique(acc, node_static_actors(node))
            } else {
                acc
            },
            None => acc,
        };
        static_candidates(m, edges.drop_first(), acc2)
    }
}

fn add_unique(out: &mut Vec<String>, t: String)
    ensures
        views(final(out)@) == push_unique(views(old(out)@), t@),
{
    if !t.as_str().is_empty() && !contains_str(out.as_slice(), t.as_str()) {
        let ghost before = views(out@);
        out.push(t);
        assert(views(out@) =~= before.push(t@));
    }
}

fn add_all_unique(out: &mut Vec<String>, items: Vec<String>)
    ensures
        views(final(out)@) == push_all_unique(views(old(out)@), views(items@)),
{
    let mut i: usize = 0;
    assert(views(items@).skip(0) =~= views(items@));
    while i < items.len()
        invariant
            i <= items.len(),
            push_all_unique(views(out@), views(items@).skip(i as int))
                == push_all_unique(views(old(out)@), views(items@)),
        decreases items.len() - i,
    {
        assert(views(items@).skip(i as int)[0] == items@[i as int]@);
        assert(views(items@).skip(i as int).drop_first() =~= views(items@).skip(i + 1));
        add_unique(out, items[i].clone());
        i = i + 1;
    }
    assert(views(items@).skip(items.len() as int) =~= Seq::<Seq<char>>::empty());
}

fn node_actors(n: &NodeModel) -> (r: Vec<String>)
    ensures
        views(r@) == node_static_actors(*n),
{
    let mut out: Vec<String> = Vec::new();
    match n.assignee() {
        Some(a) => {
            let t = trim_str(a.as_str());
            if !t.as_str().is_empty() && !str_eq(t.as_str(), "applicant") {
                out.push(t);
            }
        },
        None => {},
    }
    let ghost a_part = views(out@);
    let c: Vec<String> = match n.candidate_users() {
        Some(u) => split_csv(u.as_str()),
        None => Vec::new(),
    };
    let mut i: usize = 0;
    while i < c.len()
        invariant
            i <= c.len(),
            views(out@) == a_part + views(c@).take(i as int),
        decreases c.len() - i,
    {
        let x = c[i].clone();
        let ghost before = views(out@);
        out.push(x);
        assert(views(out@) =~= before.push(x@));
        assert(views(c@).take(i + 1) =~= views(c@).take(i as int).push(c@[i as int]@));
        i = i + 1;
        assert(views(out@) =~= a_part + views(c@).take(i as int));
    }
    assert(views(c@).take(c.len() as int) =~= views(c@));
    out
}

/// The actors the next task nodes of `task_name` name statically, each once, in edge order.
pub fn collect_static_candidate_actors(model: &ProcessModel, task_name: &str) -> (r: Vec<String>)
    ensures
        views(r@) == static_candidates(*model, filter_where(model.edges@, from_node(task_name@)), Seq::empty()),
{
    let edges = model.get_output_edges(task_name);
    let ghost es = deref_seq(edges@);
    let mut out: Vec<String> = Vec::new();
    let mut i: usize = 0;
    assert(es.skip(0) =~= es);
    assert(views(out@) =~= Seq::<Seq<char>>::empty());
    while i < edges.len()
        invariant
            i <= edges.len(),
            es == deref_seq(edges@),
            static_candidates(*model, es.skip(i as int), views(out@))
                == static_candidates(*model, es, Seq::empty()),
        decreases edges.len() - i,
    {
        let e = edges[i];
        assert(es.skip(i as int)[0] == *e);
        assert(es.skip(i as int).drop_first() =~= es.skip(i + 1));
        match model.get_node(e.target_node_id.as_str()) {
            Some(n) => {
                if n.node_type == NodeType::Task {
                    let items = node_actors(n);
                    add_all_unique(&mut out, items);
                }
            },
            None => {},
        }
        i = i + 1;
    }
    assert(es.skip(edges.len() as int) =~= Seq::<EdgeModel>::empty());
    out
}


// ─────────────── `m_` query parameters ───────────────

pub open spec fn trim_quotes_start(s: Seq<char>) -> Seq<char>
    decreases s.len(),
{
    if s.len() > 0 && s[0] == '"' {
        trim_quotes_start(s.drop_first())
    } else {
        s
    }
}

pub open spec fn trim_quotes_end(s: Seq<char>) -> Seq<char>
    decreases s.len(),
{
    if s.len() > 0 && s.last() == '"' {
        trim_quotes_end(s.drop_last())
    } else {
        s
    }
}

/// `str::trim_matches('"')`.
pub open spec fn trim_quotes(s: Seq<char>) -> Seq<char> {
    trim_quotes_end(trim_quotes_start(s))
}

/// The text of a parameter value: a text as it is, anything else as its JSON text without
/// surrounding quotes.
pub open spec fn m_value(v: JView) -> Seq<char> {
    match v {
        JView::Str(t) => t,
        _ => trim_quotes(json_text(v)),
    }
}

pub open spec fn qf_view(q: QueryFilter) -> (Seq<char>, FilterOp, Seq<char>, Seq<char>) {
    (q.alias@, q.op, q.column@, q.value@)
}

/// The filter an `m_` parameter stands for: `m_{alias}_{op}_{column}` (the column may hold
/// `_` itself), or `m_{op}_{column}` on alias `t`; the column goes to `snake_case`.
pub open spec fn m_filter(key: Seq<char>, v: JView) -> Option<(Seq<char>, FilterOp, Seq<char>, Seq<char>)> {
    if !starts_with(key, "m_"@) {
        None
    } else {
        let parts = split_on(key.skip(2), '_');
        if parts.len() >= 3 {
            match filter_op_named(upper_text(parts[1])) {
                Some(op) => Some((parts[0], op, snake_from(join(parts.skip(2), "_"@), true), m_value(v))),
                None => None,
            }
        } else if parts.len() == 2 && known_op(parts[0]) {
            match filter_op_named(upper_text(parts[0])) {
                Some(op) => Some(("t"@, op, snake_from(parts[1], true), m_value(v))),
                None => None,
            }
        } else {
            None
        }
    }
}

/// The filters of the `m_` parameters, in parameter order.
pub open spec fn m_filters(es: Seq<(Seq<char>, JView)>) -> Seq<(Seq<char>, FilterOp, Seq<char>, Seq<char>)>
    decreases es.len(),
{
    if es.len() == 0 {
        Seq::empty()
    } else {
        let prev = m_filters(es.drop_last());
        match m_filter(es.last().0, es.last().1) {
            Some(f) => prev.push(f),
            None => prev,
        }
    }
}

pub fn strip_quotes_text(s: &str) -> (r: String)
    ensures
        r@ == trim_quotes(s@),
{
    let v = chars_of(s);
    let mut lo: usize = 0;
    assert(v@.skip(0) =~= v@);
    while lo < v.len() && v[lo] == '"'
        invariant
            lo <= v.len(),
            v@ == s@,
            trim_quotes_start(v@.skip(lo as int)) == trim_quotes_start(s@),
        decreases v.len() - lo,
    {
        assert(v@.skip(lo as int).drop_first() =~= v@.skip(lo + 1));
        lo = lo + 1;
    }
    let ghost mid = v@.skip(lo as int);
    assert(trim_quotes_start(mid) == mid);
    let mut hi: usize = v.len();
    assert(v@.subrange(lo as int, hi as int) =~= mid);
    while hi > lo && v[hi - 1] == '"'
        invariant
            lo <= hi <= v.len(),
            trim_quotes_end(v@.subrange(lo as int, hi as int)) == trim_quotes_end(mid),
        decreases hi,
    {
        assert(v@.subrange(lo as int, hi as int).drop_last() =~= v@.subrange(lo as int, hi - 1));
        hi = hi - 1;
    }
    assert(trim_quotes_end(v@.subrange(lo as int, hi as int)) == v@.subrange(lo as int, hi as int));
    string_of_range(&v, lo, hi)
}

fn m_value_text(v: &JsonValue) -> (r: String)
    ensures
        r@ == m_value(jview(*v)),
{
    match v.as_str() {
        Some(t) => owned(t),
        None => {
            let j = v.to_json_string();
            strip_quotes_text(j.as_str())
        },
    }
}

fn tail_from(parts: &Vec<String>, from: usize) -> (r: Vec<String>)
    requires
        from <= parts.len(),
    ensures
        views(r@) == views(parts@).skip(from as int),
{
    let mut out: Vec<String> = Vec::new();
    let mut i: usize = from;
    while i < parts.len()
        invariant
            from <= i <= parts.len(),
            views(out@) == views(parts@).subrange(from as int, i as int),
        decreases parts.len() - i,
    {
        let x = parts[i].clone();
        let ghost before = views(out@);
        out.push(x);
        assert(views(out@) =~= before.push(x@));
        i = i + 1;
        assert(views(out@) =~= views(parts@).subrange(from as int, i as int));
    }
    out
}

/// The filter of one parameter (see `m_filter`).
pub fn m_filter_of(key: &str, value: &JsonValue) -> (r: Option<QueryFilter>)
    ensures
        match r {
            Some(q) => m_filter(key@, jview(*value)) == Some(qf_view(q)),
            None => m_filter(key@, jview(*value)) is None,
        },
{
    if !has_prefix(key, "m_") {
        return None;
    }
    let kv = chars_of(key);
    proof {
        reveal_strlit("m_");
    }
    let rest = string_of_range(&kv, 2, kv.len());
    assert(rest@ =~= key@.skip(2));
    let parts = split_char(rest.as_str(), '_');
    if parts.len() >= 3 {
        match FilterOp::from_str(parts[1].as_str()) {
            Some(op) => {
                let tail = tail_from(&parts, 2);
                let joined = join_with(tail.as_slice(), "_");
                let column = camel_to_snake(joined.as_str());
                let value_text = m_value_text(value);
                assert(views(parts@)[0] == parts@[0]@);
                assert(views(parts@)[1] == parts@[1]@);
                Some(QueryFilter { alias: parts[0].clone(), op, column, value: value_text })
            },
            None => {
                assert(views(parts@)[1] == parts@[1]@);
                None
            },
        }
    } else if parts.len() == 2 && is_known_op(parts[0].as_str()) {
        assert(views(parts@)[0] == parts@[0]@);
        assert(views(parts@)[1] == parts@[1]@);
        match FilterOp::from_str(parts[0].as_str()) {
            Some(op) => {
                let column = camel_to_snake(parts[1].as_str());
                let value_text = m_value_text(value);
                Some(QueryFilter { alias: owned("t"), op, column, value: value_text })
            },
            None => None,
        }
    } else {
        proof {
            if parts.len() == 2 {
                assert(views(parts@)[0] == parts@[0]@);
            }
        }
        None
    }
}

/// The filters of the `m_` parameters, in parameter order (see `m_filters`).
pub fn parse_m_params(args: &FlowData) -> (r: Vec<QueryFilter>)
    ensures
        r@.map_values(|q: QueryFilter| qf_view(q)) == m_filters(args.kv()),
{
    let es = args.entries();
    proof {
        lemma_jview_entries(es@);
    }
    let ghost kv = args.kv();
    let mut out: Vec<QueryFilter> = Vec::new();
    let mut i: usize = 0;
    while i < es.len()
        invariant
            kv == args.kv(),
            jview_entries(es@) == kv,
            kv.len() == es@.len(),
            forall|j: int| 0 <= j < es@.len() ==> #[trigger] kv[j] == (es@[j].0@, jview(es@[j].1)),
            i <= es.len(),
            out@.map_values(|q: QueryFilter| qf_view(q)) == m_filters(kv.take(i as int)),
        decreases es.len() - i,
    {
        assert(kv.take(i + 1).drop_last() =~= kv.take(i as int));
        assert(kv.take(i + 1).last() == kv[i as int]);
        let ghost before = out@;
        match m_filter_of(es[i].0.as_str(), &es[i].1) {
            Some(q) => {
                out.push(q);
                assert(out@.map_values(|q: QueryFilter| qf_view(q))
                    =~= before.map_values(|q: QueryFilter| qf_view(q)).push(qf_view(out@[out@.len() - 1])));
            },
            None => {},
        }
        i = i + 1;
    }
    assert(kv.take(es.len() as int) =~= kv);
    out
}


// ─────────────── the highlighted path of an instance graph ───────────────

/// `new` extends `old`, and each added entry is outside `avoid` and new to the list.
pub open spec fn grows_fresh(old: Seq<Seq<char>>, new: Seq<Seq<char>>, avoid: Seq<Seq<char>>) -> bool {
    &&& old.len() <= new.len()
    &&& new.take(old.len() as int) == old
    &&& forall|j: int| old.len() <= j < new.len() ==> !avoid.contains(#[trigger] new[j]) && !new.take(j).contains(new[j])
}

proof fn lemma_grows_fresh_refl(a: Seq<Seq<char>>, avoid: Seq<Seq<char>>)
    ensures
        grows_fresh(a, a, avoid),
{
    assert(a.take(a.len() as int) =~= a);
}

proof fn lemma_grows_fresh_trans(a: Seq<Seq<char>>, b: Seq<Seq<char>>, c: Seq<Seq<char>>, avoid: Seq<Seq<char>>)
    requires
        grows_fresh(a, b, avoid),
        grows_fresh(b, c, avoid),
    ensures
        grows_fresh(a, c, avoid),
{
    assert(c.take(a.len() as int) =~= c.take(b.len() as int).take(a.len() as int));
    assert forall|j: int| a.len() <= j < c.len() implies !avoid.contains(#[trigger] c[j]) && !c.take(j).contains(c[j]) by {
        if j < b.len() {
            assert(c[j] == c.take(b.len() as int)[j]);
            assert(c.take(j) =~= b.take(j)) by {
                assert(c.take(j) =~= c.take(b.len() as int).take(j));
            }
        }
    }
}

proof fn lemma_grows_fresh_push(a: Seq<Seq<char>>, x: Seq<char>, avoid: Seq<Seq<char>>)
    requires
        !avoid.contains(x),
        !a.contains(x),
    ensures
        grows_fresh(a, a.push(x), avoid),
{
    assert(a.push(x).take(a.len() as int) =~= a);
    assert(a.push(x)[a.len() as int] == x);
}

/// Is the edge a decision edge with an expression (skipped without an evaluator)?
fn skipped_branch(model: &ProcessModel, node_id: &str, edge: &EdgeModel) -> (r: bool)
    ensures
        r == (crate::parser::opt_at(model.nodes@, crate::parser::first_where(model.nodes@, crate::parser::has_id(node_id@)))
            matches Some(n) && n.node_type == NodeType::Decision
            && (crate::parser::prop_text(edge.properties, "expr"@) matches Some(x) && x.len() > 0)),
{
    match model.get_node(node_id) {
        Some(n) => {
            if n.node_type == NodeType::Decision {
                match edge.expr() {
                    Some(expr) => !expr.as_str().is_empty(),
                    None => false,
                }
            } else {
                false
            }
        },
        None => false,
    }
}

fn collect_path_from(
    model: &ProcessModel,
    node_id: &str,
    active: &[String],
    history: &mut Vec<String>,
    edges: &mut Vec<String>,
    visited: &mut Vec<String>,
    fuel: usize,
)
    ensures
        grows_fresh(views(old(history)@), views(final(history)@), views(active@)),
        grows_fresh(views(old(edges)@), views(final(edges)@), Seq::empty()),
        views(final(visited)@).take(old(visited)@.len() as int) == views(old(visited)@),
        old(visited)@.len() <= final(visited)@.len(),
    decreases fuel,
{
    proof {
        lemma_grows_fresh_refl(views(history@), views(active@));
        lemma_grows_fresh_refl(views(edges@), Seq::empty());
        assert(views(visited@).take(visited@.len() as int) =~= views(visited@));
    }
    if fuel == 0 || contains_str(visited.as_slice(), node_id) {
        return;
    }
    let ghost v0 = views(visited@);
    visited.push(owned(node_id));
    assert(views(visited@).take(v0.len() as int) =~= v0);
    let outs = model.get_output_edges(node_id);
    let mut i: usize = 0;
    while i < outs.len()
        invariant
            i <= outs.len(),
            fuel > 0,
            grows_fresh(views(old(history)@), views(history@), views(active@)),
            grows_fresh(views(old(edges)@), views(edges@), Seq::empty()),
            views(visited@).take(old(visited)@.len() as int) == views(old(visited)@),
            old(visited)@.len() <= visited@.len(),
        decreases outs.len() - i,
    {
        let edge = outs[i];
        if !skipped_branch(model, node_id, edge) {
            if !edge.id.as_str().is_empty() && !contains_str(edges.as_slice(), edge.id.as_str()) {
                let ghost e0 = views(edges@);
                edges.push(edge.id.clone());
                assert(views(edges@) =~= e0.push(edge.id@));
                proof {
                    lemma_grows_fresh_push(e0, edge.id@, Seq::empty());
                    lemma_grows_fresh_trans(views(old(edges)@), e0, views(edges@), Seq::empty());
                }
            }
            let tid = edge.target_node_id.as_str();
            if !tid.is_empty() {
                let in_active = contains_str(active, tid);
                if !in_active && !contains_str(history.as_slice(), tid) {
                    let ghost h0 = views(history@);
                    history.push(owned(tid));
                    assert(views(history@) =~= h0.push(tid@));
                    proof {
                        lemma_grows_fresh_push(h0, tid@, views(active@));
                        lemma_grows_fresh_trans(views(old(history)@), h0, views(history@), views(active@));
                    }
                }
                if !in_active {
                    let ghost h1 = views(history@);
                    let ghost e1 = views(edges@);
                    let ghost v1 = views(visited@);
                    let ghost n1 = visited@.len();
                    collect_path_from(model, tid, active, history, edges, visited, fuel - 1);
                    proof {
                        lemma_grows_fresh_trans(views(old(history)@), h1, views(history@), views(active@));
                        lemma_grows_fresh_trans(views(old(edges)@), e1, views(edges@), Seq::empty());
                        assert(views(visited@).take(old(visited)@.len() as int)
                            =~= views(visited@).take(n1 as int).take(old(visited)@.len() as int));
                    }
                }
            }
        }
        i = i + 1;
    }
}

/// Walk the graph from `node_id` along output edges: each edge taken joins `edges`, each node
/// reached joins `history` unless it is active (where the walk stops going deeper); decision
/// edges with an expression are not taken; a node is entered once (`visited`). Both lists
/// only grow, by entries new to them (history entries outside `active`).
pub fn collect_high_light_path(
    model: &ProcessModel,
    node_id: &str,
    active: &[String],
    history: &mut Vec<String>,
    edges: &mut Vec<String>,
    visited: &mut Vec<String>,
)
    ensures
        grows_fresh(views(old(history)@), views(final(history)@), views(active@)),
        grows_fresh(views(old(edges)@), views(final(edges)@), Seq::empty()),
{
    let fuel = if model.edges.len() < usize::MAX { model.edges.len() + 1 } else { model.edges.len() };
    collect_path_from(model, node_id, active, history, edges, visited, fuel);
}

} // verus!
