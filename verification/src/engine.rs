//! The engine: executing a process model over an instance, node by node.

use vstd::prelude::*;
use crate::json::{
    jview, jview_list, lemma_jview_list, lemma_jview_entries, jview_entries, jview_as_i64, entry_lookup,
    FlowData, JView, JsonValue, saturate_i64, trunc_decimal,
};
use crate::model::{
    is_super_operator, opt_view, task_index, task_allows, ProcessDefine, ProcessInstance, ProcessTask, TaskView, UserInfo,
    TASK_DOING,
};
use crate::parser::{
    prop_text, perform_type_of, opt_at, first_where, has_id, filter_where, to_node, deref_seq, EdgeModel,
    NodeModel, NodeType, ProcessModel,
};
use crate::error::{JeeflowError, JeeflowResult};
use crate::interceptor::var_text;
use crate::text::{i64_text, starts_with, has_prefix, to_upper, upper_text, csv_items, int_text, owned, push_str, split_csv, str_eq, trim, trim_str, views};

verus! {

/// The state one engine step works on.
pub struct Execution {
    pub process_instance: ProcessInstance,
    pub process_model: ProcessModel,
    pub process_define: ProcessDefine,
    pub current_node: Option<NodeModel>,
    pub process_task: Option<ProcessTask>,
    pub process_task_list: Vec<ProcessTask>,
    pub args: FlowData,
    pub operator: String,
    pub is_merged: bool,
    /// Tasks created during this step.
    pub new_tasks: Vec<ProcessTask>,
    /// The instance was finished or rejected during this step.
    pub instance_finished: bool,
    /// Countersign gate variables (`nrOfInstances`, ...).
    pub gate_vars: FlowData,
}

impl Execution {
    pub fn new(
        instance: ProcessInstance,
        model: ProcessModel,
        define: ProcessDefine,
        operator: &str,
        args: FlowData,
    ) -> (r: Execution)
        ensures
            r.process_instance == instance,
            r.process_model == model,
            r.process_define == define,
            r.current_node is None,
            r.process_task is None,
            r.process_task_list@.len() == 0,
            r.args == args,
            r.operator@ == operator@,
            !r.is_merged,
            r.new_tasks@.len() == 0,
            !r.instance_finished,
            r.gate_vars.kv().len() == 0,
    {
        Execution {
            process_instance: instance,
            process_model: model,
            process_define: define,
            current_node: None,
            process_task: None,
            process_task_list: Vec::new(),
            args,
            operator: owned(operator),
            is_merged: false,
            new_tasks: Vec::new(),
            instance_finished: false,
            gate_vars: FlowData::new(),
        }
    }
}


// ═══════════════════════ step decisions ═══════════════════════

/// The user variables a step carries (`u_userId`, ...), set from the operator's user record.
pub open spec fn with_user_info(before: FlowData, u: UserInfo, q: Seq<char>) -> Option<JView> {
    if q == "u_userId"@ {
        Some(JView::Str(u.user_id@))
    } else if q == "u_realName"@ {
        Some(JView::Str(u.real_name@))
    } else if q == "u_deptId"@ {
        Some(JView::Str(u.dept_id@))
    } else if q == "u_deptName"@ {
        Some(JView::Str(u.dept_name@))
    } else if q == "u_postId"@ {
        Some(JView::Str(u.post_id@))
    } else if q == "u_postName"@ {
        Some(JView::Str(u.post_name@))
    } else {
        before.lookup(q)
    }
}

proof fn lemma_user_keys_distinct()
    ensures
        "u_userId"@ != "u_realName"@,
        "u_userId"@ != "u_deptId"@,
        "u_userId"@ != "u_deptName"@,
        "u_userId"@ != "u_postId"@,
        "u_userId"@ != "u_postName"@,
        "u_realName"@ != "u_deptId"@,
        "u_realName"@ != "u_deptName"@,
        "u_realName"@ != "u_postId"@,
        "u_realName"@ != "u_postName"@,
        "u_deptId"@ != "u_deptName"@,
        "u_deptId"@ != "u_postId"@,
        "u_deptId"@ != "u_postName"@,
        "u_deptName"@ != "u_postId"@,
        "u_deptName"@ != "u_postName"@,
        "u_postId"@ != "u_postName"@,
{
    reveal_strlit("u_userId");
    reveal_strlit("u_realName");
    reveal_strlit("u_deptId");
    reveal_strlit("u_deptName");
    reveal_strlit("u_postId");
    reveal_strlit("u_postName");
    assert("u_userId"@[2] != "u_deptId"@[2]);
    assert("u_userId"@[2] != "u_postId"@[2]);
    assert("u_deptId"@[2] != "u_postId"@[2]);
    assert("u_realName"@[2] != "u_deptName"@[2]);
    assert("u_realName"@[2] != "u_postName"@[2]);
    assert("u_deptName"@[2] != "u_postName"@[2]);
    assert("u_deptId"@.len() != "u_deptName"@.len());
    assert("u_postId"@.len() != "u_postName"@.len());
    assert("u_userId"@.len() != "u_realName"@.len());
    assert("u_userId"@.len() != "u_deptName"@.len());
    assert("u_userId"@.len() != "u_postName"@.len());
    assert("u_realName"@.len() != "u_deptId"@.len());
    assert("u_realName"@.len() != "u_postId"@.len());
    assert("u_deptId"@.len() != "u_postName"@.len());
    assert("u_deptName"@.len() != "u_postId"@.len());
}

/// Add the operator's user variables to the step's args; the super operators, and operators the
/// user provider does not know (`user` is `None`), add none.
pub fn add_user_info(args: &mut FlowData, operator: &str, user: Option<&UserInfo>)
    ensures
        forall|q: Seq<char>| #[trigger] final(args).lookup(q) == match user {
            Some(u) => if is_super_operator(operator@) {
                old(args).lookup(q)
            } else {
                with_user_info(*old(args), *u, q)
            },
            None => old(args).lookup(q),
        },
{
    proof {
        reveal_strlit("flow.auto");
        reveal_strlit("flow.admin");
    }
    if str_eq(operator, "flow.auto") || str_eq(operator, "flow.admin") {
        return;
    }
    match user {
        Some(u) => {
            proof {
                reveal_strlit("u_userId");
                reveal_strlit("u_realName");
                reveal_strlit("u_deptId");
                reveal_strlit("u_deptName");
                reveal_strlit("u_postId");
                reveal_strlit("u_postName");
            }
            proof {
                lemma_user_keys_distinct();
            }
            let ghost a0 = *args;
            args.insert_str("u_userId", u.user_id.as_str());
            let ghost a1 = *args;
            args.insert_str("u_realName", u.real_name.as_str());
            let ghost a2 = *args;
            args.insert_str("u_deptId", u.dept_id.as_str());
            let ghost a3 = *args;
            args.insert_str("u_deptName", u.dept_name.as_str());
            let ghost a4 = *args;
            args.insert_str("u_postId", u.post_id.as_str());
            let ghost a5 = *args;
            args.insert_str("u_postName", u.post_name.as_str());
            assert forall|q: Seq<char>| #[trigger] args.lookup(q) == with_user_info(a0, *u, q) by {
                assert(a1.lookup(q) == (if q == "u_userId"@ { Some(JView::Str(u.user_id@)) } else { a0.lookup(q) }));
                assert(a2.lookup(q) == (if q == "u_realName"@ { Some(JView::Str(u.real_name@)) } else { a1.lookup(q) }));
                assert(a3.lookup(q) == (if q == "u_deptId"@ { Some(JView::Str(u.dept_id@)) } else { a2.lookup(q) }));
                assert(a4.lookup(q) == (if q == "u_deptName"@ { Some(JView::Str(u.dept_name@)) } else { a3.lookup(q) }));
                assert(a5.lookup(q) == (if q == "u_postId"@ { Some(JView::Str(u.post_id@)) } else { a4.lookup(q) }));
                assert(args.lookup(q) == (if q == "u_postName"@ { Some(JView::Str(u.post_name@)) } else { a5.lookup(q) }));
            }
        },
        None => {},
    }
}

/// `{realName}的{displayName}-{now}`, with `未知` for an unknown real name.
pub open spec fn auto_title(args: FlowData, display_name: Seq<char>, now: Seq<char>) -> Seq<char> {
    let name = match var_text(args, "u_realName"@) {
        Some(n) => n,
        None => "未知"@,
    };
    name + "的"@ + display_name + "-"@ + now
}

/// The generated title of a new instance.
pub fn gen_auto_title(args: &FlowData, display_name: &str, now: &str) -> (r: String)
    ensures
        r@ == auto_title(*args, display_name@, now@),
{
    let mut t = match args.get_str("u_realName") {
        Some(n) => owned(n),
        None => owned("未知"),
    };
    push_str(&mut t, "的");
    push_str(&mut t, display_name);
    push_str(&mut t, "-");
    push_str(&mut t, now);
    t
}

/// The texts among `items`, trimmed, empty ones dropped.
pub open spec fn text_items(items: Seq<JView>) -> Seq<Seq<char>>
    decreases items.len(),
{
    if items.len() == 0 {
        Seq::empty()
    } else {
        let prev = text_items(items.drop_last());
        match items.last() {
            JView::Str(s) => if trim(s).len() > 0 { prev.push(trim(s)) } else { prev },
            _ => prev,
        }
    }
}

/// The next-node operators a step names in `tf_nextNodeOperator`: an array of texts, or a
/// comma-separated text.
pub open spec fn next_node_operators(args: FlowData) -> Seq<Seq<char>> {
    match args.lookup("tf_nextNodeOperator"@) {
        Some(JView::Array(items)) => text_items(items),
        Some(JView::Str(s)) => csv_items(s),
        _ => Seq::empty(),
    }
}

/// A node's `assignee`: `applicant` is the initiator; the name of a non-empty text variable
/// stands for its comma-separated value; anything else is itself a comma-separated list.
pub open spec fn assignee_actors(args: FlowData, assignee: Seq<char>, initiator: Seq<char>) -> Seq<Seq<char>> {
    if assignee == "applicant"@ {
        seq![initiator]
    } else {
        match var_text(args, assignee) {
            Some(v) => if v.len() > 0 { csv_items(v) } else { csv_items(assignee) },
            None => csv_items(assignee),
        }
    }
}

/// Next-node operators named in a step come first: when the step's `tf_nextNodeOperator` is a
/// text naming someone, a task node reached in that step is assigned exactly the people it
/// names, split on commas, whatever the node's own assignee, handler or candidates.
pub proof fn law_next_node_operators_win(
    args: FlowData,
    node: NodeModel,
    initiator: Seq<char>,
    handler_answer: Option<Seq<char>>,
    x: Seq<char>,
)
    requires
        args.lookup("tf_nextNodeOperator"@) == Some(JView::Str(x)),
        csv_items(x).len() > 0,
    ensures
        resolved_actors(args, node, initiator, handler_answer) == csv_items(x),
{
}

/// The actors of a task node, by priority: the step's next-node operators; the node's
/// assignee; what its assignment handler answered (`handler_answer`, when it has a handler that
/// was found and answered); its candidate users.
pub open spec fn resolved_actors(args: FlowData, node: NodeModel, initiator: Seq<char>, handler_answer: Option<Seq<char>>) -> Seq<Seq<char>> {
    let p1 = next_node_operators(args);
    let assignee = prop_text(node.properties, "assignee"@);
    let has_assignee = assignee is Some && assignee.unwrap().len() > 0;
    let answered = prop_text(node.properties, "assignmentHandler"@) is Some && handler_answer is Some
        && handler_answer.unwrap().len() > 0;
    if p1.len() > 0 {
        p1
    } else if has_assignee {
        assignee_actors(args, assignee.unwrap(), initiator)
    } else if answered {
        csv_items(handler_answer.unwrap())
    } else {
        match prop_text(node.properties, "candidateUsers"@) {
            Some(u) => csv_items(u),
            None => Seq::empty(),
        }
    }
}

fn text_items_of(items: &Vec<JsonValue>) -> (r: Vec<String>)
    ensures
        views(r@) == text_items(jview_list(items@)),
{
    proof {
        lemma_jview_list(items@);
    }
    let ghost jl = jview_list(items@);
    let mut out: Vec<String> = Vec::new();
    let mut i: usize = 0;
    while i < items.len()
        invariant
            0 <= i <= items.len(),
            jl == jview_list(items@),
            jl.len() == items@.len(),
            forall|j: int| 0 <= j < items@.len() ==> #[trigger] jl[j] == jview(items@[j]),
            views(out@) == text_items(jl.take(i as int)),
        decreases items.len() - i,
    {
        assert(jl.take(i + 1).drop_last() =~= jl.take(i as int));
        assert(jl.take(i + 1).last() == jview(items@[i as int]));
        match items[i].as_str() {
            Some(s) => {
                let t = trim_str(s);
                if !t.as_str().is_empty() {
                    let ghost before = out@;
                    out.push(t);
                    assert(views(out@) =~= views(before).push(t@));
                }
            },
            None => {},
        }
        i = i + 1;
    }
    assert(jl.take(items.len() as int) =~= jl);
    out
}

/// The actors of a task node (see `resolved_actors`).
pub fn resolve_assignee(args: &FlowData, node: &NodeModel, initiator: &str, handler_answer: Option<&str>) -> (r: Vec<String>)
    ensures
        views(r@) == resolved_actors(
            *args,
            *node,
            initiator@,
            match handler_answer {
                Some(h) => Some(h@),
                None => None,
            },
        ),
{
    let p1: Vec<String> = match args.get("tf_nextNodeOperator") {
        Some(v) => match v.as_array() {
            Some(items) => text_items_of(items),
            None => match v.as_str() {
                Some(s) => split_csv(s),
                None => Vec::new(),
            },
        },
        None => Vec::new(),
    };
    assert(views(p1@) == next_node_operators(*args));
    if p1.len() > 0 {
        return p1;
    }
    match node.assignee() {
        Some(a) => {
            if !a.as_str().is_empty() {
                proof {
                    reveal_strlit("applicant");
                }
                if str_eq(a.as_str(), "applicant") {
                    let one = vec![owned(initiator)];
                    assert(views(one@) =~= seq![initiator@]);
                    return one;
                }
                match args.get_str(a.as_str()) {
                    Some(val) => {
                        if !val.is_empty() {
                            return split_csv(val);
                        }
                    },
                    None => {},
                }
                return split_csv(a.as_str());
            }
        },
        None => {},
    }
    match node.assignment_handler() {
        Some(_) => match handler_answer {
            Some(h) => {
                if !h.is_empty() {
                    return split_csv(h);
                }
            },
            None => {},
        },
        None => {},
    }
    match node.candidate_users() {
        Some(u) => split_csv(u.as_str()),
        None => {
            let v: Vec<String> = Vec::new();
            assert(views(v@) =~= Seq::<Seq<char>>::empty());
            v
        },
    }
}

/// Text of a carbon-copy item: texts as they are, numbers as integers (rounded toward zero,
/// saturated), booleans as `true` / `false`; anything else is skipped.
pub open spec fn cc_item_text(v: JView) -> Option<Seq<char>> {
    match v {
        JView::Str(s) => Some(s),
        JView::Number(m, sc) => Some(int_text(saturate_i64(trunc_decimal(m, sc)) as int)),
        JView::Bool(b) => Some(if b { "true"@ } else { "false"@ }),
        _ => None,
    }
}

pub open spec fn cc_items(items: Seq<JView>) -> Seq<Seq<char>>
    decreases items.len(),
{
    if items.len() == 0 {
        Seq::empty()
    } else {
        let prev = cc_items(items.drop_last());
        match cc_item_text(items.last()) {
            Some(t) => if t.len() > 0 { prev.push(t) } else { prev },
            None => prev,
        }
    }
}

/// The carbon-copy recipients a step names: an array of scalars, or a comma-separated text.
pub open spec fn cc_actors_of(v: Option<JView>) -> Seq<Seq<char>> {
    match v {
        Some(JView::Array(items)) => cc_items(items),
        Some(JView::Str(s)) => csv_items(s),
        _ => Seq::empty(),
    }
}

/// The carbon-copy recipients of a step.
pub fn parse_cc_actors(v: Option<&JsonValue>) -> (r: Vec<String>)
    ensures
        views(r@) == cc_actors_of(match v {
            Some(x) => Some(jview(*x)),
            None => None,
        }),
{
    match v {
        None => {
            let out: Vec<String> = Vec::new();
            assert(views(out@) =~= Seq::<Seq<char>>::empty());
            out
        },
        Some(x) => match x {
            JsonValue::Array(items) => {
                proof {
                    lemma_jview_list(items@);
                }
                let ghost jl = jview_list(items@);
                let mut out: Vec<String> = Vec::new();
                let mut i: usize = 0;
                while i < items.len()
                    invariant
                        0 <= i <= items.len(),
                        jl == jview_list(items@),
                        jl.len() == items@.len(),
                        forall|j: int| 0 <= j < items@.len() ==> #[trigger] jl[j] == jview(items@[j]),
                        views(out@) == cc_items(jl.take(i as int)),
                    decreases items.len() - i,
                {
                    assert(jl.take(i + 1).drop_last() =~= jl.take(i as int));
                    assert(jl.take(i + 1).last() == jview(items@[i as int]));
                    let t: Option<String> = match &items[i] {
                        JsonValue::Str(s) => Some(s.clone()),
                        JsonValue::Number(n) => Some(crate::text::i64_text(crate::json::number_as_i64(*n))),
                        JsonValue::Bool(b) => Some(if *b { owned("true") } else { owned("false") }),
                        _ => None,
                    };
                    proof {
                        reveal_strlit("true");
                        reveal_strlit("false");
                    }
                    assert(opt_view(t) == cc_item_text(jl[i as int]));
                    match t {
                        Some(t) => {
                            if !t.as_str().is_empty() {
                                let ghost before = out@;
                                out.push(t);
                                assert(views(out@) =~= views(before).push(t@));
                            }
                        },
                        None => {},
                    }
                    i = i + 1;
                }
                assert(jl.take(items.len() as int) =~= jl);
                out
            },
            JsonValue::Str(s) => split_csv(s.as_str()),
            _ => {
                let out: Vec<String> = Vec::new();
                assert(views(out@) =~= Seq::<Seq<char>>::empty());
                out
            },
        },
    }
}


// ═══════════════════════ step helpers ═══════════════════════

/// The submit type a step carries (`submitType`, as a number or a text of one).
pub open spec fn submit_type_spec(args: FlowData) -> Option<i64> {
    match args.lookup("submitType"@) {
        Some(v) => jview_as_i64(v),
        None => None,
    }
}

/// The submit type of a step (see `submit_type_spec`).
pub fn submit_type_of(args: &FlowData) -> (r: Option<i64>)
    ensures
        r == submit_type_spec(*args),
{
    match args.get_i64("submitType") {
        Some(n) => Some(n),
        None => match args.get_str("submitType") {
            Some(s) => crate::text::parse_i64(s),
            None => None,
        },
    }
}

/// A countersign type naming the one-after-another kind (`SEQUENTIAL` or `SERIAL`, in any case).
pub open spec fn is_sequential_spec(cs_type: Seq<char>) -> bool {
    upper_text(cs_type) == "SEQUENTIAL"@ || upper_text(cs_type) == "SERIAL"@
}

/// Whether a countersign type is one-after-another (see `is_sequential_spec`).
pub fn is_sequential_type(cs_type: &str) -> (r: bool)
    ensures
        r == is_sequential_spec(cs_type@),
{
    let u = to_upper(cs_type);
    str_eq(u.as_str(), "SEQUENTIAL") || str_eq(u.as_str(), "SERIAL")
}

/// The truth of what an expression evaluator answered: a boolean as it is, a number when not
/// zero, a text unless empty, `false` or `0`; anything else, and an error, is false.
pub open spec fn evaluator_truth_spec(v: JView) -> bool {
    match v {
        JView::Bool(b) => b,
        JView::Number(m, sc) => m != 0,
        JView::Str(t) => t.len() > 0 && t != "false"@ && t != "0"@,
        _ => false,
    }
}

/// The truth of an expression evaluator's answer (see `evaluator_truth_spec`).
pub fn evaluator_truth(answer: &JeeflowResult<JsonValue>) -> (r: bool)
    ensures
        r == match answer {
            Ok(v) => evaluator_truth_spec(jview(*v)),
            Err(_) => false,
        },
{
    match answer {
        Ok(JsonValue::Bool(b)) => *b,
        Ok(JsonValue::Number(n)) => n.mantissa != 0,
        Ok(JsonValue::Str(t)) => !t.as_str().is_empty() && !str_eq(t.as_str(), "false") && !str_eq(t.as_str(), "0"),
        _ => false,
    }
}

/// Keys a revived task does not take over from the row it revives: the last submission's
/// control and countersign bookkeeping.
pub open spec fn lineage_dropped(k: Seq<char>) -> bool {
    ||| k == "submitType"@
    ||| k == "taskName"@
    ||| starts_with(k, "tf_"@)
    ||| starts_with(k, "csv_"@)
    ||| starts_with(k, "loopCounter"@)
    ||| starts_with(k, "nrOfInstances"@)
    ||| starts_with(k, "operatorList"@)
}

fn is_lineage_dropped(k: &str) -> (r: bool)
    ensures
        r == lineage_dropped(k@),
{
    str_eq(k, "submitType") || str_eq(k, "taskName") || has_prefix(k, "tf_") || has_prefix(k, "csv_")
        || has_prefix(k, "loopCounter") || has_prefix(k, "nrOfInstances") || has_prefix(k, "operatorList")
}

proof fn lemma_lookup_push(es: Seq<(Seq<char>, JView)>, p: (Seq<char>, JView), q: Seq<char>)
    ensures
        entry_lookup(es.push(p), q) == if entry_lookup(es, q) is Some {
            entry_lookup(es, q)
        } else if p.0 == q {
            Some(p.1)
        } else {
            None
        },
    decreases es.len(),
{
    reveal_with_fuel(entry_lookup, 2);
    if es.len() > 0 {
        assert(es.push(p).drop_first() =~= es.drop_first().push(p));
        assert(es.push(p)[0] == es[0]);
        lemma_lookup_push(es.drop_first(), p, q);
    } else {
        assert(es.push(p).drop_first() =~= Seq::<(Seq<char>, JView)>::empty());
        assert(es.push(p)[0] == p);
    }
}

/// The variables a revived task keeps (see `lineage_dropped`).
pub fn lineage_vars(vars: &FlowData) -> (r: FlowData)
    ensures
        forall|q: Seq<char>| #[trigger] r.lookup(q) == if lineage_dropped(q) {
            None
        } else {
            vars.lookup(q)
        },
{
    let es = vars.entries();
    proof {
        lemma_jview_entries(es@);
    }
    let ghost kv = vars.kv();
    let mut out = FlowData::new();
    let mut i: usize = 0;
    while i < es.len()
        invariant
            kv == vars.kv(),
            jview_entries(es@) == kv,
            kv.len() == es@.len(),
            forall|j: int| 0 <= j < es@.len() ==> #[trigger] kv[j] == (es@[j].0@, jview(es@[j].1)),
            crate::json::distinct_keys(kv),
            i <= es.len(),
            forall|q: Seq<char>| #[trigger] out.lookup(q) == if lineage_dropped(q) {
                None
            } else {
                entry_lookup(kv.take(i as int), q)
            },
        decreases es.len() - i,
    {
        let k = &es[i].0;
        let ghost pi = kv[i as int];
        assert(kv.take(i + 1) =~= kv.take(i as int).push(pi));
        proof {
            assert forall|j: int| 0 <= j < kv.take(i as int).len() implies kv.take(i as int)[j].0 != pi.0 by {
                assert(kv.take(i as int)[j] == kv[j]);
            }
            crate::json::lemma_entry_lookup_none(kv.take(i as int), pi.0);
        }
        if !is_lineage_dropped(k.as_str()) {
            out.insert(k.clone(), es[i].1.dup());
        }
        proof {
            assert forall|q: Seq<char>| #[trigger] out.lookup(q) == if lineage_dropped(q) {
                None
            } else {
                entry_lookup(kv.take(i + 1), q)
            } by {
                lemma_lookup_push(kv.take(i as int), pi, q);
            }
        }
        i = i + 1;
    }
    proof {
        assert(kv.take(es.len() as int) =~= kv);
    }
    out
}

// ─────────────── rejecting back to the previous step ───────────────

/// Whether the backward walk from the edges `ins[i..]` reaches the node `parent`: an edge
/// from `parent` reaches it; the walk goes on through the inputs of any other source node
/// except a fork, join, sub-process or start node.
pub open spec fn reject_reach(m: ProcessModel, ins: Seq<EdgeModel>, i: int, parent: Seq<char>, fuel: nat) -> bool
    decreases fuel, ins.len() - i,
{
    if i < 0 || i >= ins.len() {
        false
    } else {
        let src = ins[i].source_node_id@;
        let node = opt_at(m.nodes@, first_where(m.nodes@, has_id(src)));
        if src == parent {
            true
        } else {
            let deeper = match node {
                Some(n) => !(n.node_type == NodeType::Fork || n.node_type == NodeType::Join
                    || n.node_type == NodeType::SubProcess || n.node_type == NodeType::Start)
                    && fuel > 0 && reject_reach(m, filter_where(m.edges@, to_node(src)), 0, parent, (fuel - 1) as nat),
                None => false,
            };
            deeper || reject_reach(m, ins, i + 1, parent, fuel)
        }
    }
}

/// Whether a task at node `current` may be sent back to the earlier task at node `parent`:
/// not onto a countersign task node, and only along a backward walk that crosses no fork,
/// join, sub-process or start node (the walk goes at most as deep as the model has nodes).
pub open spec fn can_rejected_spec(m: ProcessModel, current: Seq<char>, parent: Seq<char>) -> bool {
    let pn = opt_at(m.nodes@, first_where(m.nodes@, has_id(parent)));
    let countersign_task = match pn {
        Some(n) => n.node_type == NodeType::Task && perform_type_of(n.properties) == 1,
        None => false,
    };
    !countersign_task && reject_reach(m, filter_where(m.edges@, to_node(current)), 0, parent, m.nodes@.len())
}

fn reject_reach_exec(m: &ProcessModel, ins: &Vec<&EdgeModel>, i: usize, parent: &str, fuel: usize) -> (r: bool)
    ensures
        r == reject_reach(*m, deref_seq(ins@), i as int, parent@, fuel as nat),
    decreases fuel, ins.len() - i,
{
    if i >= ins.len() {
        return false;
    }
    let e = ins[i];
    assert(deref_seq(ins@)[i as int] == *e);
    let src = e.source_node_id.as_str();
    if str_eq(src, parent) {
        return true;
    }
    let deeper = match m.get_node(src) {
        Some(n) => {
            let blocked = match n.node_type {
                NodeType::Fork => true,
                NodeType::Join => true,
                NodeType::SubProcess => true,
                NodeType::Start => true,
                _ => false,
            };
            if blocked || fuel == 0 {
                false
            } else {
                let next = m.get_input_edges(src);
                reject_reach_exec(m, &next, 0, parent, fuel - 1)
            }
        },
        None => false,
    };
    if deeper {
        true
    } else {
        reject_reach_exec(m, ins, i + 1, parent, fuel)
    }
}

/// Whether a task may be sent back to an earlier task (see `can_rejected_spec`).
pub fn can_rejected(m: &ProcessModel, current: &str, parent: &str) -> (r: bool)
    ensures
        r == can_rejected_spec(*m, current@, parent@),
{
    let countersign_task = match m.get_node(parent) {
        Some(n) => n.node_type == NodeType::Task && n.perform_type() == 1,
        None => false,
    };
    if countersign_task {
        return false;
    }
    let ins = m.get_input_edges(current);
    reject_reach_exec(m, &ins, 0, parent, m.nodes.len())
}

pub open spec fn no_lineage_msg() -> Seq<char> {
    "20010007: 上一步任务ID为空，无法驳回至上一步处理"@
}

pub open spec fn reject_guard_msg() -> Seq<char> {
    "20010008: 无法驳回至上一步处理，请确认上一步骤并非fork、join、suprocess以及会签任务"@
}

/// The row a step back revives, if the current task has an earlier row to go back to.
pub open spec fn lineage_parent(current: Option<TaskView>, tasks: Seq<TaskView>) -> Option<TaskView> {
    match current {
        Some(c) => match c.parent_task_id {
            Some(p) => if p != 0 && task_index(tasks, p) >= 0 {
                Some(tasks[task_index(tasks, p)])
            } else {
                None
            },
            None => None,
        },
        None => None,
    }
}

/// Was the row written by the first task node (recorded on the row)?
pub open spec fn first_row(h: TaskView) -> bool {
    entry_lookup(h.variables, "isFirstTaskNode"@) == Some(JView::Bool(true))
}

/// Who the revived task goes to: for the first task node's row the user recorded on it (else
/// the instance's initiator); for any other row whoever finished it.
pub open spec fn revived_actor(h: TaskView, initiator: Seq<char>) -> Option<Seq<char>> {
    if first_row(h) {
        match entry_lookup(h.variables, "u_userId"@) {
            Some(JView::Str(u)) => Some(u),
            _ => Some(initiator),
        }
    } else {
        h.actor_id
    }
}

/// What sending a task back gives: the revived row, or the error (see `revive_parent`).
pub open spec fn revive_outcome(current: Option<ProcessTask>, instance: ProcessInstance, m: ProcessModel, r: JeeflowResult<ProcessTask>) -> bool {
    ({
            let cur = match current {
                Some(c) => Some(c@),
                None => None,
            };
            match lineage_parent(cur, instance@.tasks) {
                None => r matches Err(JeeflowError::Business(msg)) && msg@ == no_lineage_msg(),
                Some(h) => if !can_rejected_spec(m, cur.unwrap().task_name, h.task_name) {
                    r matches Err(JeeflowError::Business(msg)) && msg@ == reject_guard_msg()
                } else {
                    match revived_actor(h, instance@.operator) {
                        None => r matches Err(JeeflowError::Business(msg)) && msg@ == no_lineage_msg(),
                        Some(a) => r matches Ok(t) && t@ == (TaskView {
                            task_id: 0,
                            task_state: TASK_DOING,
                            actor_id: None,
                            actor_ids: seq![a],
                            finish_time: None,
                            variables: t@.variables,
                            ..h
                        }) && forall|q: Seq<char>| #[trigger] t.variables.lookup(q) == if q == "isFirstTaskNode"@ {
                            Some(JView::Bool(first_row(h)))
                        } else if lineage_dropped(q) {
                            None
                        } else {
                            entry_lookup(h.variables, q)
                        },
                    }
                }
            }
        })
}

/// Send a task back to the row it came from: a new DOING row copying that row (same node,
/// same parent), assigned to `revived_actor`, with the kept variables and the first-row mark.
pub fn revive_parent(
    current: &Option<ProcessTask>,
    instance: &ProcessInstance,
    m: &ProcessModel,
) -> (r: JeeflowResult<ProcessTask>)
    ensures
        revive_outcome(*current, *instance, *m, r),

{
    let c = match current {
        Some(c) => c,
        None => {
            return Err(JeeflowError::Business(owned("20010007: 上一步任务ID为空，无法驳回至上一步处理")));
        },
    };
    let parent_id = match c.parent_task_id {
        Some(p) => {
            if p == 0 {
                return Err(JeeflowError::Business(owned("20010007: 上一步任务ID为空，无法驳回至上一步处理")));
            }
            p
        },
        None => {
            return Err(JeeflowError::Business(owned("20010007: 上一步任务ID为空，无法驳回至上一步处理")));
        },
    };
    let idx = match instance.find_task(parent_id) {
        Some(i) => i,
        None => {
            return Err(JeeflowError::Business(owned("20010007: 上一步任务ID为空，无法驳回至上一步处理")));
        },
    };
    proof {
        crate::model::lemma_task_index(instance@.tasks, parent_id);
    }
    let history = &instance.tasks[idx];
    assert(instance@.tasks[idx as int] == history@);
    if !can_rejected(m, c.task_name.as_str(), history.task_name.as_str()) {
        return Err(JeeflowError::Business(owned(
            "20010008: 无法驳回至上一步处理，请确认上一步骤并非fork、join、suprocess以及会签任务",
        )));
    }
    let is_first_row = match history.variables.get("isFirstTaskNode") {
        Some(JsonValue::Bool(b)) => *b,
        _ => false,
    };
    let operator: String = if is_first_row {
        match history.variables.get_str("u_userId") {
            Some(u) => owned(u),
            None => instance.operator.clone(),
        }
    } else {
        match &history.actor_id {
            Some(a) => a.clone(),
            None => {
                return Err(JeeflowError::Business(owned("20010007: 上一步任务ID为空，无法驳回至上一步处理")));
            },
        }
    };
    let mut vars = lineage_vars(&history.variables);
    vars.insert(owned("isFirstTaskNode"), JsonValue::Bool(is_first_row));
    let mut revived = history.dup();
    revived.task_id = 0;
    revived.task_state = TASK_DOING;
    revived.actor_id = None;
    revived.actor_ids = vec![operator];
    revived.finish_time = None;
    revived.variables = vars;
    assert(views(revived.actor_ids@) =~= seq![operator@]);
    Ok(revived)
}


// ─────────────── checks before a task is worked ───────────────

pub open spec fn not_doing_msg(task_id: i64) -> Seq<char> {
    "Task "@ + int_text(task_id as int) + " is not DOING"@
}

pub open spec fn not_allowed_msg(operator: Seq<char>, task_id: i64) -> Seq<char> {
    "Operator "@ + operator + " not allowed on task "@ + int_text(task_id as int)
}

/// The task a lookup found, or `TaskNotFound`.
pub fn found_task(found: Option<ProcessTask>, task_id: i64) -> (r: JeeflowResult<ProcessTask>)
    ensures
        match found {
            Some(t) => r == Ok::<ProcessTask, JeeflowError>(t),
            None => r == Err::<ProcessTask, JeeflowError>(JeeflowError::TaskNotFound(task_id)),
        },
{
    match found {
        Some(t) => Ok(t),
        None => Err(JeeflowError::TaskNotFound(task_id)),
    }
}

/// Only a DOING task can be worked.
pub fn require_doing(task: &ProcessTask, task_id: i64) -> (r: JeeflowResult<()>)
    ensures
        task.task_state == TASK_DOING ==> r is Ok,
        task.task_state != TASK_DOING ==> (r matches Err(JeeflowError::InvalidState(m)) && m@ == not_doing_msg(task_id)),
{
    if task.task_state != TASK_DOING {
        let mut m = owned("Task ");
        push_str(&mut m, i64_text(task_id).as_str());
        push_str(&mut m, " is not DOING");
        proof {
            reveal_strlit("Task ");
            reveal_strlit(" is not DOING");
        }
        assert(m@ =~= not_doing_msg(task_id));
        return Err(JeeflowError::InvalidState(m));
    }
    Ok(())
}

/// Only an operator the task allows can work it.
pub fn permission_check(task: &ProcessTask, operator: &str, task_id: i64) -> (r: JeeflowResult<()>)
    ensures
        task_allows(task@, operator@) ==> r is Ok,
        !task_allows(task@, operator@) ==> (r matches Err(JeeflowError::PermissionDenied(m))
            && m@ == not_allowed_msg(operator@, task_id)),
{
    if !task.is_allowed(operator) {
        let mut m = owned("Operator ");
        push_str(&mut m, operator);
        push_str(&mut m, " not allowed on task ");
        push_str(&mut m, i64_text(task_id).as_str());
        assert(m@ =~= not_allowed_msg(operator@, task_id));
        return Err(JeeflowError::PermissionDenied(m));
    }
    Ok(())
}

/// What a countersign node does once one of its tasks is finished.
#[derive(Debug, Clone, Copy, PartialEq, Eq, Structural)]
pub enum GateStep {
    /// The node is done: abandon its remaining tasks and go on.
    Merge,
    /// One-after-another: hand the node to the next operator in the list.
    NextInSequence,
    /// Wait for more of the node's tasks.
    Wait,
}

/// The countersign gate: a veto merges; a one-after-another node passes to the next operator
/// while one is left (`counter + 1 < n_operators`); otherwise an expression condition, else
/// the finishing of every task, decides.
pub open spec fn gate_step_spec(
    veto_hit: bool,
    is_sequential: bool,
    counter: i64,
    n_operators: usize,
    has_expr: bool,
    cond_holds: bool,
    all_finished: bool,
) -> GateStep {
    if veto_hit {
        GateStep::Merge
    } else if is_sequential {
        if 0 <= counter && counter + 1 < n_operators {
            GateStep::NextInSequence
        } else {
            GateStep::Merge
        }
    } else if has_expr {
        if cond_holds {
            GateStep::Merge
        } else {
            GateStep::Wait
        }
    } else if all_finished {
        GateStep::Merge
    } else {
        GateStep::Wait
    }
}

/// The countersign gate (see `gate_step_spec`).
pub fn gate_step(
    veto_hit: bool,
    is_sequential: bool,
    counter: i64,
    n_operators: usize,
    has_expr: bool,
    cond_holds: bool,
    all_finished: bool,
) -> (r: GateStep)
    ensures
        r == gate_step_spec(veto_hit, is_sequential, counter, n_operators, has_expr, cond_holds, all_finished),
{
    if veto_hit {
        GateStep::Merge
    } else if is_sequential {
        if 0 <= counter && (counter as u128) + 1 < (n_operators as u128) {
            GateStep::NextInSequence
        } else {
            GateStep::Merge
        }
    } else if has_expr {
        if cond_holds {
            GateStep::Merge
        } else {
            GateStep::Wait
        }
    } else if all_finished {
        GateStep::Merge
    } else {
        GateStep::Wait
    }
}

/// The process name surrogates are looked up by: the model's name, unless blank, else the
/// define's name.
pub fn surrogate_process_name(model: &ProcessModel, define: &ProcessDefine) -> (r: String)
    ensures
        r@ == if trim(model.name@).len() > 0 {
            model.name@
        } else {
            define.name@
        },
{
    let t = trim_str(model.name.as_str());
    if !t.as_str().is_empty() {
        model.name.clone()
    } else {
        define.name.clone()
    }
}

} // verus!
