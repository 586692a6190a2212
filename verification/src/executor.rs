//! The engine itself: starting instances and working tasks over the services of a context.
//!
//! Each operation loads what it needs from the store, decides with the verified step
//! functions of `engine` and `eval`, and writes the outcome back.

use vstd::prelude::*;
use crate::clock::current_time_str;
use crate::context::ServiceContext;
use crate::engine::{
    add_user_info, evaluator_truth, found_task, gate_step, gen_auto_title, is_sequential_type, parse_cc_actors,
    permission_check, require_doing, resolve_assignee, revive_parent, submit_type_of, surrogate_process_name,
    Execution, GateStep,
};
use crate::error::{JeeflowError, JeeflowResult};
use crate::eval::simple_eval;
use crate::event::{ProcessEvent, ProcessEventType, ProcessPublisher};
use crate::json::{FlowData, JsonValue};
use crate::model::{
    clone_strings, is_super_operator, task_allows, PerformType, ProcessInstance, ProcessTask, TaskType, TaskView, TASK_ABANDON,
    TASK_DOING,
};
use crate::parser::{deref_seq, filter_where, first_where, from_node, has_id, opt_at, EdgeModel, ModelParser, NodeModel, NodeType, ProcessModel};
use crate::spi::{lemma_writes_extend_trans, writes_extend, IdGenerator, ProcessExtRepository, ProcessRepository};
use crate::surrogate::apply_surrogate_to_task;
use crate::text::{join_with, owned, push_str, split_csv, str_eq, str_eq_ignore_ascii_case, trim_str};

verus! {

/// How deep one step may descend through nodes that create no task.
pub const NODE_DEPTH_LIMIT: usize = 512;

/// Where a jump goes.
pub enum JumpTarget {
    /// The node with this id.
    Node(String),
    /// The first task node (back to the initiator).
    FirstTaskNode,
    /// The row the current task came from (one step back).
    RollbackLineage,
}

/// The engine over a context of services.
pub struct JeeflowEngineImpl<R, G> {
    pub ctx: ServiceContext<R, G>,
    /// The tasks worked so far, each with its operator and the arguments it was worked with.
    pub steps: Ghost<Seq<(i64, Seq<char>, FlowData)>>,
}

/// Whether working task `task_id` as `operator` gets past every check the engine makes before
/// it writes: the task is stored (and DOING, where `need_doing`), its instance and define are
/// stored, the define's content reads as a model (where `need_parse`), and the operator may
/// work the task.
pub open spec fn checks_pass<R: ProcessRepository>(repo: R, task_id: i64, operator: Seq<char>, need_doing: bool, need_parse: bool) -> bool {
    match repo.stored_task(task_id) {
        None => false,
        Some(t) => {
            &&& !need_doing || t.task_state == TASK_DOING
            &&& match repo.stored_instance(t.process_instance_id) {
                None => false,
                Some(i) => match repo.stored_define(i.define_id) {
                    None => false,
                    Some(d) => !need_parse || crate::json_parse::json_read(crate::model::lossy_text(d.content)) is Some,
                },
            }
            &&& task_allows(t, operator)
        },
    }
}

/// The error the first failing check gives (see `checks_pass`).
pub open spec fn check_error<R: ProcessRepository>(
    repo: R,
    task_id: i64,
    operator: Seq<char>,
    need_doing: bool,
    need_parse: bool,
    r: JeeflowResult<Vec<ProcessTask>>,
) -> bool {
    match repo.stored_task(task_id) {
        None => r == Err::<Vec<ProcessTask>, JeeflowError>(JeeflowError::TaskNotFound(task_id)),
        Some(t) => if need_doing && t.task_state != TASK_DOING {
            r matches Err(JeeflowError::InvalidState(m)) && m@ == crate::engine::not_doing_msg(task_id)
        } else {
            match repo.stored_instance(t.process_instance_id) {
                None => r == Err::<Vec<ProcessTask>, JeeflowError>(JeeflowError::InstanceNotFound(t.process_instance_id)),
                Some(i) => match repo.stored_define(i.define_id) {
                    None => r == Err::<Vec<ProcessTask>, JeeflowError>(JeeflowError::DefineNotFound(i.define_id)),
                    Some(d) => if need_parse && crate::json_parse::json_read(crate::model::lossy_text(d.content)) is None {
                        r matches Err(JeeflowError::ParseError(_))
                    } else {
                        r matches Err(JeeflowError::PermissionDenied(m)) && m@ == crate::engine::not_allowed_msg(operator, task_id)
                    },
                },
            }
        },
    }
}

/// The store holds task `task_id` abandoned (state 99) on node `node_id`.
pub open spec fn abandoned_in_store<R: ProcessRepository>(repo: R, task_id: i64, node_id: Seq<char>) -> bool {
    repo.stored_task(task_id) matches Some(u) && u.task_state == TASK_ABANDON && u.task_name == node_id
}

/// `t` is task `task_id` finished (state 20) by `operator`.
pub open spec fn finished_by(t: TaskView, task_id: i64, operator: Seq<char>) -> bool {
    t.task_id == task_id && t.task_state == crate::model::TASK_FINISHED && t.actor_id == Some(operator)
}

/// The first task the step wrote to the store is the worked task, finished by the operator;
/// every later write of the step follows it.
pub open spec fn first_write_finishes<R: ProcessRepository>(before: R, after: R, task_id: i64, operator: Seq<char>) -> bool {
    exists|t: TaskView| #[trigger] finished_by(t, task_id, operator)
        && writes_extend(before.task_writes().push(t), after.task_writes())
}

/// The step wrote the worked task finished by the operator and then only abandoned tasks
/// (state 99).
pub open spec fn finishes_then_abandons<R: ProcessRepository>(before: R, after: R, task_id: i64, operator: Seq<char>) -> bool {
    exists|t: TaskView, w: Seq<TaskView>| #![trigger finished_by(t, task_id, operator), all_abandoned(w)]
        finished_by(t, task_id, operator) && all_abandoned(w)
        && after.task_writes() == before.task_writes().push(t) + w
}

/// Every task in `w` is abandoned (state 99).
pub open spec fn all_abandoned(w: Seq<TaskView>) -> bool {
    forall|k: int| 0 <= k < w.len() ==> (#[trigger] w[k]).task_state == TASK_ABANDON
}

/// The engine's services cannot fail: the store is reliable and no interceptor is set.
pub open spec fn smooth<R: ProcessRepository, G>(e: JeeflowEngineImpl<R, G>) -> bool {
    e.ctx.repository.reliable() && e.ctx.interceptors@.len() == 0
}

/// The one error a step gives with smooth services: a model whose nodes nest deeper than
/// `NODE_DEPTH_LIMIT` without a task.
pub open spec fn nests_too_deeply(e: JeeflowError) -> bool {
    e matches JeeflowError::Internal(m) && m@ == "process model nests too deeply"@
}

/// The copy of task `task_id` that its stored instance holds is doing and may be worked by
/// `operator`.
pub open spec fn history_allows<R: ProcessRepository>(repo: R, task_id: i64, operator: Seq<char>) -> bool {
    repo.stored_task(task_id) matches Some(t) && repo.stored_instance(t.process_instance_id) matches Some(i) && {
        let k = crate::model::task_index(i.tasks, task_id);
        k >= 0 && i.tasks[k].task_state == TASK_DOING && task_allows(i.tasks[k], operator)
    }
}

/// Define `define_id` is stored and its content reads as a model.
pub open spec fn define_readable<R: ProcessRepository>(repo: R, define_id: i64) -> bool {
    repo.stored_define(define_id) matches Some(d) && crate::json_parse::json_read(crate::model::lossy_text(d.content)) is Some
}

/// The lineage parent new tasks get: the task being worked, `0` when starting.
pub open spec fn lineage_of(t: Option<ProcessTask>) -> i64 {
    match t {
        Some(t) => t.task_id,
        None => 0,
    }
}

/// How a new task `t` is stored as `u`: in instance `iid`, with `parent` as its parent when it
/// names none, the first-task-node mark among its variables, and the surrogates in force
/// possibly added to its actors; the store may give it its id.
pub open spec fn persisted_as(t: TaskView, u: TaskView, iid: i64, parent: i64) -> bool {
    &&& u == (TaskView {
        task_id: u.task_id,
        process_instance_id: iid,
        parent_task_id: if t.parent_task_id is None { Some(parent) } else { t.parent_task_id },
        variables: u.variables,
        actor_ids: u.actor_ids,
        ..t
    })
    &&& t.actor_ids.len() <= u.actor_ids.len()
}

/// The tasks a step answers are the last tasks it wrote to the store, in order.
pub open spec fn ends_with_returned<R: ProcessRepository>(after: R, v: Seq<ProcessTask>) -> bool {
    let w = after.task_writes();
    v.len() <= w.len() && w.subrange(w.len() - v.len(), w.len() as int) == crate::model::task_views(v)
}

/// What a step wrote last, after history `a`, is what it answers.
proof fn lemma_ends_with(a: Seq<TaskView>, v: Seq<ProcessTask>)
    ensures
        (a + crate::model::task_views(v)).subrange(a.len() as int, (a + crate::model::task_views(v)).len() as int)
            =~= crate::model::task_views(v),
{
}

/// Every task in `ts` is doing (state 10).
pub open spec fn all_doing(ts: Seq<ProcessTask>) -> bool {
    forall|k: int| 0 <= k < ts.len() ==> (#[trigger] ts[k])@.task_state == TASK_DOING
}

/// Appending doing tasks to doing tasks leaves only doing tasks.
proof fn lemma_doing_appended(old_ts: Seq<ProcessTask>, new_ts: Seq<ProcessTask>)
    requires
        all_doing(old_ts),
        old_ts.len() <= new_ts.len(),
        new_ts.take(old_ts.len() as int) == old_ts,
        forall|k: int| old_ts.len() <= k < new_ts.len() ==> (#[trigger] new_ts[k])@.task_state == TASK_DOING,
    ensures
        all_doing(new_ts),
{
    assert forall|k: int| 0 <= k < new_ts.len() implies (#[trigger] new_ts[k])@.task_state == TASK_DOING by {
        if k < old_ts.len() {
            assert(new_ts[k] == new_ts.take(old_ts.len() as int)[k]);
        }
    }
}

/// The tasks a step answers are doing and belong to the worked task's stored instance.
pub open spec fn returned_doing_in<R: ProcessRepository>(repo: R, task_id: i64, v: Seq<ProcessTask>) -> bool {
    repo.stored_task(task_id) matches Some(t) && repo.stored_instance(t.process_instance_id) matches Some(i)
        && forall|k: int| 0 <= k < v.len() ==> (#[trigger] v[k])@.task_state == TASK_DOING
            && v[k]@.process_instance_id == i.instance_id
}

/// Doing tasks stored by `persisted_as` stay doing and carry the instance id.
proof fn lemma_returned_doing(nt: Seq<ProcessTask>, v: Seq<ProcessTask>, iid: i64, parent: i64)
    requires
        all_doing(nt),
        v.len() == nt.len(),
        forall|k: int| 0 <= k < v.len() ==> persisted_as(#[trigger] nt[k]@, v[k]@, iid, parent),
    ensures
        forall|k: int| 0 <= k < v.len() ==> (#[trigger] v[k])@.task_state == TASK_DOING && v[k]@.process_instance_id == iid,
{
    assert forall|k: int| 0 <= k < v.len() implies (#[trigger] v[k])@.task_state == TASK_DOING && v[k]@.process_instance_id == iid by {
        assert(persisted_as(nt[k]@, v[k]@, iid, parent));
        assert(nt[k]@.task_state == TASK_DOING);
    }
}

/// After the step the store holds the worked task's instance in state `state`.
pub open spec fn instance_left_in<R: ProcessRepository>(before: R, after: R, task_id: i64, state: i32) -> bool {
    before.stored_task(task_id) matches Some(t) && before.stored_instance(t.process_instance_id) matches Some(i0)
        && after.stored_instance(i0.instance_id) matches Some(i) && i.state == state
}

/// A jump worked a task that is stored, that the operator may work, and whose instance is
/// stored.
pub open spec fn worked_task_ok<R: ProcessRepository>(repo: R, task_id: i64, operator: Seq<char>) -> bool {
    repo.stored_task(task_id) matches Some(t) && task_allows(t, operator)
        && repo.stored_instance(t.process_instance_id) is Some
}

/// Whether an edge is the branch taken: it leads to the named target, or, with none named,
/// its expression holds (by the built-in evaluation).
pub open spec fn branch_hits(e: EdgeModel, target: Option<Seq<char>>, args: FlowData, gate: FlowData) -> bool {
    match target {
        Some(t) => e.target_node_id@ == t,
        None => match crate::parser::prop_text(e.properties, "expr"@) {
            Some(x) => crate::eval::simple_eval_spec(x, args, gate),
            None => false,
        },
    }
}

/// The node the first edge that is taken leads to.
pub open spec fn first_branch(
    m: ProcessModel,
    es: Seq<EdgeModel>,
    target: Option<Seq<char>>,
    args: FlowData,
    gate: FlowData,
) -> Option<NodeModel>
    decreases es.len(),
{
    if es.len() == 0 {
        None
    } else if branch_hits(es[0], target, args, gate) {
        target_of(m, es[0])
    } else {
        first_branch(m, es.drop_first(), target, args, gate)
    }
}

pub open spec fn same_opt_node(a: Option<NodeModel>, b: Option<NodeModel>) -> bool {
    match (a, b) {
        (Some(x), Some(y)) => node_same(x, y),
        (None, None) => true,
        _ => false,
    }
}

/// The countersign tallies of node `n` among tasks: how many there are, how many are finished,
/// how many are doing, and whether all are finished.
pub open spec fn gate_counts(ts: Seq<TaskView>, n: Seq<char>) -> (int, int, int, bool)
    decreases ts.len(),
{
    if ts.len() == 0 {
        (0, 0, 0, true)
    } else {
        let c = gate_counts(ts.drop_last(), n);
        let t = ts.last();
        if t.task_name == n {
            let fin = t.task_state == crate::model::TASK_FINISHED;
            (c.0 + 1, c.1 + if fin { 1int } else { 0int }, c.2 + if t.task_state == TASK_DOING { 1int } else { 0int }, c.3 && fin)
        } else {
            c
        }
    }
}

/// Step variable `q` when a task is worked with `args` in an instance whose variables are
/// `vars`: the argument, else the instance variable.
pub open spec fn step_lookup(vars: Seq<(Seq<char>, crate::json::JView)>, args: FlowData, q: Seq<char>) -> Option<crate::json::JView> {
    if args.lookup(q) is Some {
        args.lookup(q)
    } else {
        crate::json::entry_lookup(vars, q)
    }
}

/// Node `n` takes tasks when a step with those variables reaches it: it is a task node, and it
/// names candidates or its actors resolve to someone whatever its assignment handler answers.
pub open spec fn node_takes_tasks(
    n: NodeModel,
    vars: Seq<(Seq<char>, crate::json::JView)>,
    args: FlowData,
    initiator: Seq<char>,
) -> bool {
    &&& (n.node_type == NodeType::Task || n.node_type == NodeType::Custom)
    &&& (crate::parser::prop_text(n.properties, "candidateUsers"@) is Some
        || crate::parser::prop_text(n.properties, "candidateGroups"@) is Some
        || forall|d: FlowData, answer: Option<Seq<char>>|
            (forall|q: Seq<char>| q != "countersignDisagreeFlag"@ ==> #[trigger] d.lookup(q) == step_lookup(vars, args, q))
                ==> #[trigger] crate::engine::resolved_actors(d, n, initiator, answer).len() > 0)
}

/// A jump to node `name` from task `task_id` with `args` lands, in the model its define reads
/// as, on a node with that id that takes tasks.
pub open spec fn jump_lands<R: ProcessRepository>(repo: R, task_id: i64, args: FlowData, name: Seq<char>) -> bool {
    repo.stored_task(task_id) matches Some(t) && repo.stored_instance(t.process_instance_id) matches Some(i)
        && repo.stored_define(i.define_id) matches Some(d)
        && crate::json_parse::json_read(crate::model::lossy_text(d.content)) matches Some(j)
        && forall|m: ProcessModel| #[trigger] crate::parser::model_matches(m, j) ==> {
            let k = crate::parser::first_where(m.nodes@, has_id(name));
            k >= 0 && node_takes_tasks(m.nodes@[k], i.variables, args, i.operator)
        }
}

/// The node a jump mode names, if it names one.
pub open spec fn jump_node_name(mode: JumpTarget) -> Option<Seq<char>> {
    match mode {
        JumpTarget::Node(n) => Some(n@),
        _ => None,
    }
}

/// A node that takes tasks, reached with the step's variables, gets tasks named after it (and
/// only those, from an execution that had none).
proof fn lemma_lands_named(
    e0: Execution,
    e1: Execution,
    n: NodeModel,
    mn: NodeModel,
    a: Seq<Seq<char>>,
    vars: Seq<(Seq<char>, crate::json::JView)>,
    args: FlowData,
)
    requires
        node_same(n, mn),
        node_takes_tasks(mn, vars, args, e0.process_instance.operator@),
        actors_possible(e0, n, a),
        task_creation(e0, e1, n, a, Ok(())),
        e0.new_tasks@.len() == 0,
        forall|q: Seq<char>| q != "countersignDisagreeFlag"@ ==> #[trigger] e0.args.lookup(q) == step_lookup(vars, args, q),
    ensures
        all_named(e1.new_tasks@, n.id@),
{
    let init = e0.process_instance.operator@;
    let answer = choose|answer: Option<Seq<char>>| a == #[trigger] crate::engine::resolved_actors(e0.args, n, init, answer);
    assert(n.properties.lookup("assignee"@) == mn.properties.lookup("assignee"@));
    assert(n.properties.lookup("assignmentHandler"@) == mn.properties.lookup("assignmentHandler"@));
    assert(n.properties.lookup("candidateUsers"@) == mn.properties.lookup("candidateUsers"@));
    assert(n.properties.lookup("candidateGroups"@) == mn.properties.lookup("candidateGroups"@));
    assert(crate::engine::resolved_actors(e0.args, n, init, answer) == crate::engine::resolved_actors(e0.args, mn, init, answer));
    let old_n = e0.new_tasks@.len();
    assert forall|k: int| 0 <= k < e1.new_tasks@.len() implies (#[trigger] e1.new_tasks@[k])@.task_name == n.id@ by {
        if crate::parser::perform_type_of(n.properties) == 1 && !gate_is_seq(n) {
            assert(e1.new_tasks@[old_n + k]@.actor_ids == seq![a[k]]);
        }
    }
}

/// Tasks stored as `persisted_as` keep their names.
proof fn lemma_returned_named(nt: Seq<ProcessTask>, v: Seq<ProcessTask>, iid: i64, parent: i64, name: Seq<char>)
    requires
        all_named(nt, name),
        v.len() == nt.len(),
        forall|k: int| 0 <= k < v.len() ==> persisted_as(#[trigger] nt[k]@, v[k]@, iid, parent),
    ensures
        all_named(v, name),
{
    assert forall|k: int| 0 <= k < v.len() implies (#[trigger] v[k])@.task_name == name by {
        assert(persisted_as(nt[k]@, v[k]@, iid, parent));
        assert(nt[k]@.task_name == name);
    }
}

/// Every task in `ts` is named `name`.
pub open spec fn all_named(ts: Seq<ProcessTask>, name: Seq<char>) -> bool {
    forall|k: int| 0 <= k < ts.len() ==> (#[trigger] ts[k])@.task_name == name
}

/// The tasks of node `n`.
pub open spec fn of_node(n: Seq<char>) -> spec_fn(TaskView) -> bool {
    |t: TaskView| t.task_name == n
}

/// The tasks of node `n` in state `st`.
pub open spec fn of_node_in(n: Seq<char>, st: i32) -> spec_fn(TaskView) -> bool {
    |t: TaskView| t.task_name == n && t.task_state == st
}

/// The countersign tallies count what they name: the node's tasks, those of them finished,
/// those of them doing; and all are finished exactly when none of the node's tasks is not.
pub proof fn law_gate_counts(ts: Seq<TaskView>, n: Seq<char>)
    ensures
        gate_counts(ts, n).0 == ts.filter(of_node(n)).len(),
        gate_counts(ts, n).1 == ts.filter(of_node_in(n, crate::model::TASK_FINISHED)).len(),
        gate_counts(ts, n).2 == ts.filter(of_node_in(n, TASK_DOING)).len(),
        gate_counts(ts, n).3 <==> (forall|k: int| 0 <= k < ts.len() && (#[trigger] ts[k]).task_name == n
            ==> ts[k].task_state == crate::model::TASK_FINISHED),
    decreases ts.len(),
{
    reveal_with_fuel(Seq::filter, 1);
    if ts.len() > 0 {
        law_gate_counts(ts.drop_last(), n);
        let d = ts.drop_last();
        assert forall|k: int| 0 <= k < d.len() implies #[trigger] d[k] == ts[k] by {}
        if gate_counts(ts, n).3 {
            assert forall|k: int| 0 <= k < ts.len() && (#[trigger] ts[k]).task_name == n
                implies ts[k].task_state == crate::model::TASK_FINISHED by {
                if k < d.len() {
                    assert(d[k] == ts[k]);
                }
            }
        } else {
            if !gate_counts(d, n).3 {
                let k = choose|k: int| 0 <= k < d.len() && (#[trigger] d[k]).task_name == n
                    && d[k].task_state != crate::model::TASK_FINISHED;
                assert(ts[k] == d[k]);
            } else {
                assert(ts[ts.len() - 1] == ts.last());
            }
        }
    }
}

/// A countersign node's completion condition, trimmed.
pub open spec fn gate_cond(node: NodeModel) -> Option<Seq<char>> {
    match crate::parser::prop_text(node.properties, "countersignCompletionCondition"@) {
        Some(c) => Some(crate::text::trim(c)),
        None => None,
    }
}

pub open spec fn gate_is_veto(node: NodeModel) -> bool {
    gate_cond(node) matches Some(c) && crate::text::eq_ignore_ascii_case(c, "ONE_VOTE_VETO"@)
}

pub open spec fn gate_has_expr(node: NodeModel) -> bool {
    gate_cond(node) matches Some(c) && c.len() > 0 && !gate_is_veto(node)
}

pub open spec fn gate_is_seq(node: NodeModel) -> bool {
    crate::engine::is_sequential_spec(crate::parser::or_text(crate::parser::prop_text(node.properties, "countersignType"@), "PARALLEL"@))
}

/// The operator list a one-after-another node keeps in the instance variables.
pub open spec fn gate_operators(vars: FlowData, node: NodeModel) -> Seq<Seq<char>> {
    crate::text::csv_items(match vars.lookup("csv_"@ + node.id@ + "_operatorList"@) {
        Some(crate::json::JView::Str(t)) => t,
        _ => Seq::empty(),
    })
}

/// The position in that list a one-after-another node has reached.
pub open spec fn gate_counter(vars: FlowData, node: NodeModel) -> i64 {
    match vars.lookup("csv_"@ + node.id@ + "_loopCounter"@) {
        Some(v) => match crate::json::jview_as_i64(v) {
            Some(n) => n,
            None => 0,
        },
        None => 0,
    }
}

/// The step a countersign node takes once one of its tasks is finished, given whether its
/// completion expression holds.
pub open spec fn gate_of(exec: Execution, node: NodeModel, submit_type: Option<i64>, cond_holds: bool) -> GateStep {
    let c = gate_counts(exec.process_instance@.tasks, node.id@);
    crate::engine::gate_step_spec(
        submit_type == Some(20i64) && gate_is_veto(node),
        gate_is_seq(node),
        gate_counter(exec.process_instance.variables, node),
        gate_operators(exec.process_instance.variables, node).len() as usize,
        gate_has_expr(node),
        cond_holds,
        c.3,
    )
}

/// Changing tasks at and after the first one with an id, keeping that one's id, keeps where
/// the id is first found.
proof fn lemma_ids_keep_index(a: Seq<TaskView>, b: Seq<TaskView>, id: i64, i: int)
    requires
        i == crate::model::task_index(a, id),
        0 <= i < a.len(),
        a.len() == b.len(),
        b[i].task_id == id,
        forall|j: int| 0 <= j < i ==> #[trigger] b[j].task_id == a[j].task_id,
    ensures
        crate::model::task_index(b, id) == i,
{
    crate::model::lemma_task_index(a, id);
    crate::model::lemma_task_index(b, id);
    let k = crate::model::task_index(b, id);
    if k >= 0 && k < i {
        assert(b[k].task_id == a[k].task_id);
    }
}

/// A disagreeing vote (submit type 20) on a one-vote-veto countersign node merges the node at
/// once, whatever the other tasks and the tallies.
pub proof fn law_veto_merges(exec: Execution, node: NodeModel, cond_holds: bool)
    requires
        gate_is_veto(node),
    ensures
        gate_of(exec, node, Some(20i64), cond_holds) == GateStep::Merge,
{
}

/// A node without a one-vote veto takes the same countersign step for submit type 20 as for
/// every other submit type.
pub proof fn law_disagree_is_soft(exec: Execution, node: NodeModel, cond_holds: bool, other: Option<i64>)
    requires
        !gate_is_veto(node),
    ensures
        gate_of(exec, node, Some(20i64), cond_holds) == gate_of(exec, node, other, cond_holds),
{
}

/// Whether `a` can be a task node's actors: what `resolve_assignee` makes of the execution
/// and some answer of the node's assignment handler.
pub open spec fn actors_possible(exec: Execution, node: NodeModel, a: Seq<Seq<char>>) -> bool {
    exists|answer: Option<Seq<char>>| a == #[trigger] crate::engine::resolved_actors(exec.args, node, exec.process_instance.operator@, answer)
}

/// The tasks a task node creates for actors `a`: with no actors and no candidates, none here
/// (the execution goes on along the node's outputs); on a one-after-another countersign node
/// one task for the first actor, with the operator list and a zero counter kept in the
/// instance variables; on another countersign node one task per actor; else one task for
/// all of them. Each new task is DOING and named by the node.
pub open spec fn task_creation(e0: Execution, e1: Execution, node: NodeModel, a: Seq<Seq<char>>, r: JeeflowResult<()>) -> bool {
    let props = node.properties;
    let no_cand = crate::parser::prop_text(props, "candidateUsers"@) is None
        && crate::parser::prop_text(props, "candidateGroups"@) is None;
    let cs = crate::parser::perform_type_of(props) == 1;
    let old_n = e0.new_tasks@.len();
    let fresh = |k: int| e1.new_tasks@[k]@.task_name == node.id@ && e1.new_tasks@[k]@.task_state == TASK_DOING;
    if a.len() == 0 && no_cand {
        true
    } else if cs && gate_is_seq(node) {
        if a.len() == 0 {
            r is Ok && e1 == e0
        } else {
            &&& r is Ok
            &&& e1.new_tasks@.len() == old_n + 1
            &&& e1.new_tasks@.take(old_n as int) == e0.new_tasks@
            &&& fresh(old_n as int) && e1.new_tasks@[old_n as int]@.actor_ids == seq![a[0]]
            &&& e1.new_tasks@[old_n as int]@.perform_type == 1
            &&& e1.process_instance.variables.lookup("csv_"@ + node.id@ + "_operatorList"@)
                == Some(crate::json::JView::Str(crate::text::join(a, ","@)))
            &&& e1.process_instance.variables.lookup("csv_"@ + node.id@ + "_loopCounter"@)
                == Some(crate::json::JView::Number(0, 0))
        }
    } else if cs {
        &&& r is Ok
        &&& e1.new_tasks@.len() == old_n + a.len()
        &&& e1.new_tasks@.take(old_n as int) == e0.new_tasks@
        &&& forall|i: int| 0 <= i < a.len() ==> fresh(old_n + i) && #[trigger] e1.new_tasks@[old_n + i]@.actor_ids == seq![a[i]]
            && e1.new_tasks@[old_n + i]@.perform_type == 1
    } else {
        &&& r is Ok
        &&& e1.new_tasks@.len() == old_n + 1
        &&& e1.new_tasks@.take(old_n as int) == e0.new_tasks@
        &&& fresh(old_n as int) && e1.new_tasks@[old_n as int]@.actor_ids == a
    }
}

/// Two nodes alike in every field.
pub open spec fn node_same(a: NodeModel, b: NodeModel) -> bool {
    &&& a.id@ == b.id@
    &&& a.node_type == b.node_type
    &&& a.display_name@ == b.display_name@
    &&& a.properties.kv() == b.properties.kv()
}

/// The node an edge leads to, where the model has it.
pub open spec fn target_of(m: ProcessModel, e: EdgeModel) -> Option<NodeModel> {
    opt_at(m.nodes@, first_where(m.nodes@, has_id(e.target_node_id@)))
}

/// The nodes edges lead to, in edge order, leaving out edges whose target is missing.
pub open spec fn targets_of(m: ProcessModel, es: Seq<EdgeModel>) -> Seq<NodeModel>
    decreases es.len(),
{
    if es.len() == 0 {
        Seq::empty()
    } else {
        let t = targets_of(m, es.drop_last());
        match target_of(m, es.last()) {
            Some(n) => t.push(n),
            None => t,
        }
    }
}

/// The nodes the output edges of `node_id` lead to, in edge order.
fn next_nodes(model: &ProcessModel, node_id: &str) -> (r: Vec<NodeModel>)
    ensures
        r@.len() == targets_of(*model, filter_where(model.edges@, from_node(node_id@))).len(),
        forall|i: int| 0 <= i < r@.len() ==> node_same(
            #[trigger] r@[i],
            targets_of(*model, filter_where(model.edges@, from_node(node_id@)))[i],
        ),
{
    let edges = model.get_output_edges(node_id);
    let ghost es = deref_seq(edges@);
    let mut out: Vec<NodeModel> = Vec::new();
    let mut i: usize = 0;
    while i < edges.len()
        invariant
            0 <= i <= edges.len(),
            es == deref_seq(edges@),
            es.len() == edges@.len(),
            out@.len() == targets_of(*model, es.take(i as int)).len(),
            forall|k: int| 0 <= k < out@.len() ==> node_same(#[trigger] out@[k], targets_of(*model, es.take(i as int))[k]),
        decreases edges.len() - i,
    {
        assert(es.take(i + 1).drop_last() =~= es.take(i as int));
        assert(es.take(i + 1).last() == *edges@[i as int]);
        match model.get_target_node(edges[i]) {
            Some(n) => out.push(n.dup()),
            None => {},
        }
        i = i + 1;
    }
    assert(es.take(es.len() as int) =~= es);
    out
}

impl<R: ProcessRepository + ProcessExtRepository, G: IdGenerator> JeeflowEngineImpl<R, G> {
    pub fn new(ctx: ServiceContext<R, G>) -> (r: Self)
        ensures
            r.ctx == ctx,
            r.steps@.len() == 0,
    {
        JeeflowEngineImpl { ctx, steps: Ghost(Seq::empty()) }
    }

    pub fn context(&self) -> (r: &ServiceContext<R, G>)
        ensures
            *r == self.ctx,
    {
        &self.ctx
    }

    fn publish(&self, event: &ProcessEvent) {
        ProcessPublisher::notify(event, self.ctx.event_listeners.as_slice());
    }

    /// One carbon-copy event per recipient, in order.
    pub fn notify_cc_create(&self, instance_id: i64, cc_actors: &[String]) {
        let mut i: usize = 0;
        while i < cc_actors.len()
            decreases cc_actors.len() - i,
        {
            let event = ProcessEvent::new(ProcessEventType::CcCreate, instance_id).with_cc_actor_id(
                cc_actors[i].as_str(),
            );
            self.publish(&event);
            i = i + 1;
        }
    }

    fn next_id(&mut self) -> (r: i64)
        ensures
            final(self).ctx.repository == old(self).ctx.repository,
            final(self).ctx.interceptors == old(self).ctx.interceptors,
    {
        self.ctx.id_generator.next_id()
    }

    /// Add the operator's user variables (`u_userId`, ...) from the user provider.
    fn load_user_info(&self, args: &mut FlowData, operator: &str)
        ensures
            (is_super_operator(operator@) || self.ctx.user_provider is None) ==> forall|q: Seq<char>|
                #[trigger] final(args).lookup(q) == old(args).lookup(q),
    {
        proof {
            reveal_strlit("flow.auto");
            reveal_strlit("flow.admin");
        }
        if str_eq(operator, "flow.auto") || str_eq(operator, "flow.admin") {
            return;
        }
        match &self.ctx.user_provider {
            Some(up) => match up.get_user(operator) {
                Ok(Some(user)) => add_user_info(args, operator, Some(&user)),
                _ => {},
            },
            None => {},
        }
    }

    /// The actors of a task node, asking its assignment handler when the node names one.
    fn resolve_actors(&self, exec: &Execution, node: &NodeModel) -> (r: Vec<String>)
        ensures
            exists|answer: Option<Seq<char>>| crate::text::views(r@)
                == #[trigger] crate::engine::resolved_actors(exec.args, *node, exec.process_instance.operator@, answer),
    {
        let answer: Option<String> = match node.assignment_handler() {
            Some(name) => match self.ctx.find_assignment_handler(name.as_str()) {
                Some(h) => match h.assign(exec) {
                    Ok(s) => Some(s),
                    Err(_) => None,
                },
                None => None,
            },
            None => None,
        };
        let a: Option<&str> = match &answer {
            Some(s) => Some(s.as_str()),
            None => None,
        };
        resolve_assignee(&exec.args, node, exec.process_instance.operator.as_str(), a)
    }

    /// The truth of an edge expression: the configured evaluator's answer, else the built-in
    /// evaluation over the step and gate variables.
    fn evaluate_expression(&self, expr: &str, exec: &Execution) -> (r: bool)
        ensures
            self.ctx.expression_evaluator is None ==> r == crate::eval::simple_eval_spec(
                expr@,
                exec.args,
                exec.gate_vars,
            ),
    {
        match &self.ctx.expression_evaluator {
            Some(ev) => {
                let answer = ev.eval(expr, &exec.args);
                evaluator_truth(&answer)
            },
            None => simple_eval(expr, &exec.args, &exec.gate_vars),
        }
    }

    /// The branch a decision handler picks (none is consulted: edges decide).
    fn evaluate_decision(&self, exec: &Execution, node: &NodeModel) -> (r: JeeflowResult<Option<String>>)
        ensures
            r matches Ok(None),
    {
        Ok(None)
    }

    /// Run the interceptors, in order, stopping at the first error.
    fn fire_post_interceptors(&self, exec: &mut Execution) -> (r: JeeflowResult<()>)
        ensures
            self.ctx.interceptors@.len() == 0 ==> (r is Ok && *final(exec) == *old(exec)),
    {
        let mut i: usize = 0;
        while i < self.ctx.interceptors.len()
            invariant
                self.ctx.interceptors@.len() == 0 ==> *exec == *old(exec),
            decreases self.ctx.interceptors.len() - i,
        {
            self.ctx.interceptors[i].intercept(exec)?;
            i = i + 1;
        }
        Ok(())
    }

    /// Execute every node the outputs of `node_id` lead to.
    fn execute_outputs(&mut self, exec: &mut Execution, node_id: &str, depth: usize) -> (r: JeeflowResult<()>)
        ensures
            smooth(*old(self)) ==> smooth(*final(self)),
            smooth(*old(self)) ==> (r matches Err(e) ==> nests_too_deeply(e)),
            writes_extend(old(self).ctx.repository.task_writes(), final(self).ctx.repository.task_writes()),
            final(self).ctx.interceptors == old(self).ctx.interceptors,
            old(self).ctx.interceptors@.len() == 0 ==> final(exec).process_instance.instance_id == old(exec).process_instance.instance_id,
            (old(self).ctx.interceptors@.len() == 0 && all_doing(old(exec).new_tasks@)) ==> all_doing(final(exec).new_tasks@),
        decreases depth, 1usize,
    {
        let nexts = next_nodes(&exec.process_model, node_id);
        let mut i: usize = 0;
        while i < nexts.len()
            invariant
                writes_extend(old(self).ctx.repository.task_writes(), self.ctx.repository.task_writes()),
                smooth(*old(self)) ==> smooth(*self),
                self.ctx.interceptors == old(self).ctx.interceptors,
                old(self).ctx.interceptors@.len() == 0 ==> exec.process_instance.instance_id == old(exec).process_instance.instance_id,
                (old(self).ctx.interceptors@.len() == 0 && all_doing(old(exec).new_tasks@)) ==> all_doing(exec.new_tasks@),
            decreases nexts.len() - i,
        {
            self.execute_node(exec, &nexts[i], depth)?;
            i = i + 1;
        }
        Ok(())
    }

    /// The node a decision leads to: the first output edge that goes to the named target, or,
    /// without one, whose expression holds.
    fn choose_branch(&self, exec: &Execution, node_id: &str, target: &Option<String>) -> (r: Option<NodeModel>)
        ensures
            (target is Some || self.ctx.expression_evaluator is None) ==> same_opt_node(
                r,
                first_branch(
                    exec.process_model,
                    filter_where(exec.process_model.edges@, from_node(node_id@)),
                    crate::model::opt_view(*target),
                    exec.args,
                    exec.gate_vars,
                ),
            ),
    {
        let edges = exec.process_model.get_output_edges(node_id);
        let ghost es = deref_seq(edges@);
        let ghost want = first_branch(exec.process_model, es, crate::model::opt_view(*target), exec.args, exec.gate_vars);
        let ghost exact = target is Some || self.ctx.expression_evaluator is None;
        assert(es.skip(0) =~= es);
        let mut i: usize = 0;
        while i < edges.len()
            invariant
                0 <= i <= edges.len(),
                es == deref_seq(edges@),
                es.len() == edges@.len(),
                es == filter_where(exec.process_model.edges@, from_node(node_id@)),
                exact == (target is Some || self.ctx.expression_evaluator is None),
                want == first_branch(exec.process_model, es, crate::model::opt_view(*target), exec.args, exec.gate_vars),
                exact ==> want == first_branch(exec.process_model, es.skip(i as int), crate::model::opt_view(*target), exec.args, exec.gate_vars),
            decreases edges.len() - i,
        {
            assert(es.skip(i as int)[0] == *edges@[i as int]);
            assert(es.skip(i as int).drop_first() =~= es.skip(i + 1));
            let edge = edges[i];
            let matches = match target {
                Some(t) => str_eq(edge.target_node_id.as_str(), t.as_str()),
                None => match edge.expr() {
                    Some(expr) => self.evaluate_expression(expr.as_str(), exec),
                    None => false,
                },
            };
            assert(exact ==> (matches == branch_hits(es[i as int], crate::model::opt_view(*target), exec.args, exec.gate_vars)));
            if matches {
                assert(exact ==> want == target_of(exec.process_model, es[i as int]));
                assert(target_of(exec.process_model, es[i as int]) == opt_at(
                    exec.process_model.nodes@,
                    first_where(exec.process_model.nodes@, has_id(edge.target_node_id@)),
                ));
                let found = exec.process_model.get_target_node(edge);
                let res = match found {
                    Some(n) => {
                        let d = n.dup();
                        assert(node_same(d, *n));
                        assert(target_of(exec.process_model, es[i as int]) == Some(*n));
                        Some(d)
                    },
                    None => None,
                };
                assert(exact ==> same_opt_node(res, want));
                return res;
            }
            i = i + 1;
        }
        assert(es.skip(i as int) =~= Seq::<EdgeModel>::empty());
        None
    }

    /// Execute one node of the model.
    fn execute_node(&mut self, exec: &mut Execution, node: &NodeModel, depth: usize) -> (r: JeeflowResult<()>)
        ensures
            depth == 0 ==> r is Err && *final(exec) == *old(exec),
            final(self).ctx.interceptors == old(self).ctx.interceptors,
            old(self).ctx.interceptors@.len() == 0 ==> final(exec).process_instance.instance_id == old(exec).process_instance.instance_id,
            (old(self).ctx.interceptors@.len() == 0 && all_doing(old(exec).new_tasks@)) ==> all_doing(final(exec).new_tasks@),
            smooth(*old(self)) ==> smooth(*final(self)),
            smooth(*old(self)) ==> (r matches Err(e) ==> nests_too_deeply(e)),
            writes_extend(old(self).ctx.repository.task_writes(), final(self).ctx.repository.task_writes()),
            (depth > 0 && node.node_type == NodeType::End && r is Ok && old(self).ctx.interceptors@.len() == 0) ==> ({
                let rejecting = old(exec).args.lookup("reject"@) == Some(crate::json::JView::Str("true"@));
                &&& final(exec).process_instance@ == (crate::model::InstanceView {
                    state: if rejecting { crate::model::INSTANCE_REJECT } else { crate::model::INSTANCE_FINISHED },
                    ..old(exec).process_instance@
                })
                &&& final(exec).instance_finished
            }),
            (depth > 0 && node.node_type == NodeType::SubProcess) ==> r is Ok,
            (depth > 0 && (node.node_type == NodeType::Task || node.node_type == NodeType::Custom)) ==> exists|e0: Execution, a: Seq<Seq<char>>|
                e0 == (Execution { current_node: e0.current_node, ..*old(exec) })
                && #[trigger] actors_possible(e0, *node, a) && task_creation(e0, *final(exec), *node, a, r),
        decreases depth, 0usize,
    {
        if depth == 0 {
            return Err(JeeflowError::Internal(owned("process model nests too deeply")));
        }
        exec.current_node = Some(node.dup());
        match node.node_type {
            NodeType::Start => self.execute_outputs(exec, node.id.as_str(), depth - 1),
            NodeType::Task | NodeType::Custom => self.create_task_with_assignment(exec, node, depth - 1),
            NodeType::Decision => {
                let target = self.evaluate_decision(exec, node)?;
                self.fire_post_interceptors(exec)?;
                match self.choose_branch(exec, node.id.as_str(), &target) {
                    Some(next) => self.execute_node(exec, &next, depth - 1),
                    None => Ok(()),
                }
            },
            NodeType::Fork => {
                self.execute_outputs(exec, node.id.as_str(), depth - 1)?;
                self.fire_post_interceptors(exec)
            },
            NodeType::Join => {
                let doing = exec.process_instance.get_doing_tasks().len();
                if doing == 0 || exec.is_merged {
                    exec.is_merged = true;
                    self.execute_outputs(exec, node.id.as_str(), depth - 1)?;
                }
                self.fire_post_interceptors(exec)
            },
            NodeType::End => {
                let rejecting = match exec.args.get_str("reject") {
                    Some(v) => str_eq(v, "true"),
                    None => false,
                };
                if rejecting {
                    exec.process_instance.reject();
                } else {
                    exec.process_instance.finish();
                }
                exec.instance_finished = true;
                self.ctx.repository.update_instance(&exec.process_instance)?;
                let event = ProcessEvent::new(ProcessEventType::ProcessInstanceEnd, exec.process_instance.instance_id);
                self.publish(&event);
                self.fire_post_interceptors(exec)
            },
            NodeType::SubProcess => Ok(()),
        }
    }

    /// Create the tasks of a task node: none (and go on) without actors or candidates; one
    /// per actor on a countersign node (only the first one on a one-after-another node, with
    /// the operator list and counter kept in the instance variables); else one task.
    #[verifier::rlimit(80)]
    #[verifier::spinoff_prover]
    fn create_task_with_assignment(&mut self, exec: &mut Execution, node: &NodeModel, depth: usize) -> (r: JeeflowResult<()>)
        ensures
            exists|a: Seq<Seq<char>>| #[trigger] actors_possible(*old(exec), *node, a) && task_creation(*old(exec), *final(exec), *node, a, r),
            final(self).ctx.interceptors == old(self).ctx.interceptors,
            old(self).ctx.interceptors@.len() == 0 ==> final(exec).process_instance.instance_id == old(exec).process_instance.instance_id,
            (old(self).ctx.interceptors@.len() == 0 && all_doing(old(exec).new_tasks@)) ==> all_doing(final(exec).new_tasks@),
            smooth(*old(self)) ==> smooth(*final(self)),
            smooth(*old(self)) ==> (r matches Err(e) ==> nests_too_deeply(e)),
            writes_extend(old(self).ctx.repository.task_writes(), final(self).ctx.repository.task_writes()),
        decreases depth, 2usize,
    {
        let actor_ids = self.resolve_actors(exec, node);
        let ghost a = crate::text::views(actor_ids@);
        assert(actors_possible(*old(exec), *node, a));
        if actor_ids.len() == 0 && node.candidate_users().is_none() && node.candidate_groups().is_none() {
            return self.execute_outputs(exec, node.id.as_str(), depth);
        }
        let perform_type = PerformType::from_code(node.perform_type());
        let task_type = TaskType::from_code(node.task_type());
        if perform_type == PerformType::Countersign {
            let cs_type = node.countersign_type();
            if is_sequential_type(cs_type.as_str()) {
                if actor_ids.len() == 0 {
                    return Ok(());
                }
                start_sequence(exec, node, &actor_ids, task_type);
                assert(task_creation(*old(exec), *exec, *node, a, Ok(())));
                proof {
                    if all_doing(old(exec).new_tasks@) {
                        lemma_doing_appended(old(exec).new_tasks@, exec.new_tasks@);
                    }
                }
            } else {
                let tasks = exec.process_instance.create_countersign_tasks(
                    node.id.as_str(),
                    node.display_name.as_str(),
                    actor_ids.as_slice(),
                    exec.operator.as_str(),
                    task_type,
                    node.form_key(),
                    None,
                );
                let ghost n0 = exec.new_tasks@.len();
                append_tasks(&mut exec.new_tasks, tasks);
                assert(exec.new_tasks@.take(n0 as int) =~= old(exec).new_tasks@);
                assert forall|i: int| 0 <= i < a.len() implies exec.new_tasks@[n0 + i] == tasks@[i] by {}
                assert(task_creation(*old(exec), *exec, *node, a, Ok(())));
                proof {
                    if all_doing(old(exec).new_tasks@) {
                        assert forall|k: int| n0 <= k < exec.new_tasks@.len() implies (#[trigger] exec.new_tasks@[k])@.task_state
                            == TASK_DOING by {
                            assert(exec.new_tasks@[n0 + (k - n0)] == tasks@[k - n0]);
                        }
                        lemma_doing_appended(old(exec).new_tasks@, exec.new_tasks@);
                    }
                }
            }
        } else {
            let task = exec.process_instance.create_task(
                node.id.as_str(),
                node.display_name.as_str(),
                actor_ids.as_slice(),
                exec.operator.as_str(),
                task_type,
                perform_type,
                node.form_key(),
                None,
            );
            let ghost n0 = exec.new_tasks@.len();
            exec.new_tasks.push(task);
            assert(exec.new_tasks@.take(n0 as int) =~= old(exec).new_tasks@);
            assert(task_creation(*old(exec), *exec, *node, a, Ok(())));
            proof {
                if all_doing(old(exec).new_tasks@) {
                    lemma_doing_appended(old(exec).new_tasks@, exec.new_tasks@);
                }
            }
        }
        Ok(())
    }

    /// Abandon (state 99) the node's tasks that are still doing, in the execution and in the
    /// store; every other task of the execution stays as it was.
    fn abandon_countersign_remaining(&mut self, exec: &mut Execution, node_id: &str) -> (r: JeeflowResult<()>)
        ensures
            final(self).ctx.interceptors == old(self).ctx.interceptors,
            final(exec).new_tasks == old(exec).new_tasks,
            final(exec).process_instance.instance_id == old(exec).process_instance.instance_id,
            final(exec).process_instance.variables == old(exec).process_instance.variables,
            smooth(*old(self)) ==> smooth(*final(self)),
            smooth(*old(self)) ==> r is Ok,
            writes_extend(old(self).ctx.repository.task_writes(), final(self).ctx.repository.task_writes()),
            r is Ok ==> forall|k: int| 0 <= k < old(exec).process_instance.tasks@.len()
                && (#[trigger] old(exec).process_instance.tasks@[k]).task_name@ == node_id@
                && old(exec).process_instance.tasks@[k].task_state == TASK_DOING ==> abandoned_in_store(
                    final(self).ctx.repository,
                    old(exec).process_instance.tasks@[k].task_id,
                    node_id@,
                ),
            final(exec).gate_vars == old(exec).gate_vars,
            final(exec).args == old(exec).args,
            final(exec).process_instance.tasks@.len() == old(exec).process_instance.tasks@.len(),
            forall|k: int| 0 <= k < old(exec).process_instance.tasks@.len() ==> {
                let t = #[trigger] old(exec).process_instance.tasks@[k];
                let u = final(exec).process_instance.tasks@[k];
                if t.task_name@ == node_id@ && t.task_state == TASK_DOING {
                    u@ == (TaskView { task_state: TASK_ABANDON, ..t@ })
                } else {
                    u@ == t@
                }
            },
    {
        let mut abandoned: Vec<ProcessTask> = Vec::new();
        let mut i: usize = 0;
        let ghost before = exec.process_instance.tasks@;
        while i < exec.process_instance.tasks.len()
            invariant
                0 <= i <= exec.process_instance.tasks@.len(),
                exec.process_instance.tasks@.len() == before.len(),
                before == old(exec).process_instance.tasks@,
                exec.gate_vars == old(exec).gate_vars,
                exec.args == old(exec).args,
                exec.new_tasks == old(exec).new_tasks,
                exec.process_instance.instance_id == old(exec).process_instance.instance_id,
                exec.process_instance.variables == old(exec).process_instance.variables,
                forall|k: int| 0 <= k < before.len() ==> {
                    let t = #[trigger] before[k];
                    let u = exec.process_instance.tasks@[k];
                    if k < i && t.task_name@ == node_id@ && t.task_state == TASK_DOING {
                        u@ == (TaskView { task_state: TASK_ABANDON, ..t@ })
                    } else {
                        u@ == t@
                    }
                },
                forall|j: int| 0 <= j < abandoned@.len() ==> (#[trigger] abandoned@[j]).task_state == TASK_ABANDON
                    && abandoned@[j].task_name@ == node_id@,
                forall|k: int| 0 <= k < i && (#[trigger] before[k]).task_name@ == node_id@ && before[k].task_state == TASK_DOING
                    ==> exists|j: int| 0 <= j < abandoned@.len() && (#[trigger] abandoned@[j]).task_id == before[k].task_id,
            decreases exec.process_instance.tasks.len() - i,
        {
            if str_eq(exec.process_instance.tasks[i].task_name.as_str(), node_id)
                && exec.process_instance.tasks[i].task_state == TASK_DOING {
                let mut t = exec.process_instance.tasks[i].dup();
                t.task_state = TASK_ABANDON;
                let ghost ab0 = abandoned@;
                abandoned.push(t.dup());
                assert forall|k: int| 0 <= k < i + 1 && (#[trigger] before[k]).task_name@ == node_id@ && before[k].task_state == TASK_DOING
                    implies exists|j: int| 0 <= j < abandoned@.len() && (#[trigger] abandoned@[j]).task_id == before[k].task_id by {
                    if k < i {
                        let j = choose|j: int| 0 <= j < ab0.len() && (#[trigger] ab0[j]).task_id == before[k].task_id;
                        assert(abandoned@[j] == ab0[j]);
                    } else {
                        assert(abandoned@[ab0.len() as int].task_id == before[k].task_id);
                    }
                }
                exec.process_instance.tasks.set(i, t);
            }
            i = i + 1;
        }
        let mut j: usize = 0;
        while j < abandoned.len()
            invariant
                exec.process_instance.tasks@.len() == before.len(),
                before == old(exec).process_instance.tasks@,
                exec.gate_vars == old(exec).gate_vars,
                exec.args == old(exec).args,
                forall|k: int| 0 <= k < before.len() ==> {
                    let t = #[trigger] before[k];
                    let u = exec.process_instance.tasks@[k];
                    if t.task_name@ == node_id@ && t.task_state == TASK_DOING {
                        u@ == (TaskView { task_state: TASK_ABANDON, ..t@ })
                    } else {
                        u@ == t@
                    }
                },
                forall|x: int| 0 <= x < abandoned@.len() ==> (#[trigger] abandoned@[x]).task_state == TASK_ABANDON
                    && abandoned@[x].task_name@ == node_id@,
                forall|k: int| 0 <= k < before.len() && (#[trigger] before[k]).task_name@ == node_id@ && before[k].task_state == TASK_DOING
                    ==> exists|x: int| 0 <= x < abandoned@.len() && (#[trigger] abandoned@[x]).task_id == before[k].task_id,
                0 <= j <= abandoned@.len(),
                forall|x: int| 0 <= x < j ==> abandoned_in_store(self.ctx.repository, (#[trigger] abandoned@[x]).task_id, node_id@),
                writes_extend(old(self).ctx.repository.task_writes(), self.ctx.repository.task_writes()),
                smooth(*old(self)) ==> smooth(*self),
                self.ctx.interceptors == old(self).ctx.interceptors,
                exec.new_tasks == old(exec).new_tasks,
                exec.process_instance.instance_id == old(exec).process_instance.instance_id,
                exec.process_instance.variables == old(exec).process_instance.variables,
            decreases abandoned.len() - j,
        {
            let ghost prev = self.ctx.repository;
            let res = self.ctx.repository.update_task(&abandoned[j]);
            match res {
                Ok(()) => {},
                Err(e) => {
                    return Err(e);
                },
            }
            assert forall|x: int| 0 <= x < j + 1 implies abandoned_in_store(self.ctx.repository, (#[trigger] abandoned@[x]).task_id, node_id@) by {
                if abandoned@[x].task_id != abandoned@[j as int].task_id {
                    assert(self.ctx.repository.stored_task(abandoned@[x].task_id) == prev.stored_task(abandoned@[x].task_id));
                }
            }
            j = j + 1;
        }
        assert forall|k: int| 0 <= k < before.len() && (#[trigger] before[k]).task_name@ == node_id@ && before[k].task_state == TASK_DOING
            implies abandoned_in_store(self.ctx.repository, before[k].task_id, node_id@) by {
            let x = choose|x: int| 0 <= x < abandoned@.len() && (#[trigger] abandoned@[x]).task_id == before[k].task_id;
            assert(abandoned_in_store(self.ctx.repository, abandoned@[x].task_id, node_id@));
        }
        Ok(())
    }

    /// Give the instance, and its tasks without an id, fresh ids.
    fn assign_ids(&mut self, instance: &mut ProcessInstance)
        ensures
            final(self).ctx.repository == old(self).ctx.repository,
            final(self).ctx.interceptors == old(self).ctx.interceptors,
            final(instance).tasks@.len() == old(instance).tasks@.len(),
            forall|k: int| 0 <= k < old(instance).tasks@.len() ==> {
                let t = #[trigger] old(instance).tasks@[k];
                let u = final(instance).tasks@[k];
                if t.task_id == 0 {
                    u@ == (TaskView { task_id: u.task_id, process_instance_id: final(instance).instance_id, ..t@ })
                } else {
                    u@ == t@
                }
            },
            final(instance)@ == (crate::model::InstanceView {
                instance_id: final(instance).instance_id,
                tasks: final(instance)@.tasks,
                ..old(instance)@
            }),
    {
        instance.instance_id = self.next_id();
        let ghost before = instance.tasks@;
        let ghost base = instance@;
        let mut i: usize = 0;
        while i < instance.tasks.len()
            invariant
                0 <= i <= instance.tasks@.len(),
                instance.tasks@.len() == before.len(),
                before == old(instance).tasks@,
                instance@ == (crate::model::InstanceView { tasks: instance@.tasks, ..base }),
                base.instance_id == instance.instance_id,
                base == (crate::model::InstanceView { instance_id: base.instance_id, ..old(instance)@ }),
                self.ctx.repository == old(self).ctx.repository,
                self.ctx.interceptors == old(self).ctx.interceptors,
                forall|k: int| 0 <= k < before.len() ==> {
                    let t = #[trigger] before[k];
                    let u = instance.tasks@[k];
                    if k < i && t.task_id == 0 {
                        u@ == (TaskView { task_id: u.task_id, process_instance_id: instance.instance_id, ..t@ })
                    } else {
                        u@ == t@
                    }
                },
            decreases instance.tasks.len() - i,
        {
            if instance.tasks[i].task_id == 0 {
                let mut t = instance.tasks[i].dup();
                t.task_id = self.next_id();
                t.process_instance_id = instance.instance_id;
                instance.tasks.set(i, t);
            }
            i = i + 1;
        }
    }

    /// Store the step's new tasks: ids for those without one, the instance id, the lineage
    /// parent (the task being worked, `0` when starting), the first-task-node mark, active
    /// surrogates added to the actors; then the task, its actors, and a task-start event.
    fn persist_tasks(&mut self, exec: &mut Execution) -> (r: JeeflowResult<()>)
        ensures
            r is Ok ==> final(exec).new_tasks@.len() == old(exec).new_tasks@.len(),
            r is Ok ==> forall|k: int| 0 <= k < old(exec).new_tasks@.len() ==> persisted_as(
                #[trigger] old(exec).new_tasks@[k]@,
                final(exec).new_tasks@[k]@,
                old(exec).process_instance.instance_id,
                lineage_of(old(exec).process_task),
            ),
            r is Ok ==> final(self).ctx.repository.task_writes() == old(self).ctx.repository.task_writes()
                + crate::model::task_views(final(exec).new_tasks@),
            final(exec).process_instance.instance_id == old(exec).process_instance.instance_id,
            smooth(*old(self)) ==> smooth(*final(self)),
            smooth(*old(self)) ==> r is Ok,
            writes_extend(old(self).ctx.repository.task_writes(), final(self).ctx.repository.task_writes()),
    {
        let instance_id = exec.process_instance.instance_id;
        let process_name = surrogate_process_name(&exec.process_model, &exec.process_define);
        let lineage_parent: i64 = match &exec.process_task {
            Some(t) => t.task_id,
            None => 0,
        };
        let mut merged: Vec<(i64, Vec<String>)> = Vec::new();
        let mut tasks: Vec<ProcessTask> = Vec::new();
        std::mem::swap(&mut tasks, &mut exec.new_tasks);
        let mut li: usize = 0;
        while li < tasks.len()
            invariant
                writes_extend(old(self).ctx.repository.task_writes(), self.ctx.repository.task_writes()),
                smooth(*old(self)) ==> smooth(*self),
                0 <= li <= tasks@.len(),
                tasks@.len() == old(exec).new_tasks@.len(),
                instance_id == old(exec).process_instance.instance_id,
                exec.process_instance.instance_id == instance_id,
                lineage_parent == lineage_of(old(exec).process_task),
                forall|k: int| li <= k < tasks@.len() ==> #[trigger] tasks@[k] == old(exec).new_tasks@[k],
                forall|k: int| 0 <= k < li ==> persisted_as(
                    #[trigger] old(exec).new_tasks@[k]@,
                    tasks@[k]@,
                    instance_id,
                    lineage_parent,
                ),
                self.ctx.repository.task_writes() == old(self).ctx.repository.task_writes()
                    + crate::model::task_views(tasks@.take(li as int)),
            decreases tasks.len() - li,
        {
            let mut task = tasks[li].dup();
            let ghost w0 = self.ctx.repository.task_writes();
            let first = exec.process_model.is_first_task_node(task.task_name.as_str());
            if task.task_id == 0 {
                task.task_id = self.next_id();
            }
            task.process_instance_id = instance_id;
            if task.parent_task_id.is_none() {
                task.parent_task_id = Some(lineage_parent);
            }
            task.variables.insert(owned("isFirstTaskNode"), JsonValue::Bool(first));
            let applied = if self.ctx.ext_repository {
                apply_surrogate_to_task(self.ctx.surrogate_auto_apply, Some(&self.ctx.repository), &mut task, process_name.as_str())
            } else {
                apply_surrogate_to_task::<R>(self.ctx.surrogate_auto_apply, None, &mut task, process_name.as_str())
            };
            if applied {
                merged.push((task.task_id, clone_strings(task.actor_ids.as_slice())));
            }
            self.ctx.repository.save_task(&mut task)?;
            if task.actor_ids.len() > 0 {
                self.ctx.repository.add_task_actor(task.task_id, task.actor_ids.as_slice())?;
            }
            let event = ProcessEvent::new(ProcessEventType::ProcessTaskStart, task.task_id);
            self.publish(&event);
            let ghost tv = task@;
            let ghost before = tasks@;
            tasks.set(li, task);
            proof {
                assert(tasks@[li as int]@ == tv);
                assert(tasks@.take(li as int) =~= before.take(li as int));
                assert(crate::model::task_views(tasks@.take(li + 1)) =~= crate::model::task_views(tasks@.take(li as int)).push(tv));
            }
            li = li + 1;
        }
        exec.new_tasks = tasks;
        let ghost done = exec.new_tasks@;
        if merged.len() > 0 {
            let n = exec.process_instance.tasks.len();
            let mut i: usize = 0;
            while i < n
                invariant
                    n == exec.process_instance.tasks.len(),
                    i <= n,
                    exec.new_tasks@ == done,
                    exec.process_instance.instance_id == instance_id,
                decreases n - i,
            {
                let id = exec.process_instance.tasks[i].task_id;
                let mut hit: Option<usize> = None;
                let mut k: usize = 0;
                while k < merged.len() && hit.is_none()
                    invariant
                        k <= merged.len(),
                        hit matches Some(h) ==> h < merged.len(),
                    decreases merged.len() - k,
                {
                    if merged[k].0 == id {
                        hit = Some(k);
                    }
                    k = k + 1;
                }
                match hit {
                    Some(h) => {
                        let mut t = exec.process_instance.tasks[i].dup();
                        t.actor_ids = clone_strings(merged[h].1.as_slice());
                        exec.process_instance.tasks.set(i, t);
                    },
                    None => {},
                }
                i = i + 1;
            }
        }
        Ok(())
    }

    /// Start an instance of a define: the operator's user variables and an automatic title
    /// join the args, the instance and its carbon copies are stored, the model runs from its
    /// start node, and the new tasks are stored.
    pub fn start_async(&mut self, define_id: i64, operator: &str, args: &FlowData) -> (r: JeeflowResult<ProcessInstance>)
        ensures
            r is Ok ==> old(self).ctx.repository.stored_define(define_id) is Some,
            (smooth(*old(self)) && define_readable(old(self).ctx.repository, define_id)) ==> (r matches Err(e) ==> nests_too_deeply(e)),
            final(self).steps == old(self).steps,
    {
        let ghost before = self.steps@;
        let r = self.start_instance(define_id, operator, args);
        proof {
            self.steps = Ghost(before);
        }
        r
    }

    /// Start an instance (see `start_async`).
    fn start_instance(&mut self, define_id: i64, operator: &str, args: &FlowData) -> (r: JeeflowResult<ProcessInstance>)
        ensures
            r is Ok ==> old(self).ctx.repository.stored_define(define_id) is Some,
            (smooth(*old(self)) && define_readable(old(self).ctx.repository, define_id)) ==> (r matches Err(e) ==> nests_too_deeply(e)),
    {
        let define = match self.ctx.repository.find_define_by_id(define_id)? {
            Some(d) => d,
            None => {
                return Err(JeeflowError::DefineNotFound(define_id));
            },
        };
        let model = ModelParser::parse(define.content_str().as_str())?;
        let mut full_args = FlowData::new();
        full_args.merge(args);
        self.load_user_info(&mut full_args, operator);
        let now = current_time_str();
        let title = gen_auto_title(&full_args, define.display_name.as_str(), now.as_str());
        full_args.insert_str("autoGenTitle", title.as_str());
        let mut instance = ProcessInstance::create(&define, operator, &full_args);
        match &model.expire_time {
            Some(et) => {
                instance.expire_time = Some(et.clone());
            },
            None => {},
        }
        self.assign_ids(&mut instance);
        self.ctx.repository.save_instance(&mut instance)?;
        let cc_actors = parse_cc_actors(full_args.get("f_ccActors"));
        if cc_actors.len() > 0 {
            self.ctx.repository.create_cc_instance(instance.instance_id, operator, cc_actors.as_slice())?;
            self.notify_cc_create(instance.instance_id, cc_actors.as_slice());
        }
        let instance_id = instance.instance_id;
        let mut exec = Execution::new(instance, model, define, operator, full_args);
        let start: Option<NodeModel> = match exec.process_model.get_start() {
            Some(n) => Some(n.dup()),
            None => None,
        };
        match start {
            Some(n) => self.execute_node(&mut exec, &n, NODE_DEPTH_LIMIT)?,
            None => {},
        }
        self.persist_tasks(&mut exec)?;
        self.ctx.repository.update_instance(&exec.process_instance)?;
        let event = ProcessEvent::new(ProcessEventType::ProcessInstanceStart, instance_id);
        self.publish(&event);
        Ok(exec.process_instance)
    }

    /// Load a task's instance (with its tasks) and define, and parse the model.
    fn load_instance(&self, task: &ProcessTask) -> (r: JeeflowResult<(ProcessInstance, crate::model::ProcessDefine)>)
        ensures
            r is Ok ==> self.ctx.repository.stored_instance(task.process_instance_id) == Some(r->Ok_0.0@),
            r is Ok ==> (self.ctx.repository.stored_instance(task.process_instance_id) matches Some(i)
                && self.ctx.repository.stored_define(i.define_id) == Some(r->Ok_0.1@)),
            self.ctx.repository.reliable() ==> match self.ctx.repository.stored_instance(task.process_instance_id) {
                None => r matches Err(JeeflowError::InstanceNotFound(x)) && x == task.process_instance_id,
                Some(i) => match self.ctx.repository.stored_define(i.define_id) {
                    None => r matches Err(JeeflowError::DefineNotFound(x)) && x == i.define_id,
                    Some(d) => r is Ok,
                },
            },
    {
        let mut instance = match self.ctx.repository.find_instance_by_id(task.process_instance_id)? {
            Some(i) => i,
            None => {
                return Err(JeeflowError::InstanceNotFound(task.process_instance_id));
            },
        };
        let ghost did = instance.define_id;
        instance.tasks = self.ctx.repository.find_history_tasks(task.process_instance_id)?;
        let define = match self.ctx.repository.find_define_by_id(instance.define_id)? {
            Some(d) => d,
            None => {
                return Err(JeeflowError::DefineNotFound(instance.define_id));
            },
        };
        Ok((instance, define))
    }

    fn load_for_task(&self, task: &ProcessTask) -> (r: JeeflowResult<(ProcessInstance, crate::model::ProcessDefine, ProcessModel)>)
        ensures
            r is Ok ==> (self.ctx.repository.stored_instance(task.process_instance_id) matches Some(i)
                && self.ctx.repository.stored_define(i.define_id) matches Some(d)
                && crate::json_parse::json_read(crate::model::lossy_text(d.content)) matches Some(j)
                && crate::parser::model_matches(r->Ok_0.2, j)),
            r is Ok ==> self.ctx.repository.stored_instance(task.process_instance_id) == Some(r->Ok_0.0@),
            r is Ok ==> (self.ctx.repository.stored_instance(task.process_instance_id) matches Some(i)
                && self.ctx.repository.stored_define(i.define_id) matches Some(d)
                && crate::json_parse::json_read(crate::model::lossy_text(d.content)) is Some),
            self.ctx.repository.reliable() ==> match self.ctx.repository.stored_instance(task.process_instance_id) {
                None => r matches Err(JeeflowError::InstanceNotFound(x)) && x == task.process_instance_id,
                Some(i) => match self.ctx.repository.stored_define(i.define_id) {
                    None => r matches Err(JeeflowError::DefineNotFound(x)) && x == i.define_id,
                    Some(d) => if crate::json_parse::json_read(crate::model::lossy_text(d.content)) is None {
                        r matches Err(JeeflowError::ParseError(_))
                    } else {
                        r is Ok
                    },
                },
            },
    {
        let (instance, define) = self.load_instance(task)?;
        let model = ModelParser::parse(define.content_str().as_str())?;
        Ok((instance, define, model))
    }

    /// The step's variables: the instance's, overridden by the submitted args, plus the
    /// operator's user variables.
    fn step_args(&self, instance: &ProcessInstance, args: &FlowData, operator: &str) -> (r: FlowData)
        ensures
            (self.ctx.user_provider is None || is_super_operator(operator@)) ==> forall|q: Seq<char>| #[trigger] r.lookup(q)
                == step_lookup(instance@.variables, *args, q),
    {
        let mut full_args = instance.variables.dup();
        full_args.merge(args);
        self.load_user_info(&mut full_args, operator);
        full_args
    }

    /// Finish the task in the instance (a disagreeing vote, submit type 20, is flagged on the
    /// instance, the step and the task) and store the task.
    fn complete_in_instance(
        &mut self,
        instance: &mut ProcessInstance,
        full_args: &mut FlowData,
        task_id: i64,
        operator: &str,
        args: &FlowData,
    ) -> (r: JeeflowResult<Option<i64>>)
        ensures
            ({
                let i = crate::model::task_index(old(instance)@.tasks, task_id);
                let t = old(instance)@.tasks[i];
                &&& i == -1 ==> (r matches Err(JeeflowError::Business(m))
                    && m@ == crate::model::not_found_in_msg(task_id, old(instance)@.instance_id))
                &&& (i >= 0 && !(task_allows(t, operator@) && t.task_state == TASK_DOING)) ==> (
                    r matches Err(JeeflowError::Business(m)) && m@ == crate::model::finish_error(t, operator@))
                &&& r is Ok ==> (i >= 0 && task_allows(t, operator@) && t.task_state == TASK_DOING
                    && r == Ok::<Option<i64>, JeeflowError>(crate::engine::submit_type_spec(*old(full_args)))
                    && final(instance)@.tasks.len() == old(instance)@.tasks.len()
                    && final(instance)@.tasks[i].task_state == crate::model::TASK_FINISHED
                    && final(instance)@.tasks[i].actor_id == Some(operator@)
                    && final(instance)@.tasks[i].task_id == task_id)
            }),
            crate::engine::submit_type_spec(*old(full_args)) == Some(20i64) ==> final(full_args).lookup("countersignDisagreeFlag"@)
                == Some(crate::json::JView::Str("1"@)),
            crate::engine::submit_type_spec(*old(full_args)) != Some(20i64) ==> *final(full_args) == *old(full_args),
            final(instance)@.instance_id == old(instance)@.instance_id,
            final(instance)@.operator == old(instance)@.operator,
            forall|q: Seq<char>| q != "countersignDisagreeFlag"@ ==> #[trigger] final(full_args).lookup(q) == old(full_args).lookup(q),
            final(self).ctx.interceptors == old(self).ctx.interceptors,
            smooth(*old(self)) ==> smooth(*final(self)),
            ({
                let i = crate::model::task_index(old(instance)@.tasks, task_id);
                (i >= 0 && task_allows(old(instance)@.tasks[i], operator@) && old(instance)@.tasks[i].task_state == TASK_DOING
                    && old(self).ctx.repository.reliable()) ==> r is Ok
            }),
            r is Ok ==> ({
                let i = crate::model::task_index(old(instance)@.tasks, task_id);
                final(self).ctx.repository.task_writes() == old(self).ctx.repository.task_writes().push(final(instance)@.tasks[i])
            }),
            writes_extend(old(self).ctx.repository.task_writes(), final(self).ctx.repository.task_writes()),
    {
        let submit_type = submit_type_of(full_args);
        let disagree = match submit_type {
            Some(n) => n == 20,
            None => false,
        };
        if disagree {
            instance.variables.insert_str("countersignDisagreeFlag", "1");
            full_args.insert_str("countersignDisagreeFlag", "1");
        }
        assert(instance@.tasks == old(instance)@.tasks);
        let ghost i0 = crate::model::task_index(old(instance)@.tasks, task_id);
        proof {
            crate::model::lemma_task_index(old(instance)@.tasks, task_id);
        }
        match instance.complete_task(task_id, operator, args) {
            Ok(()) => {},
            Err(e) => {
                return Err(JeeflowError::Business(e));
            },
        }
        assert(instance@.tasks[i0].task_state == crate::model::TASK_FINISHED);
        assert(instance@.tasks[i0].actor_id == Some(operator@));
        let ghost n0 = instance@.tasks.len();
        proof {
            lemma_ids_keep_index(old(instance)@.tasks, instance@.tasks, task_id, i0);
        }
        if disagree {
            match instance.find_task(task_id) {
                Some(i) => {
                    if i < instance.tasks.len() {
                        let mut t = instance.tasks[i].dup();
                        t.variables.insert_str("countersignDisagreeFlag", "1");
                        assert(t.task_state == instance.tasks@[i as int].task_state);
                        let ghost mid = instance.tasks@;
                        let ghost vmid = instance@.tasks;
                        assert(i as int == i0);
                        assert(forall|j: int| 0 <= j < i0 ==> #[trigger] vmid[j].task_id == old(instance)@.tasks[j].task_id);
                        instance.tasks.set(i, t);
                        assert forall|j: int| 0 <= j < i0 implies #[trigger] instance@.tasks[j].task_id == old(instance)@.tasks[j].task_id by {
                            assert(instance.tasks@[j] == mid[j]);
                            assert(vmid[j] == mid[j]@);
                            assert(instance@.tasks[j] == instance.tasks@[j]@);
                        }
                    }
                },
                None => {},
            }
        }
        assert(instance@.tasks.len() == n0);
        assert(instance@.tasks[i0].task_state == crate::model::TASK_FINISHED);
        assert(instance@.tasks[i0].actor_id == Some(operator@));
        proof {
            lemma_ids_keep_index(old(instance)@.tasks, instance@.tasks, task_id, i0);
        }
        match instance.find_task(task_id) {
            Some(i) => {
                if i < instance.tasks.len() {
                    self.ctx.repository.update_task(&instance.tasks[i])?;
                }
            },
            None => {},
        }
        Ok(submit_type)
    }

    /// Store what the step created and the instance.
    fn finish_step(&mut self, exec: &mut Execution) -> (r: JeeflowResult<Vec<ProcessTask>>)
        ensures
            r is Ok ==> final(exec).new_tasks@.len() == 0,
            r matches Ok(v) ==> v@.len() == old(exec).new_tasks@.len() && forall|k: int| 0 <= k < v@.len() ==> persisted_as(
                #[trigger] old(exec).new_tasks@[k]@,
                v@[k]@,
                old(exec).process_instance.instance_id,
                lineage_of(old(exec).process_task),
            ),
            r matches Ok(v) ==> final(self).ctx.repository.task_writes() == old(self).ctx.repository.task_writes()
                + crate::model::task_views(v@),
            smooth(*old(self)) ==> smooth(*final(self)),
            smooth(*old(self)) ==> r is Ok,
            writes_extend(old(self).ctx.repository.task_writes(), final(self).ctx.repository.task_writes()),
    {
        self.persist_tasks(exec)?;
        self.ctx.repository.update_instance(&exec.process_instance)?;
        let mut out: Vec<ProcessTask> = Vec::new();
        std::mem::swap(&mut out, &mut exec.new_tasks);
        Ok(out)
    }

    /// Work a task: it must exist and be DOING and the operator must be allowed; the task is
    /// finished, the node's interceptors run, a countersign node passes its gate, the model
    /// goes on from the node, task-level carbon copies are sent, and the new tasks stored.
    pub fn execute_task_async(&mut self, task_id: i64, operator: &str, args: &FlowData) -> (r: JeeflowResult<Vec<ProcessTask>>)
        ensures
            r is Ok ==> (worked_task_ok(old(self).ctx.repository, task_id, operator@)
                && old(self).ctx.repository.stored_task(task_id).unwrap().task_state == TASK_DOING),
            r is Ok ==> checks_pass(old(self).ctx.repository, task_id, operator@, true, true),
            r is Ok ==> first_write_finishes(old(self).ctx.repository, final(self).ctx.repository, task_id, operator@),
            r matches Ok(v) ==> ends_with_returned(final(self).ctx.repository, v@),
            old(self).ctx.interceptors@.len() == 0 ==> (r matches Ok(v) ==> returned_doing_in(old(self).ctx.repository, task_id, v@)),
            (smooth(*old(self)) && checks_pass(old(self).ctx.repository, task_id, operator@, true, true)
                && history_allows(old(self).ctx.repository, task_id, operator@)) ==> (r matches Err(e) ==> nests_too_deeply(e)),
            old(self).ctx.repository.reliable() && !checks_pass(old(self).ctx.repository, task_id, operator@, true, true) ==> (
                check_error(old(self).ctx.repository, task_id, operator@, true, true, r) && *final(self) == *old(self)),
            final(self).steps@ == (if r is Ok {
                old(self).steps@.push((task_id, operator@, *args))
            } else {
                old(self).steps@
            }),
    {
        let ghost before = self.steps@;
        let r = self.work_task(task_id, operator, args);
        proof {
            if r is Ok {
                self.steps = Ghost(before.push((task_id, operator@, *args)));
            } else {
                self.steps = Ghost(before);
            }
        }
        r
    }

    /// Work a task (see `execute_task_async`).
    fn work_task(&mut self, task_id: i64, operator: &str, args: &FlowData) -> (r: JeeflowResult<Vec<ProcessTask>>)
        ensures
            r is Ok ==> (worked_task_ok(old(self).ctx.repository, task_id, operator@)
                && old(self).ctx.repository.stored_task(task_id).unwrap().task_state == TASK_DOING),
            r is Ok ==> checks_pass(old(self).ctx.repository, task_id, operator@, true, true),
            r is Ok ==> first_write_finishes(old(self).ctx.repository, final(self).ctx.repository, task_id, operator@),
            r matches Ok(v) ==> ends_with_returned(final(self).ctx.repository, v@),
            old(self).ctx.interceptors@.len() == 0 ==> (r matches Ok(v) ==> returned_doing_in(old(self).ctx.repository, task_id, v@)),
            (smooth(*old(self)) && checks_pass(old(self).ctx.repository, task_id, operator@, true, true)
                && history_allows(old(self).ctx.repository, task_id, operator@)) ==> (r matches Err(e) ==> nests_too_deeply(e)),
            old(self).ctx.repository.reliable() && !checks_pass(old(self).ctx.repository, task_id, operator@, true, true) ==> (
                check_error(old(self).ctx.repository, task_id, operator@, true, true, r) && *final(self) == *old(self)),
    {
        let found = self.ctx.repository.find_task_by_id(task_id)?;
        let task = found_task(found, task_id)?;
        match require_doing(&task, task_id) {
            Ok(()) => {},
            Err(e) => {
                return Err(e);
            },
        }
        let (mut instance, define, model) = self.load_for_task(&task)?;
        let ghost iid = instance@.instance_id;
        let mut full_args = self.step_args(&instance, args, operator);
        match permission_check(&task, operator, task_id) {
            Ok(()) => {},
            Err(e) => {
                return Err(e);
            },
        }
        let ghost pre = instance@.tasks;
        let submit_type = self.complete_in_instance(&mut instance, &mut full_args, task_id, operator, args)?;
        let ghost base = self.ctx.repository.task_writes();
        proof {
            let t0 = instance@.tasks[crate::model::task_index(pre, task_id)];
            assert(finished_by(t0, task_id, operator@));
            assert(base == old(self).ctx.repository.task_writes().push(t0));
        }
        let node: Option<NodeModel> = match model.get_node(task.task_name.as_str()) {
            Some(n) => Some(n.dup()),
            None => None,
        };
        let mut exec = Execution::new(instance, model, define, operator, full_args);
        assert(exec.process_instance.instance_id == iid);
        assert(all_doing(exec.new_tasks@));
        exec.process_task = Some(task.dup());
        match &node {
            Some(cur) => {
                exec.current_node = Some(cur.dup());
                self.fire_post_interceptors(&mut exec)?;
            },
            None => {},
        }
        match &node {
            Some(n) => {
                if n.is_countersign() {
                    let ghost w0 = self.ctx.repository.task_writes();
                    let wait = self.countersign_gate(&mut exec, n, submit_type)?;
                    proof {
                        lemma_writes_extend_trans(base, w0, self.ctx.repository.task_writes());
                    }
                    if wait {
                        let ghost w1 = self.ctx.repository.task_writes();
                        let ghost nt = exec.new_tasks@;
                        let ghost eid = exec.process_instance.instance_id;
                        let ghost lin = lineage_of(exec.process_task);
                        let out = self.finish_step(&mut exec);
                        proof {
                            if out is Ok && old(self).ctx.interceptors@.len() == 0 {
                                lemma_returned_doing(nt, out->Ok_0@, eid, lin);
                            }
                        }
                        proof {
                            lemma_writes_extend_trans(base, w1, self.ctx.repository.task_writes());
                            if out is Ok {
                                lemma_ends_with(w1, out->Ok_0@);
                            }
                        }
                        return out;
                    }
                }
                let ghost w2 = self.ctx.repository.task_writes();
                self.execute_outputs(&mut exec, n.id.as_str(), NODE_DEPTH_LIMIT)?;
                proof {
                    lemma_writes_extend_trans(base, w2, self.ctx.repository.task_writes());
                }
            },
            None => {},
        }
        let cc: Vec<String> = match exec.args.get_str("tf_ccActors") {
            Some(s) => split_csv(s),
            None => Vec::new(),
        };
        let ghost w3 = self.ctx.repository.task_writes();
        assert(writes_extend(base, w3));
        if cc.len() > 0 {
            self.ctx.repository.create_cc_instance(exec.process_instance.instance_id, operator, cc.as_slice())?;
            self.notify_cc_create(exec.process_instance.instance_id, cc.as_slice());
        }
        let ghost w4 = self.ctx.repository.task_writes();
        let ghost nt = exec.new_tasks@;
        let ghost eid = exec.process_instance.instance_id;
        let ghost lin = lineage_of(exec.process_task);
        let out = self.finish_step(&mut exec);
        proof {
            if out is Ok && old(self).ctx.interceptors@.len() == 0 {
                lemma_returned_doing(nt, out->Ok_0@, eid, lin);
            }
        }
        proof {
            lemma_writes_extend_trans(base, w3, w4);
            lemma_writes_extend_trans(base, w4, self.ctx.repository.task_writes());
            if out is Ok {
                lemma_ends_with(w4, out->Ok_0@);
            }
        }
        out
    }

    /// The countersign gate after one of the node's tasks was finished; `Ok(true)` when the
    /// node waits (or passed on to the next operator) and the step ends here. When the node
    /// merges (a one-vote veto, the last operator of a sequence, a completion condition that
    /// holds, or all tasks finished) the node's tasks still doing are abandoned, in the
    /// execution and in the store; while it waits nothing changes but the tallies.
    pub fn countersign_gate(&mut self, exec: &mut Execution, node: &NodeModel, submit_type: Option<i64>) -> (r: JeeflowResult<bool>)
        ensures
            ({
                let veto_hit = submit_type == Some(20i64) && gate_is_veto(*node);
                let evaluated = !veto_hit && !gate_is_seq(*node) && gate_has_expr(*node);
                let cond_holds = evaluated && crate::eval::simple_eval_spec(
                    gate_cond(*node).unwrap(),
                    old(exec).args,
                    final(exec).gate_vars,
                );
                let step = gate_of(*old(exec), *node, submit_type, cond_holds);
                &&& r matches Ok(b) ==> b == (step != GateStep::Merge)
                &&& evaluated ==> ({
                    let c = gate_counts(old(exec).process_instance@.tasks, node.id@);
                    &&& final(exec).gate_vars.lookup("nrOfInstances"@) == Some(crate::json::JView::Number((c.0 as i64) as int, 0))
                    &&& final(exec).gate_vars.lookup("nrOfActivateInstances"@) == Some(crate::json::JView::Number((c.2 as i64) as int, 0))
                    &&& final(exec).gate_vars.lookup("nrOfCompletedInstances"@) == Some(crate::json::JView::Number((c.1 as i64) as int, 0))
                    &&& final(exec).process_instance.variables.lookup("nrOfInstances"@) == Some(crate::json::JView::Number((c.0 as i64) as int, 0))
                    &&& final(exec).process_instance.variables.lookup("nrOfActivateInstances"@) == Some(crate::json::JView::Number((c.2 as i64) as int, 0))
                    &&& final(exec).process_instance.variables.lookup("nrOfCompletedInstances"@) == Some(crate::json::JView::Number((c.1 as i64) as int, 0))
                })
                &&& (r is Ok && step == GateStep::Merge) ==> final(exec).is_merged
                &&& (r is Ok && step == GateStep::Merge) ==> final(exec).process_instance.tasks@.len()
                    == old(exec).process_instance.tasks@.len()
                &&& (r is Ok && step == GateStep::Merge) ==> forall|k: int| 0 <= k < old(exec).process_instance.tasks@.len() ==> {
                    let t = #[trigger] old(exec).process_instance.tasks@[k];
                    let u = final(exec).process_instance.tasks@[k];
                    if t.task_name@ == node.id@ && t.task_state == TASK_DOING {
                        u@ == (TaskView { task_state: TASK_ABANDON, ..t@ })
                            && abandoned_in_store(final(self).ctx.repository, t.task_id, node.id@)
                    } else {
                        u@ == t@
                    }
                }
                &&& writes_extend(old(self).ctx.repository.task_writes(), final(self).ctx.repository.task_writes())
                &&& smooth(*old(self)) ==> smooth(*final(self)) && r is Ok
                &&& final(self).ctx.interceptors == old(self).ctx.interceptors
                &&& final(exec).process_instance.instance_id == old(exec).process_instance.instance_id
                &&& all_doing(old(exec).new_tasks@) ==> all_doing(final(exec).new_tasks@)
                &&& step == GateStep::Wait ==> (r == Ok::<bool, JeeflowError>(true)
                    && final(exec).process_instance.tasks@ == old(exec).process_instance.tasks@
                    && final(exec).new_tasks@ == old(exec).new_tasks@
                    && *final(self) == *old(self))
            }),
    {
        let node_id = node.id.as_str();
        let ghost tasks0 = exec.process_instance@.tasks;
        let mut total: usize = 0;
        let mut finished: usize = 0;
        let mut doing: usize = 0;
        let mut all_finished = true;
        let mut i: usize = 0;
        while i < exec.process_instance.tasks.len()
            invariant
                0 <= total <= i,
                0 <= finished <= total,
                0 <= doing <= total,
                0 <= i <= tasks0.len(),
                tasks0 == exec.process_instance@.tasks,
                tasks0 == old(exec).process_instance@.tasks,
                node_id@ == node.id@,
                gate_counts(tasks0.take(i as int), node.id@) == (total as int, finished as int, doing as int, all_finished),
            decreases exec.process_instance.tasks.len() - i,
        {
            assert(tasks0.take(i + 1).drop_last() =~= tasks0.take(i as int));
            let t = &exec.process_instance.tasks[i];
            if str_eq(t.task_name.as_str(), node_id) {
                total = total + 1;
                if t.is_finished() {
                    finished = finished + 1;
                } else {
                    all_finished = false;
                }
                if t.task_state == TASK_DOING {
                    doing = doing + 1;
                }
            }
            i = i + 1;
        }
        assert(tasks0.take(i as int) =~= tasks0);
        let cs_type = node.countersign_type();
        let cond: Option<String> = match node.countersign_completion_condition() {
            Some(c) => Some(trim_str(c.as_str())),
            None => None,
        };
        let is_seq = is_sequential_type(cs_type.as_str());
        let is_veto_cond = match &cond {
            Some(c) => str_eq_ignore_ascii_case(c.as_str(), "ONE_VOTE_VETO"),
            None => false,
        };
        let disagree = match submit_type {
            Some(n) => n == 20,
            None => false,
        };
        let veto_hit = disagree && is_veto_cond;
        let has_expr = match &cond {
            Some(c) => !c.as_str().is_empty() && !is_veto_cond,
            None => false,
        };
        let mut op_key = owned("csv_");
        push_str(&mut op_key, node_id);
        push_str(&mut op_key, "_operatorList");
        let mut lc_key = owned("csv_");
        push_str(&mut lc_key, node_id);
        push_str(&mut lc_key, "_loopCounter");
        let operators = split_csv(exec.process_instance.variables.get_str_or(op_key.as_str(), "").as_str());
        let counter = exec.process_instance.variables.get_i64_or(lc_key.as_str(), 0);
        assert(op_key@ == "csv_"@ + node.id@ + "_operatorList"@);
        assert(lc_key@ == "csv_"@ + node.id@ + "_loopCounter"@);
        assert(crate::model::opt_view(cond) == gate_cond(*node));
        assert(is_veto_cond == gate_is_veto(*node));
        assert(has_expr == gate_has_expr(*node));
        assert(is_seq == gate_is_seq(*node));
        assert(counter == gate_counter(old(exec).process_instance.variables, *node));
        proof {
            reveal_strlit("");
        }
        assert(crate::text::views(operators@) == gate_operators(old(exec).process_instance.variables, *node));
        let mut cond_holds = false;
        if !veto_hit && !is_seq && has_expr {
            let total = total as i64;
            let doing = doing as i64;
            let finished = finished as i64;
            proof {
                reveal_strlit("nrOfInstances");
                reveal_strlit("nrOfActivateInstances");
                reveal_strlit("nrOfCompletedInstances");
                assert("nrOfInstances"@.len() == 13 && "nrOfActivateInstances"@.len() == 21
                    && "nrOfCompletedInstances"@.len() == 22);
            }
            exec.gate_vars.insert_i64("nrOfInstances", total);
            exec.gate_vars.insert_i64("nrOfActivateInstances", doing);
            exec.gate_vars.insert_i64("nrOfCompletedInstances", finished);
            assert(exec.gate_vars.lookup("nrOfInstances"@) == Some(crate::json::JView::Number(
                (gate_counts(old(exec).process_instance@.tasks, node.id@).0 as i64) as int, 0)));
            assert(exec.gate_vars.lookup("nrOfActivateInstances"@) == Some(crate::json::JView::Number(
                (gate_counts(old(exec).process_instance@.tasks, node.id@).2 as i64) as int, 0)));
            assert(exec.gate_vars.lookup("nrOfCompletedInstances"@) == Some(crate::json::JView::Number(
                (gate_counts(old(exec).process_instance@.tasks, node.id@).1 as i64) as int, 0)));
            exec.process_instance.variables.insert_i64("nrOfInstances", total);
            exec.process_instance.variables.insert_i64("nrOfActivateInstances", doing);
            exec.process_instance.variables.insert_i64("nrOfCompletedInstances", finished);
            match &cond {
                Some(c) => {
                    cond_holds = simple_eval(c.as_str(), &exec.args, &exec.gate_vars);
                },
                None => {},
            }
        }
        let ghost gv = exec.gate_vars;
        assert(cond_holds == (!veto_hit && !is_seq && has_expr && crate::eval::simple_eval_spec(
            gate_cond(*node).unwrap(),
            old(exec).args,
            gv,
        )));
        assert(exec.args == old(exec).args);
        let step = gate_step(veto_hit, is_seq, counter, operators.len(), has_expr, cond_holds, all_finished);
        assert(step == gate_of(*old(exec), *node, submit_type, cond_holds));
        match step {
            GateStep::Merge => {
                self.abandon_countersign_remaining(exec, node_id)?;
                exec.is_merged = true;
                Ok(false)
            },
            GateStep::NextInSequence => {
                assert(crate::engine::gate_step_spec(veto_hit, is_seq, counter, operators.len(), has_expr, cond_holds, all_finished)
                    == GateStep::NextInSequence);
                assert(0 <= counter && counter + 1 < operators.len());
                let next: usize = (counter as usize) + 1;
                exec.process_instance.variables.insert_i64(lc_key.as_str(), next as i64);
                let one: Vec<String> = vec![operators[next].clone()];
                let tasks = exec.process_instance.create_countersign_tasks(
                    node_id,
                    node.display_name.as_str(),
                    one.as_slice(),
                    exec.operator.as_str(),
                    TaskType::from_code(node.task_type()),
                    node.form_key(),
                    None,
                );
                append_tasks(&mut exec.new_tasks, tasks);
                Ok(true)
            },
            GateStep::Wait => Ok(true),
        }
    }

    /// Work a task and jump to the node named `target_name`, or, without one, one step back.
    pub fn execute_and_jump_async(
        &mut self,
        task_id: i64,
        operator: &str,
        args: &FlowData,
        target_name: Option<&str>,
    ) -> (r: JeeflowResult<Vec<ProcessTask>>)
        ensures
            r is Ok ==> worked_task_ok(old(self).ctx.repository, task_id, operator@),
            r is Ok ==> checks_pass(old(self).ctx.repository, task_id, operator@, false, true),
            r is Ok ==> first_write_finishes(old(self).ctx.repository, final(self).ctx.repository, task_id, operator@),
            r matches Ok(v) ==> ends_with_returned(final(self).ctx.repository, v@),
            (target_name is Some && (old(self).ctx.user_provider is None || is_super_operator(operator@))
                && jump_lands(old(self).ctx.repository, task_id, *args, target_name.unwrap()@)) ==> (r matches Ok(v)
                ==> all_named(v@, target_name.unwrap()@)),
            (old(self).ctx.interceptors@.len() == 0 && target_name is Some) ==> (r matches Ok(v) ==> returned_doing_in(
                old(self).ctx.repository,
                task_id,
                v@,
            )),
            (target_name is Some && smooth(*old(self)) && checks_pass(old(self).ctx.repository, task_id, operator@, false, true)
                && history_allows(old(self).ctx.repository, task_id, operator@)) ==> (r matches Err(e) ==> nests_too_deeply(e)),
            old(self).ctx.repository.reliable() && !checks_pass(old(self).ctx.repository, task_id, operator@, false, true) ==> (
                check_error(old(self).ctx.repository, task_id, operator@, false, true, r) && *final(self) == *old(self)),
    {
        match target_name {
            Some(name) => self.execute_jump_inner(task_id, operator, args, JumpTarget::Node(owned(name))),
            None => self.execute_jump_inner(task_id, operator, args, JumpTarget::RollbackLineage),
        }
    }

    fn execute_jump_inner(&mut self, task_id: i64, operator: &str, args: &FlowData, mode: JumpTarget) -> (r: JeeflowResult<Vec<ProcessTask>>)
        ensures
            (jump_node_name(mode) is Some && (old(self).ctx.user_provider is None || is_super_operator(operator@))
                && jump_lands(old(self).ctx.repository, task_id, *args, jump_node_name(mode).unwrap())) ==> (r matches Ok(v)
                ==> all_named(v@, jump_node_name(mode).unwrap())),
            r is Ok ==> worked_task_ok(old(self).ctx.repository, task_id, operator@),
            r is Ok ==> checks_pass(old(self).ctx.repository, task_id, operator@, false, true),
            r is Ok ==> first_write_finishes(old(self).ctx.repository, final(self).ctx.repository, task_id, operator@),
            r matches Ok(v) ==> ends_with_returned(final(self).ctx.repository, v@),
            (old(self).ctx.interceptors@.len() == 0 && !(mode is RollbackLineage)) ==> (r matches Ok(v) ==> returned_doing_in(
                old(self).ctx.repository,
                task_id,
                v@,
            )),
            (!(mode is RollbackLineage) && smooth(*old(self)) && checks_pass(old(self).ctx.repository, task_id, operator@, false, true)
                && history_allows(old(self).ctx.repository, task_id, operator@)) ==> (r matches Err(e) ==> nests_too_deeply(e)),
            old(self).ctx.repository.reliable() && !checks_pass(old(self).ctx.repository, task_id, operator@, false, true) ==> (
                check_error(old(self).ctx.repository, task_id, operator@, false, true, r) && *final(self) == *old(self)),
    {
        let found = self.ctx.repository.find_task_by_id(task_id)?;
        let task = found_task(found, task_id)?;
        assert(self.ctx.repository.stored_task(task_id) == Some(task@));
        let (mut instance, define, model) = self.load_for_task(&task)?;
        let ghost i0 = instance@;
        let ghost iid = instance@.instance_id;
        let mut full_args = self.step_args(&instance, args, operator);
        match permission_check(&task, operator, task_id) {
            Ok(()) => {},
            Err(e) => {
                return Err(e);
            },
        }
        let ghost pre = instance@.tasks;
        self.complete_in_instance(&mut instance, &mut full_args, task_id, operator, args)?;
        let ghost base = self.ctx.repository.task_writes();
        proof {
            let t0 = instance@.tasks[crate::model::task_index(pre, task_id)];
            assert(finished_by(t0, task_id, operator@));
            assert(base == old(self).ctx.repository.task_writes().push(t0));
        }
        let mut exec = Execution::new(instance, model, define, operator, full_args);
        exec.process_task = Some(task);
        assert(exec.process_instance.instance_id == iid);
        assert(all_doing(exec.new_tasks@));
        let ghost rollback = mode is RollbackLineage;
        let ghost named = jump_node_name(mode);
        let ghost lands = named is Some && (old(self).ctx.user_provider is None || is_super_operator(operator@))
            && jump_lands(old(self).ctx.repository, task_id, *args, named.unwrap());
        let ghost e_start = exec;
        match mode {
            JumpTarget::Node(name) => {
                let target: Option<NodeModel> = match exec.process_model.get_node(name.as_str()) {
                    Some(n) => Some(n.dup()),
                    None => None,
                };
                proof {
                    if lands {
                        let j = crate::json_parse::json_read(crate::model::lossy_text(
                            old(self).ctx.repository.stored_define(i0.define_id).unwrap().content,
                        )).unwrap();
                        assert(crate::parser::model_matches(exec.process_model, j));
                        crate::parser::lemma_first_where(exec.process_model.nodes@, has_id(name@));
                    }
                }
                match target {
                    Some(n) => {
                        let ghost e_before = exec;
                        self.execute_node(&mut exec, &n, NODE_DEPTH_LIMIT)?;
                        proof {
                            if lands {
                                let k = crate::parser::first_where(e_before.process_model.nodes@, has_id(name@));
                                let mn = e_before.process_model.nodes@[k];
                                let (e0, a) = choose|e0: Execution, a: Seq<Seq<char>>|
                                    e0 == (Execution { current_node: e0.current_node, ..e_before })
                                    && #[trigger] actors_possible(e0, n, a) && task_creation(e0, exec, n, a, Ok(()));
                                lemma_lands_named(e0, exec, n, mn, a, i0.variables, *args);
                            }
                        }
                    },
                    None => {},
                }
            },
            JumpTarget::FirstTaskNode => {
                let target: Option<NodeModel> = match exec.process_model.get_first_task_node() {
                    Some(n) => Some(n.dup()),
                    None => None,
                };
                match target {
                    Some(n) => self.execute_node(&mut exec, &n, NODE_DEPTH_LIMIT)?,
                    None => {},
                }
            },
            JumpTarget::RollbackLineage => self.rollback_to_parent(&mut exec)?,
        }
        let ghost w1 = self.ctx.repository.task_writes();
        assert(writes_extend(base, w1));
        let ghost nt = exec.new_tasks@;
        let ghost eid = exec.process_instance.instance_id;
        let ghost lin = lineage_of(exec.process_task);
        let out = self.finish_step(&mut exec);
        proof {
            if out is Ok && old(self).ctx.interceptors@.len() == 0 && !rollback {
                lemma_returned_doing(nt, out->Ok_0@, eid, lin);
            }
            if out is Ok && lands {
                lemma_returned_named(nt, out->Ok_0@, eid, lin, named.unwrap());
            }
        }
        proof {
            lemma_writes_extend_trans(base, w1, self.ctx.repository.task_writes());
            if out is Ok {
                lemma_ends_with(w1, out->Ok_0@);
            }
        }
        out
    }

    /// Work a task and reject the instance: every DOING task is abandoned and the instance
    /// ends.
    pub fn execute_and_jump_to_end_async(&mut self, task_id: i64, operator: &str, args: &FlowData) -> (r: JeeflowResult<Vec<ProcessTask>>)
        ensures
            r matches Ok(v) ==> v@.len() == 0,
            r is Ok ==> worked_task_ok(old(self).ctx.repository, task_id, operator@),
            r is Ok ==> checks_pass(old(self).ctx.repository, task_id, operator@, false, false),
            r is Ok ==> finishes_then_abandons(old(self).ctx.repository, final(self).ctx.repository, task_id, operator@),
            r is Ok ==> instance_left_in(old(self).ctx.repository, final(self).ctx.repository, task_id, crate::model::INSTANCE_REJECT),
            (smooth(*old(self)) && checks_pass(old(self).ctx.repository, task_id, operator@, false, false)
                && history_allows(old(self).ctx.repository, task_id, operator@)) ==> r is Ok,
            old(self).ctx.repository.reliable() && !checks_pass(old(self).ctx.repository, task_id, operator@, false, false) ==> (
                check_error(old(self).ctx.repository, task_id, operator@, false, false, r) && *final(self) == *old(self)),
    {
        let found = self.ctx.repository.find_task_by_id(task_id)?;
        let task = found_task(found, task_id)?;
        let (mut instance, _define) = self.load_instance(&task)?;
        let ghost iid = instance@.instance_id;
        let mut full_args = self.step_args(&instance, args, operator);
        match permission_check(&task, operator, task_id) {
            Ok(()) => {},
            Err(e) => {
                return Err(e);
            },
        }
        let ghost pre = instance@.tasks;
        self.complete_in_instance(&mut instance, &mut full_args, task_id, operator, args)?;
        let ghost base = self.ctx.repository.task_writes();
        let ghost t0 = instance@.tasks[crate::model::task_index(pre, task_id)];
        assert(finished_by(t0, task_id, operator@));
        assert(base == old(self).ctx.repository.task_writes().push(t0));
        let mut was_doing: Vec<bool> = Vec::new();
        let mut k: usize = 0;
        while k < instance.tasks.len()
            invariant
                0 <= k <= instance.tasks.len(),
                was_doing@.len() == k,
                forall|j: int| 0 <= j < k ==> was_doing@[j] == (instance.tasks@[j].task_state == TASK_DOING),
            decreases instance.tasks.len() - k,
        {
            was_doing.push(instance.tasks[k].task_state == TASK_DOING);
            k = k + 1;
        }
        let ghost before_abandon = instance@.tasks;
        instance.reject();
        instance.abandon_all_doing();
        self.ctx.repository.update_instance(&instance)?;
        let ghost mut w: Seq<TaskView> = Seq::empty();
        assert(self.ctx.repository.task_writes() =~= base + w);
        let mut i: usize = 0;
        while i < instance.tasks.len()
            invariant
                checks_pass(old(self).ctx.repository, task_id, operator@, false, false),
                worked_task_ok(old(self).ctx.repository, task_id, operator@),
                was_doing@.len() == before_abandon.len(),
                forall|j: int| 0 <= j < was_doing@.len() ==> was_doing@[j] == ((#[trigger] before_abandon[j]).task_state == TASK_DOING),
                instance@.tasks == crate::model::doing_to(before_abandon, TASK_ABANDON),
                self.ctx.repository.task_writes() == base + w,
                forall|k: int| 0 <= k < w.len() ==> (#[trigger] w[k]).task_state == TASK_ABANDON,
                smooth(*old(self)) ==> self.ctx.repository.reliable(),
                self.ctx.repository.stored_instance(iid) matches Some(x) && x.state == crate::model::INSTANCE_REJECT,
            decreases instance.tasks.len() - i,
        {
            if i < was_doing.len() && was_doing[i] {
                assert(instance@.tasks[i as int] == instance.tasks@[i as int]@);
                assert(instance.tasks@[i as int]@.task_state == TASK_ABANDON);
                let ghost prev = self.ctx.repository;
                self.ctx.repository.update_task(&instance.tasks[i])?;
                proof {
                    assert(crate::spi::same_but_tasks(prev.stored_instance(iid), self.ctx.repository.stored_instance(iid)));
                    let ghost w_old = w;
                    w = w.push(instance.tasks@[i as int]@);
                    assert(base + w =~= (base + w_old).push(instance.tasks@[i as int]@));
                }
            }
            i = i + 1;
        }
        assert(all_abandoned(w));
        let event = ProcessEvent::new(ProcessEventType::ProcessInstanceEnd, instance.instance_id);
        self.publish(&event);
        Ok(Vec::new())
    }

    /// Work a task and send the instance back to its first task node.
    pub fn execute_and_jump_to_first_async(&mut self, task_id: i64, operator: &str, args: &FlowData) -> (r: JeeflowResult<Vec<ProcessTask>>)
        ensures
            r is Ok ==> worked_task_ok(old(self).ctx.repository, task_id, operator@),
            r is Ok ==> checks_pass(old(self).ctx.repository, task_id, operator@, false, true),
            r is Ok ==> first_write_finishes(old(self).ctx.repository, final(self).ctx.repository, task_id, operator@),
            r matches Ok(v) ==> ends_with_returned(final(self).ctx.repository, v@),
            old(self).ctx.interceptors@.len() == 0 ==> (r matches Ok(v) ==> returned_doing_in(old(self).ctx.repository, task_id, v@)),
            ( smooth(*old(self)) && checks_pass(old(self).ctx.repository, task_id, operator@, false, true)
                && history_allows(old(self).ctx.repository, task_id, operator@)) ==> (r matches Err(e) ==> nests_too_deeply(e)),
            old(self).ctx.repository.reliable() && !checks_pass(old(self).ctx.repository, task_id, operator@, false, true) ==> (
                check_error(old(self).ctx.repository, task_id, operator@, false, true, r) && *final(self) == *old(self)),
    {
        self.execute_jump_inner(task_id, operator, args, JumpTarget::FirstTaskNode)
    }

    /// One step back: revive the row the current task came from (see `revive_parent`).
    fn rollback_to_parent(&self, exec: &mut Execution) -> (r: JeeflowResult<()>)
        ensures
            match r {
                Ok(()) => final(exec).new_tasks@.len() == old(exec).new_tasks@.len() + 1
                    && final(exec).new_tasks@.drop_last() == old(exec).new_tasks@
                    && crate::engine::revive_outcome(
                        old(exec).process_task,
                        old(exec).process_instance,
                        old(exec).process_model,
                        Ok::<ProcessTask, JeeflowError>(final(exec).new_tasks@.last()),
                    ),
                Err(e) => *final(exec) == *old(exec) && crate::engine::revive_outcome(
                    old(exec).process_task,
                    old(exec).process_instance,
                    old(exec).process_model,
                    Err::<ProcessTask, JeeflowError>(e),
                ),
            },
    {
        let revived = match revive_parent(&exec.process_task, &exec.process_instance, &exec.process_model) {
            Ok(t) => t,
            Err(e) => {
                return Err(e);
            },
        };
        exec.new_tasks.push(revived);
        assert(exec.new_tasks@.drop_last() =~= old(exec).new_tasks@);
        Ok(())
    }
}

/// Start a one-after-another countersign node: keep its operator list and a zero counter in the
/// instance variables and create the first actor's task.
fn start_sequence(exec: &mut Execution, node: &NodeModel, actor_ids: &Vec<String>, task_type: TaskType)
    requires
        actor_ids@.len() > 0,
    ensures
        ({
            let a = crate::text::views(actor_ids@);
            let old_n = old(exec).new_tasks@.len();
            &&& final(exec).new_tasks@.len() == old_n + 1
            &&& final(exec).new_tasks@.take(old_n as int) == old(exec).new_tasks@
            &&& final(exec).new_tasks@[old_n as int]@.task_name == node.id@
            &&& final(exec).new_tasks@[old_n as int]@.task_state == TASK_DOING
            &&& final(exec).new_tasks@[old_n as int]@.actor_ids == seq![a[0]]
            &&& final(exec).new_tasks@[old_n as int]@.perform_type == 1
            &&& final(exec).process_instance.variables.lookup("csv_"@ + node.id@ + "_operatorList"@)
                == Some(crate::json::JView::Str(crate::text::join(a, ","@)))
            &&& final(exec).process_instance.variables.lookup("csv_"@ + node.id@ + "_loopCounter"@)
                == Some(crate::json::JView::Number(0, 0))
            &&& final(exec).args == old(exec).args
            &&& final(exec).process_instance.instance_id == old(exec).process_instance.instance_id
        }),
{
    let mut op_key = owned("csv_");
    push_str(&mut op_key, node.id.as_str());
    push_str(&mut op_key, "_operatorList");
    let joined = join_with(actor_ids.as_slice(), ",");
    exec.process_instance.variables.insert_str(op_key.as_str(), joined.as_str());
    let mut lc_key = owned("csv_");
    push_str(&mut lc_key, node.id.as_str());
    push_str(&mut lc_key, "_loopCounter");
    proof {
        reveal_strlit("_operatorList");
        reveal_strlit("_loopCounter");
        assert(op_key@.len() != lc_key@.len());
    }
    exec.process_instance.variables.insert_i64(lc_key.as_str(), 0);
    let ghost vars = exec.process_instance.variables;
    assert(vars.lookup(op_key@) == Some(crate::json::JView::Str(joined@)));
    assert(vars.lookup(lc_key@) == Some(crate::json::JView::Number(0, 0)));
    let first: Vec<String> = vec![actor_ids[0].clone()];
    let tasks = exec.process_instance.create_countersign_tasks(
        node.id.as_str(),
        node.display_name.as_str(),
        first.as_slice(),
        exec.operator.as_str(),
        task_type,
        node.form_key(),
        None,
    );
    assert(exec.process_instance.variables.kv() == vars.kv());
    let ghost n0 = exec.new_tasks@.len();
    append_tasks(&mut exec.new_tasks, tasks);
    assert(exec.new_tasks@.take(n0 as int) =~= old(exec).new_tasks@);
    assert(exec.new_tasks@[n0 as int] == tasks@[0]);
    assert(op_key@ =~= "csv_"@ + node.id@ + "_operatorList"@);
    assert(lc_key@ =~= "csv_"@ + node.id@ + "_loopCounter"@);
    assert(exec.process_instance.variables.lookup(op_key@) == vars.lookup(op_key@));
    assert(exec.process_instance.variables.lookup(lc_key@) == vars.lookup(lc_key@));
    assert(exec.new_tasks@[n0 as int]@.actor_ids == seq![crate::text::views(actor_ids@)[0]]);
    assert(exec.new_tasks@[n0 as int]@.perform_type == 1);
}

fn append_tasks(dst: &mut Vec<ProcessTask>, src: Vec<ProcessTask>)
    ensures
        final(dst)@ == old(dst)@ + src@,
{
    let mut src = src;
    dst.append(&mut src);
}

} // verus!
