//! Node handlers, and the countersign completion gate.

use vstd::prelude::*;
use crate::engine::Execution;
use crate::error::JeeflowResult;
use crate::model::{
    is_sequential_name, ref_views, select_state, InstanceView, ProcessTask, TaskView, INSTANCE_FINISHED,
    INSTANCE_REJECT, TASK_DOING, TASK_FINISHED,
};
use crate::json::JView;
use crate::text::{eq_ignore_ascii_case, str_eq, str_eq_ignore_ascii_case, to_upper, trim, trim_str};

verus! {

/// Handles one kind of node.
pub trait IHandler {
    fn handle(&self, execution: &mut Execution) -> JeeflowResult<()>;
}

/// Task nodes: their tasks are created by the engine itself.
pub struct CreateTaskHandler;

impl IHandler for CreateTaskHandler {
    fn handle(&self, _execution: &mut Execution) -> (r: JeeflowResult<()>)
        ensures
            r is Ok,
            *final(_execution) == *old(_execution),
    {
        Ok(())
    }
}

/// Does the step ask for a rejection (`reject` is the text `true`)?
pub open spec fn asks_reject(args: crate::json::FlowData) -> bool {
    args.lookup("reject"@) == Some(JView::Str("true"@))
}

/// End nodes: the instance is rejected when the step asks for it, else finished.
pub struct EndProcessHandler;

impl IHandler for EndProcessHandler {
    fn handle(&self, execution: &mut Execution) -> (r: JeeflowResult<()>)
        ensures
            r is Ok,
            final(execution).process_instance@ == (InstanceView {
                state: if asks_reject(old(execution).args) { INSTANCE_REJECT } else { INSTANCE_FINISHED },
                ..old(execution).process_instance@
            }),
            final(execution).instance_finished,
    {
        let reject = match execution.args.get_str("reject") {
            Some(v) => str_eq(v, "true"),
            None => false,
        };
        if reject {
            execution.process_instance.reject();
        } else {
            execution.process_instance.finish();
        }
        execution.instance_finished = true;
        Ok(())
    }
}

/// Join nodes: the branches merge once no task is doing.
pub struct MergeBranchHandler;

impl IHandler for MergeBranchHandler {
    fn handle(&self, execution: &mut Execution) -> (r: JeeflowResult<()>)
        ensures
            r is Ok,
            final(execution).is_merged == (old(execution).is_merged
                || select_state(old(execution).process_instance@.tasks, TASK_DOING).len() == 0),
            final(execution).process_instance@ == old(execution).process_instance@,
    {
        let doing = execution.process_instance.get_doing_tasks();
        if doing.len() == 0 {
            execution.is_merged = true;
        }
        Ok(())
    }
}

/// Sub-process nodes: the engine starts the sub-process itself.
pub struct StartSubProcessHandler;

impl IHandler for StartSubProcessHandler {
    fn handle(&self, _execution: &mut Execution) -> (r: JeeflowResult<()>)
        ensures
            r is Ok,
            *final(_execution) == *old(_execution),
    {
        Ok(())
    }
}

/// How many of the tasks are finished.
pub open spec fn finished_count(s: Seq<TaskView>) -> nat
    decreases s.len(),
{
    if s.len() == 0 {
        0
    } else {
        finished_count(s.drop_last()) + if s.last().task_state == TASK_FINISHED { 1nat } else { 0nat }
    }
}

pub open spec fn is_veto(c: Seq<char>) -> bool {
    eq_ignore_ascii_case(trim(c), "ONE_VOTE_VETO"@)
}

/// Should a countersign node merge?  A disagreeing vote (submit type 20) under a one-vote-veto
/// condition merges at once; a sequential countersign merges when every task is finished; a
/// parallel one too, unless it has an expression condition, which the engine evaluates itself
/// (then this gate answers no).
pub open spec fn countersign_merges(
    tasks: Seq<TaskView>,
    submit_type: Option<i64>,
    condition: Option<Seq<char>>,
    countersign_type: Seq<char>,
) -> bool {
    let all_done = finished_count(tasks) >= tasks.len();
    if submit_type == Some(20i64) && (condition matches Some(c) && is_veto(c)) {
        true
    } else if is_sequential_name(countersign_type) {
        all_done
    } else {
        match condition {
            Some(c) => if trim(c).len() == 0 || is_veto(c) { all_done } else { false },
            None => all_done,
        }
    }
}

/// A disagreeing vote is soft: unless the node's condition is a one-vote veto, it decides the
/// merge exactly as an agreeing vote would; under a veto it merges the node at once, whatever
/// the tasks.
pub proof fn law_disagreement_is_soft_unless_veto(
    tasks: Seq<TaskView>,
    condition: Option<Seq<char>>,
    countersign_type: Seq<char>,
)
    ensures
        !(condition matches Some(c) && is_veto(c)) ==> countersign_merges(tasks, Some(20i64), condition, countersign_type)
            == countersign_merges(tasks, Some(1i64), condition, countersign_type),
        (condition matches Some(c) && is_veto(c)) ==> countersign_merges(tasks, Some(20i64), condition, countersign_type),
{
}

/// The countersign completion gate.
pub struct CountersignHandler;

impl CountersignHandler {
    pub fn check_merge(
        same_node_tasks: &[&ProcessTask],
        submit_type: Option<i64>,
        completion_condition: Option<&str>,
        countersign_type: &str,
    ) -> (r: bool)
        ensures
            r == countersign_merges(
                ref_views(same_node_tasks@),
                submit_type,
                match completion_condition {
                    Some(c) => Some(c@),
                    None => None,
                },
                countersign_type@,
            ),
    {
        let ghost s = ref_views(same_node_tasks@);
        let total = same_node_tasks.len();
        let mut finished: usize = 0;
        let mut i: usize = 0;
        while i < total
            invariant
                0 <= i <= total,
                total == same_node_tasks@.len(),
                s == ref_views(same_node_tasks@),
                finished as nat == finished_count(s.take(i as int)),
                finished <= i,
            decreases total - i,
        {
            assert(s.take(i + 1).drop_last() =~= s.take(i as int));
            assert(s.take(i + 1).last() == same_node_tasks@[i as int]@);
            if same_node_tasks[i].is_finished() {
                finished = finished + 1;
            }
            i = i + 1;
        }
        assert(s.take(total as int) =~= s);
        proof {
            reveal_strlit("ONE_VOTE_VETO");
        }
        let veto = match completion_condition {
            Some(c) => {
                let t = trim_str(c);
                str_eq_ignore_ascii_case(t.as_str(), "ONE_VOTE_VETO")
            },
            None => false,
        };
        if submit_type == Some(20i64) && veto {
            return true;
        }
        let u = to_upper(countersign_type);
        if str_eq(u.as_str(), "SEQUENTIAL") || str_eq(u.as_str(), "SERIAL") {
            return finished >= total;
        }
        match completion_condition {
            Some(c) => {
                let t = trim_str(c);
                if t.as_str().is_empty() || veto {
                    finished >= total
                } else {
                    false
                }
            },
            None => finished >= total,
        }
    }
}

} // verus!
