//! Service provider interfaces the engine calls out to, for integrations to implement.
//!
//! Stores and generators change state through `&mut self`: an implementation owns its data
//! and the engine borrows it for the length of an operation.

use vstd::prelude::*;
use crate::error::JeeflowResult;
use crate::json::{FlowData, JsonValue};
use crate::model::{
    define_view_opt, instance_view_opt, task_view_opt, DefineRow, DefineView, InstanceRow, InstanceView, PageQuery,
    PageResult, ProcessDefine, ProcessDesign, ProcessDesignHis, ProcessInstance, ProcessSurrogate, ProcessTask,
    TaskRow, TaskView, UserInfo,
};
use crate::text::{chars_of, owned, push_char, push_str};

verus! {

/// Write history `b` continues history `a`: it keeps every write of `a`, in place.
pub open spec fn writes_extend(a: Seq<TaskView>, b: Seq<TaskView>) -> bool {
    a.len() <= b.len() && forall|i: int| 0 <= i < a.len() ==> #[trigger] b[i] == a[i]
}

/// `b` is instance record `a` with perhaps other tasks read for it.
pub open spec fn same_but_tasks(a: Option<InstanceView>, b: Option<InstanceView>) -> bool {
    match (a, b) {
        (Some(x), Some(y)) => y == (InstanceView { tasks: y.tasks, ..x }),
        (None, None) => true,
        _ => false,
    }
}

/// A history that continues one that continues `a` continues `a`.
pub proof fn lemma_writes_extend_trans(a: Seq<TaskView>, b: Seq<TaskView>, c: Seq<TaskView>)
    requires
        writes_extend(a, b),
        writes_extend(b, c),
    ensures
        writes_extend(a, c),
{
    assert forall|i: int| 0 <= i < a.len() implies #[trigger] c[i] == a[i] by {
        assert(b[i] == a[i]);
    }
}

/// Storage of defines, instances, tasks, task actors and carbon copies.
pub trait ProcessRepository {
    /// Whether the store answers every lookup and accepts every write (an in-memory store
    /// does; a database may fail).
    spec fn reliable(&self) -> bool;

    /// The define stored under this id.
    spec fn stored_define(&self, define_id: i64) -> Option<DefineView>;

    /// A lookup that answers reads what is stored.
    fn find_define_by_id(&self, define_id: i64) -> (r: JeeflowResult<Option<ProcessDefine>>)
        ensures
            r matches Ok(o) ==> define_view_opt(o) == self.stored_define(define_id),
            self.reliable() ==> r is Ok,
    ;

    fn save_define(&mut self, define: &mut ProcessDefine) -> JeeflowResult<()>;

    fn update_define(&mut self, define: &ProcessDefine) -> JeeflowResult<()>;

    fn update_define_state(&mut self, define_id: i64, state: i32) -> JeeflowResult<()>;

    fn remove_define(&mut self, define_id: i64) -> JeeflowResult<()>;

    /// The instance stored under this id.
    spec fn stored_instance(&self, instance_id: i64) -> Option<InstanceView>;

    /// A lookup that answers reads what is stored.
    fn find_instance_by_id(&self, instance_id: i64) -> (r: JeeflowResult<Option<ProcessInstance>>)
        ensures
            r matches Ok(o) ==> instance_view_opt(o) == self.stored_instance(instance_id),
            self.reliable() ==> r is Ok,
    ;

    fn save_instance(&mut self, instance: &mut ProcessInstance) -> (r: JeeflowResult<()>)
        ensures
            final(self).task_writes() == old(self).task_writes(),
            old(self).reliable() ==> r is Ok && final(self).reliable(),
    ;

    /// A write that succeeds stores the instance as given (its tasks are read from the tasks
    /// stored for it).
    fn update_instance(&mut self, instance: &ProcessInstance) -> (r: JeeflowResult<()>)
        ensures
            r is Ok ==> same_but_tasks(Some(instance@), final(self).stored_instance(instance.instance_id)),
            final(self).task_writes() == old(self).task_writes(),
            old(self).reliable() ==> r is Ok && final(self).reliable(),
    ;

    /// The task stored under this id.
    spec fn stored_task(&self, task_id: i64) -> Option<TaskView>;

    /// The tasks written so far by `save_task` and `update_task`, in the order they were
    /// written.
    spec fn task_writes(&self) -> Seq<TaskView>;

    /// A lookup that answers reads what is stored.
    fn find_task_by_id(&self, task_id: i64) -> (r: JeeflowResult<Option<ProcessTask>>)
        ensures
            r matches Ok(o) ==> task_view_opt(o) == self.stored_task(task_id),
            self.reliable() ==> r is Ok,
    ;

    /// A write that succeeds may only give the task an id; it stores the task and records
    /// the write.
    fn save_task(&mut self, task: &mut ProcessTask) -> (r: JeeflowResult<()>)
        ensures
            r is Ok ==> final(task)@ == (TaskView { task_id: final(task).task_id, ..old(task)@ }),
            r is Ok ==> final(self).stored_task(final(task).task_id) == Some(final(task)@),
            r is Ok ==> final(self).task_writes() == old(self).task_writes().push(final(task)@),
            writes_extend(old(self).task_writes(), final(self).task_writes()),
            old(self).reliable() ==> r is Ok && final(self).reliable(),
    ;

    /// A write that succeeds stores the task as given and leaves the tasks under other ids.
    fn update_task(&mut self, task: &ProcessTask) -> (r: JeeflowResult<()>)
        ensures
            r is Ok ==> final(self).stored_task(task.task_id) == Some(task@),
            r is Ok ==> forall|id: i64| id != task.task_id ==> #[trigger] final(self).stored_task(id) == old(self).stored_task(id),
            r is Ok ==> final(self).task_writes() == old(self).task_writes().push(task@),
            r is Ok ==> forall|id: i64| same_but_tasks(old(self).stored_instance(id), #[trigger] final(self).stored_instance(id)),
            writes_extend(old(self).task_writes(), final(self).task_writes()),
            old(self).reliable() ==> r is Ok && final(self).reliable(),
    ;

    fn find_doing_tasks(&self, instance_id: i64, task_names: &[String]) -> JeeflowResult<Vec<ProcessTask>>;

    fn find_done_tasks(&self, instance_id: i64, task_names: &[String]) -> JeeflowResult<Vec<ProcessTask>>;

    /// Every task stored for the instance, as the instance reads them.
    fn find_history_tasks(&self, instance_id: i64) -> (r: JeeflowResult<Vec<ProcessTask>>)
        ensures
            self.reliable() ==> r is Ok,
            r matches Ok(v) ==> (self.stored_instance(instance_id) matches Some(i) ==> crate::model::task_views(v@) == i.tasks),
    ;

    fn find_task_actors(&self, task_id: i64) -> JeeflowResult<Vec<String>>;

    fn add_task_actor(&mut self, task_id: i64, actors: &[String]) -> (r: JeeflowResult<()>)
        ensures
            final(self).task_writes() == old(self).task_writes(),
            old(self).reliable() ==> r is Ok && final(self).reliable(),
    ;

    fn remove_task_actor(&mut self, task_id: i64, actors: &[String]) -> JeeflowResult<()>;

    fn create_cc_instance(&mut self, instance_id: i64, creator: &str, actor_ids: &[String]) -> (r: JeeflowResult<()>)
        ensures
            final(self).task_writes() == old(self).task_writes(),
            old(self).reliable() ==> r is Ok && final(self).reliable(),
    ;

    fn update_cc_status(&mut self, instance_id: i64, actor_id: &str) -> JeeflowResult<()>;

    /// The page arithmetic of `query` stays in range for this store's rows.
    spec fn todo_page_ok(&self, query: PageQuery) -> bool;

    /// Whether `query` meets `todo_page_ok`, tested.
    fn todo_page_fits(&self, query: &PageQuery) -> (r: bool)
        ensures
            r == self.todo_page_ok(*query),
    ;

    fn page_todo_tasks(&self, query: &PageQuery) -> JeeflowResult<PageResult<TaskRow>>
        requires
            self.todo_page_ok(*query),
    ;

    /// The page arithmetic of `query` stays in range for this store's rows.
    spec fn done_page_ok(&self, query: PageQuery) -> bool;

    /// Whether `query` meets `done_page_ok`, tested.
    fn done_page_fits(&self, query: &PageQuery) -> (r: bool)
        ensures
            r == self.done_page_ok(*query),
    ;

    fn page_done_tasks(&self, query: &PageQuery) -> JeeflowResult<PageResult<TaskRow>>
        requires
            self.done_page_ok(*query),
    ;

    /// The page arithmetic of `query` stays in range for this store's rows.
    spec fn instance_page_ok(&self, query: PageQuery) -> bool;

    /// Whether `query` meets `instance_page_ok`, tested.
    fn instance_page_fits(&self, query: &PageQuery) -> (r: bool)
        ensures
            r == self.instance_page_ok(*query),
    ;

    fn page_instances(&self, query: &PageQuery) -> JeeflowResult<PageResult<InstanceRow>>
        requires
            self.instance_page_ok(*query),
    ;

    /// The page arithmetic of `query` stays in range for this store's rows.
    spec fn cc_page_ok(&self, query: PageQuery) -> bool;

    /// Whether `query` meets `cc_page_ok`, tested.
    fn cc_page_fits(&self, query: &PageQuery) -> (r: bool)
        ensures
            r == self.cc_page_ok(*query),
    ;

    fn page_cc_instances(&self, query: &PageQuery) -> JeeflowResult<PageResult<InstanceRow>>
        requires
            self.cc_page_ok(*query),
    ;

    /// The page arithmetic of `query` stays in range for this store's rows.
    spec fn define_page_ok(&self, query: PageQuery) -> bool;

    /// Whether `query` meets `define_page_ok`, tested.
    fn define_page_fits(&self, query: &PageQuery) -> (r: bool)
        ensures
            r == self.define_page_ok(*query),
    ;

    fn page_defines(&self, query: &PageQuery) -> JeeflowResult<PageResult<DefineRow>>
        requires
            self.define_page_ok(*query),
    ;

    fn count_todo_tasks(&self, user_id: &str) -> JeeflowResult<i64>;
}

/// Searches users for the candidate picker.
pub trait UserSearchProvider {
    fn page(&self, query: &PageQuery) -> JeeflowResult<PageResult<FlowData>>;

    fn find_by_id(&self, user_id: &str) -> JeeflowResult<Option<FlowData>>;
}

/// Reads the business row a process instance was started for.
pub trait BizDataReader {
    fn read_by_process_instance(&self, table_name: &str, process_instance_id: i64) -> JeeflowResult<Option<FlowData>>;
}

/// Evaluates edge expressions in place of the built-in evaluator.
pub trait ExpressionEvaluator {
    fn eval(&self, expression: &str, context: &FlowData) -> JeeflowResult<JsonValue>;
}

/// Storage of designs, design history and surrogates.
pub trait ProcessExtRepository {
    fn find_design_by_id(&self, design_id: i64) -> JeeflowResult<Option<ProcessDesign>>;

    fn save_design(&mut self, design: &mut ProcessDesign) -> JeeflowResult<()>;

    fn update_design(&mut self, design: &ProcessDesign) -> JeeflowResult<()>;

    fn remove_design(&mut self, design_id: i64) -> JeeflowResult<()>;

    /// The page arithmetic of `query` stays in range for this store's rows.
    spec fn design_page_ok(&self, query: PageQuery) -> bool;

    /// Whether `query` meets `design_page_ok`, tested.
    fn design_page_fits(&self, query: &PageQuery) -> (r: bool)
        ensures
            r == self.design_page_ok(*query),
    ;

    fn page_designs(&self, query: &PageQuery) -> JeeflowResult<PageResult<ProcessDesign>>
        requires
            self.design_page_ok(*query),
    ;

    fn save_design_his(&mut self, his: &mut ProcessDesignHis) -> JeeflowResult<()>;

    fn list_design_his(&self, design_id: i64) -> JeeflowResult<Vec<ProcessDesignHis>>;

    fn find_surrogate_by_id(&self, surrogate_id: i64) -> JeeflowResult<Option<ProcessSurrogate>>;

    fn save_surrogate(&mut self, surrogate: &mut ProcessSurrogate) -> JeeflowResult<()>;

    fn update_surrogate(&mut self, surrogate: &ProcessSurrogate) -> JeeflowResult<()>;

    fn remove_surrogate(&mut self, surrogate_id: i64) -> JeeflowResult<()>;

    /// The page arithmetic of `query` stays in range for this store's rows.
    spec fn surrogate_page_ok(&self, query: PageQuery) -> bool;

    /// Whether `query` meets `surrogate_page_ok`, tested.
    fn surrogate_page_fits(&self, query: &PageQuery) -> (r: bool)
        ensures
            r == self.surrogate_page_ok(*query),
    ;

    fn page_surrogates(&self, query: &PageQuery) -> JeeflowResult<PageResult<ProcessSurrogate>>
        requires
            self.surrogate_page_ok(*query),
    ;

    fn get_surrogate(&self, operator: &str, process_name: &str, time: &str) -> JeeflowResult<Option<ProcessSurrogate>>;
}

/// Hands out ids for new defines, instances and tasks.
pub trait IdGenerator {
    fn next_id(&mut self) -> i64;
}

/// Looks users up.
pub trait UserProvider {
    fn get_user(&self, user_id: &str) -> JeeflowResult<Option<UserInfo>>;
}

/// Organisation lookups used by the built-in assignment handlers.
pub trait OrgUserProvider {
    fn find_dept_leaders(&self, dept_id: &str) -> JeeflowResult<Vec<String>>;

    fn find_dept_main_leaders(&self, dept_id: &str) -> JeeflowResult<Vec<String>>;

    fn find_by_role(&self, role_code: &str) -> JeeflowResult<Vec<String>>;
}

/// Resolves the actors of a task node at run time.
pub trait AssignmentHandler {
    fn assign(&self, execution: &crate::engine::Execution) -> JeeflowResult<String>;
}

/// Picks the branch of a decision node.
pub trait DecisionHandler {
    fn decide(&self, execution: &crate::engine::Execution) -> JeeflowResult<String>;
}

/// Lists the candidates of a node.
pub trait CandidateHandler {
    fn handle(&self, node: &crate::parser::NodeModel) -> JeeflowResult<Vec<Candidate>>;
}

/// A candidate actor.
#[derive(Debug, Clone)]
pub struct Candidate {
    pub id: String,
    pub display_name: String,
}

/// Runs around node execution.
pub trait FlowInterceptor {
    fn intercept(&self, execution: &mut crate::engine::Execution) -> JeeflowResult<()>;

    fn order(&self) -> i32;
}

/// Permission codes an action requires.
pub trait ActionPermissionProvider {
    fn permission_codes(&self, action: &str) -> Vec<String>;
}

/// `wf:` followed by the action with every `/` turned into `:`.
pub struct DefaultActionPermissionProvider;

pub open spec fn slash_to_colon(s: Seq<char>) -> Seq<char> {
    s.map_values(|c: char| if c == '/' { ':' } else { c })
}

pub open spec fn default_permission_code(action: Seq<char>) -> Seq<char> {
    "wf:"@ + slash_to_colon(action)
}

impl DefaultActionPermissionProvider {
    /// The one code of `action`.
    pub fn code_of(action: &str) -> (r: String)
        ensures
            r@ == default_permission_code(action@),
    {
        let v = chars_of(action);
        let mut s = owned("wf:");
        let mut i: usize = 0;
        while i < v.len()
            invariant
                0 <= i <= v.len(),
                v@ == action@,
                s@ == "wf:"@ + slash_to_colon(v@.take(i as int)),
            decreases v.len() - i,
        {
            let c = if v[i] == '/' { ':' } else { v[i] };
            push_char(&mut s, c);
            assert(slash_to_colon(v@.take(i + 1)) =~= slash_to_colon(v@.take(i as int)).push(c));
            i = i + 1;
        }
        assert(v@.take(v.len() as int) =~= v@);
        s
    }
}

impl ActionPermissionProvider for DefaultActionPermissionProvider {
    fn permission_codes(&self, action: &str) -> (r: Vec<String>)
        ensures
            r@.len() == 1,
            r@[0]@ == default_permission_code(action@),
    {
        let code = DefaultActionPermissionProvider::code_of(action);
        vec![code]
    }
}

} // verus!
