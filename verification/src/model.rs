//! Domain model: state codes, the process instance aggregate and its tasks, page types.

use vstd::prelude::*;
use crate::clock::{current_time_str, utc_text};
use crate::json::{FlowData, JView, JsonValue, jview};
use crate::text::{
    char_upper_first, chars_of, i64_text, int_text, owned, push_char, push_str, starts_with,
    str_eq, to_upper, upper_first, upper_text, views,
};

verus! {

// ═══════════════════════ state codes ═══════════════════════

/// Process define state.
#[derive(Debug, Clone, Copy, PartialEq, Eq, Structural)]
pub enum DefineState {
    Disable,
    Enable,
}

impl DefineState {
    /// `0` is disabled; every other code is enabled.
    pub fn from_code(code: i32) -> (r: DefineState)
        ensures
            r == (if code == 0 { DefineState::Disable } else { DefineState::Enable }),
    {
        if code == 0 {
            DefineState::Disable
        } else {
            DefineState::Enable
        }
    }

    pub fn code(&self) -> (r: i32)
        ensures
            r == (match *self {
                DefineState::Disable => 0i32,
                DefineState::Enable => 1i32,
            }),
    {
        match self {
            DefineState::Disable => 0,
            DefineState::Enable => 1,
        }
    }
}

/// Process instance state.
#[derive(Debug, Clone, Copy, PartialEq, Eq, Structural)]
pub enum InstanceState {
    Doing,
    Finished,
    Withdraw,
    Interrupt,
    Reject,
    Pending,
    Abandon,
}

pub open spec fn instance_state_code(s: InstanceState) -> i32 {
    match s {
        InstanceState::Doing => 10,
        InstanceState::Finished => 20,
        InstanceState::Withdraw => 30,
        InstanceState::Interrupt => 40,
        InstanceState::Reject => 45,
        InstanceState::Pending => 50,
        InstanceState::Abandon => 99,
    }
}

impl InstanceState {
    pub fn from_code(code: i32) -> (r: Option<InstanceState>)
        ensures
            match r {
                Some(s) => instance_state_code(s) == code,
                None => forall|s: InstanceState| instance_state_code(s) != code,
            },
    {
        if code == 10 {
            Some(InstanceState::Doing)
        } else if code == 20 {
            Some(InstanceState::Finished)
        } else if code == 30 {
            Some(InstanceState::Withdraw)
        } else if code == 40 {
            Some(InstanceState::Interrupt)
        } else if code == 45 {
            Some(InstanceState::Reject)
        } else if code == 50 {
            Some(InstanceState::Pending)
        } else if code == 99 {
            Some(InstanceState::Abandon)
        } else {
            None
        }
    }

    pub fn code(&self) -> (r: i32)
        ensures
            r == instance_state_code(*self),
    {
        match self {
            InstanceState::Doing => 10,
            InstanceState::Finished => 20,
            InstanceState::Withdraw => 30,
            InstanceState::Interrupt => 40,
            InstanceState::Reject => 45,
            InstanceState::Pending => 50,
            InstanceState::Abandon => 99,
        }
    }
}

/// Process task state.
#[derive(Debug, Clone, Copy, PartialEq, Eq, Structural)]
pub enum TaskState {
    Doing,
    Finished,
    Withdraw,
    Interrupt,
    Pending,
    Abandon,
}

pub open spec fn task_state_code(s: TaskState) -> i32 {
    match s {
        TaskState::Doing => 10,
        TaskState::Finished => 20,
        TaskState::Withdraw => 30,
        TaskState::Interrupt => 40,
        TaskState::Pending => 50,
        TaskState::Abandon => 99,
    }
}

pub const TASK_DOING: i32 = 10;
pub const TASK_FINISHED: i32 = 20;
pub const TASK_WITHDRAW: i32 = 30;
pub const TASK_INTERRUPT: i32 = 40;
pub const TASK_PENDING: i32 = 50;
pub const TASK_ABANDON: i32 = 99;

pub const INSTANCE_DOING: i32 = 10;
pub const INSTANCE_FINISHED: i32 = 20;
pub const INSTANCE_WITHDRAW: i32 = 30;
pub const INSTANCE_INTERRUPT: i32 = 40;
pub const INSTANCE_REJECT: i32 = 45;
pub const INSTANCE_PENDING: i32 = 50;
pub const INSTANCE_ABANDON: i32 = 99;

impl TaskState {
    pub fn from_code(code: i32) -> (r: Option<TaskState>)
        ensures
            match r {
                Some(s) => task_state_code(s) == code,
                None => forall|s: TaskState| task_state_code(s) != code,
            },
    {
        if code == 10 {
            Some(TaskState::Doing)
        } else if code == 20 {
            Some(TaskState::Finished)
        } else if code == 30 {
            Some(TaskState::Withdraw)
        } else if code == 40 {
            Some(TaskState::Interrupt)
        } else if code == 50 {
            Some(TaskState::Pending)
        } else if code == 99 {
            Some(TaskState::Abandon)
        } else {
            None
        }
    }

    pub fn code(&self) -> (r: i32)
        ensures
            r == task_state_code(*self),
    {
        match self {
            TaskState::Doing => 10,
            TaskState::Finished => 20,
            TaskState::Withdraw => 30,
            TaskState::Interrupt => 40,
            TaskState::Pending => 50,
            TaskState::Abandon => 99,
        }
    }
}

/// Task type.
#[derive(Debug, Clone, Copy, PartialEq, Eq, Structural)]
pub enum TaskType {
    Major,
    Assistant,
    Record,
}

pub open spec fn task_type_code(t: TaskType) -> i32 {
    match t {
        TaskType::Major => 0,
        TaskType::Assistant => 1,
        TaskType::Record => 2,
    }
}

impl TaskType {
    /// `1` assistant, `2` record, anything else major.
    pub fn from_code(code: i32) -> (r: TaskType)
        ensures
            r == (if code == 1 {
                TaskType::Assistant
            } else if code == 2 {
                TaskType::Record
            } else {
                TaskType::Major
            }),
    {
        if code == 1 {
            TaskType::Assistant
        } else if code == 2 {
            TaskType::Record
        } else {
            TaskType::Major
        }
    }

    pub fn code(&self) -> (r: i32)
        ensures
            r == task_type_code(*self),
    {
        match self {
            TaskType::Major => 0,
            TaskType::Assistant => 1,
            TaskType::Record => 2,
        }
    }
}

/// Task perform type.
#[derive(Debug, Clone, Copy, PartialEq, Eq, Structural)]
pub enum PerformType {
    Normal,
    Countersign,
}

pub open spec fn perform_type_code(t: PerformType) -> i32 {
    match t {
        PerformType::Normal => 0,
        PerformType::Countersign => 1,
    }
}

impl PerformType {
    /// `1` countersign, anything else normal.
    pub fn from_code(code: i32) -> (r: PerformType)
        ensures
            r == (if code == 1 { PerformType::Countersign } else { PerformType::Normal }),
    {
        if code == 1 {
            PerformType::Countersign
        } else {
            PerformType::Normal
        }
    }

    pub fn code(&self) -> (r: i32)
        ensures
            r == perform_type_code(*self),
    {
        match self {
            PerformType::Normal => 0,
            PerformType::Countersign => 1,
        }
    }
}

/// Countersign type.
#[derive(Debug, Clone, Copy, PartialEq, Eq, Structural)]
pub enum CountersignType {
    Parallel,
    Sequential,
}

/// Upper-cased name reads `SEQUENTIAL` or `SERIAL`.
pub open spec fn is_sequential_name(s: Seq<char>) -> bool {
    upper_text(s) == "SEQUENTIAL"@ || upper_text(s) == "SERIAL"@
}

impl CountersignType {
    /// `SEQUENTIAL` / `SERIAL` (any case) is sequential; everything else parallel.
    pub fn from_str_name(s: &str) -> (r: CountersignType)
        ensures
            r == (if is_sequential_name(s@) {
                CountersignType::Sequential
            } else {
                CountersignType::Parallel
            }),
    {
        let u = to_upper(s);
        if str_eq(u.as_str(), "SEQUENTIAL") || str_eq(u.as_str(), "SERIAL") {
            CountersignType::Sequential
        } else {
            CountersignType::Parallel
        }
    }
}

/// Submit type.
#[derive(Debug, Clone, Copy, PartialEq, Eq, Structural)]
pub enum SubmitType {
    Apply,
    Agree,
    Reject,
    Rollback,
    Jump,
    ReApply,
    RollbackToOperator,
    CountersignDisagree,
}

pub open spec fn submit_type_code(t: SubmitType) -> i64 {
    match t {
        SubmitType::Apply => 0,
        SubmitType::Agree => 1,
        SubmitType::Reject => 2,
        SubmitType::Rollback => 3,
        SubmitType::Jump => 4,
        SubmitType::ReApply => 5,
        SubmitType::RollbackToOperator => 6,
        SubmitType::CountersignDisagree => 20,
    }
}

impl SubmitType {
    pub fn from_code(code: i64) -> (r: Option<SubmitType>)
        ensures
            match r {
                Some(t) => submit_type_code(t) == code,
                None => forall|t: SubmitType| submit_type_code(t) != code,
            },
    {
        if code == 0 {
            Some(SubmitType::Apply)
        } else if code == 1 {
            Some(SubmitType::Agree)
        } else if code == 2 {
            Some(SubmitType::Reject)
        } else if code == 3 {
            Some(SubmitType::Rollback)
        } else if code == 4 {
            Some(SubmitType::Jump)
        } else if code == 5 {
            Some(SubmitType::ReApply)
        } else if code == 6 {
            Some(SubmitType::RollbackToOperator)
        } else if code == 20 {
            Some(SubmitType::CountersignDisagree)
        } else {
            None
        }
    }

    pub fn code(&self) -> (r: i64)
        ensures
            r == submit_type_code(*self),
    {
        match self {
            SubmitType::Apply => 0,
            SubmitType::Agree => 1,
            SubmitType::Reject => 2,
            SubmitType::Rollback => 3,
            SubmitType::Jump => 4,
            SubmitType::ReApply => 5,
            SubmitType::RollbackToOperator => 6,
            SubmitType::CountersignDisagree => 20,
        }
    }
}

/// Code → type → code is the identity; type → code → type is the identity.
pub proof fn law_state_codes_round_trip(s: InstanceState, t: TaskState, st: SubmitType)
    ensures
        forall|x: InstanceState| instance_state_code(x) == instance_state_code(s) ==> x == s,
        forall|x: TaskState| task_state_code(x) == task_state_code(t) ==> x == t,
        forall|x: SubmitType| submit_type_code(x) == submit_type_code(st) ==> x == st,
{
}

// ═══════════════════════ small helpers over text ═══════════════════════

pub open spec fn opt_view(o: Option<String>) -> Option<Seq<char>> {
    match o {
        Some(s) => Some(s@),
        None => None,
    }
}

pub fn clone_opt(o: &Option<String>) -> (r: Option<String>)
    ensures
        opt_view(r) == opt_view(*o),
{
    match o {
        Some(s) => Some(s.clone()),
        None => None,
    }
}

pub fn clone_strings(v: &[String]) -> (r: Vec<String>)
    ensures
        views(r@) == views(v@),
{
    let mut out: Vec<String> = Vec::new();
    let mut i: usize = 0;
    while i < v.len()
        invariant
            0 <= i <= v.len(),
            views(out@) == views(v@.take(i as int)),
        decreases v.len() - i,
    {
        let ghost before = out@;
        out.push(v[i].clone());
        assert(views(out@) =~= views(before).push(v@[i as int]@));
        assert(views(v@.take(i + 1)) =~= views(v@.take(i as int)).push(v@[i as int]@));
        i = i + 1;
    }
    assert(v@.take(v.len() as int) =~= v@);
    out
}

/// Does the list hold `s`?
pub fn contains_str(v: &[String], s: &str) -> (r: bool)
    ensures
        r == views(v@).contains(s@),
{
    let mut i: usize = 0;
    while i < v.len()
        invariant
            0 <= i <= v.len(),
            forall|j: int| 0 <= j < i ==> v@[j]@ != s@,
        decreases v.len() - i,
    {
        if str_eq(v[i].as_str(), s) {
            assert(views(v@)[i as int] == s@);
            return true;
        }
        i = i + 1;
    }
    assert(!views(v@).contains(s@)) by {
        if views(v@).contains(s@) {
            let j = choose|j: int| 0 <= j < views(v@).len() && views(v@)[j] == s@;
            assert(v@[j]@ == s@);
        }
    }
    false
}

/// `snake_case` → `camelCase`: each `_` is dropped and the next character upper-cased.
pub open spec fn camel_from(s: Seq<char>, up: bool) -> Seq<char>
    decreases s.len(),
{
    if s.len() == 0 {
        Seq::empty()
    } else if s[0] == '_' {
        camel_from(s.drop_first(), true)
    } else if up {
        seq![upper_first(s[0])] + camel_from(s.drop_first(), false)
    } else {
        seq![s[0]] + camel_from(s.drop_first(), false)
    }
}

/// Convert `snake_case` to `camelCase`.
pub fn to_camel_case(s: &str) -> (r: String)
    ensures
        r@ == camel_from(s@, false),
{
    let v = chars_of(s);
    let mut out = String::new();
    let mut up = false;
    let mut i: usize = 0;
    assert(v@.skip(0) =~= v@);
    assert(out@ + camel_from(v@.skip(0), up) =~= camel_from(s@, false));
    while i < v.len()
        invariant
            0 <= i <= v.len(),
            v@ == s@,
            out@ + camel_from(v@.skip(i as int), up) == camel_from(s@, false),
        decreases v.len() - i,
    {
        let c = v[i];
        assert(v@.skip(i as int).drop_first() =~= v@.skip(i + 1));
        assert(v@.skip(i as int)[0] == c);
        if c == '_' {
            up = true;
        } else if up {
            push_char(&mut out, char_upper_first(c));
            up = false;
        } else {
            push_char(&mut out, c);
        }
        i = i + 1;
        assert(out@ + camel_from(v@.skip(i as int), up) =~= camel_from(s@, false));
    }
    assert(v@.skip(v.len() as int) =~= Seq::<char>::empty());
    out
}

/// Time text in the engine format (already `yyyy-MM-dd HH:mm:ss`, kept as is).
pub fn format_time(s: &str) -> (r: String)
    ensures
        r@ == s@,
{
    owned(s)
}

// ═══════════════════════ process define ═══════════════════════

#[derive(Debug, Clone)]
pub struct ProcessDefine {
    pub id: i64,
    pub name: String,
    pub display_name: String,
    pub define_type: String,
    pub state: i32,
    pub content: Vec<u8>,
    pub version: i32,
    pub create_time: Option<String>,
    pub create_user: Option<String>,
    pub update_time: Option<String>,
    pub update_user: Option<String>,
}

pub struct DefineView {
    pub id: i64,
    pub name: Seq<char>,
    pub display_name: Seq<char>,
    pub define_type: Seq<char>,
    pub state: i32,
    pub content: Seq<u8>,
    pub version: i32,
    pub create_time: Option<Seq<char>>,
    pub create_user: Option<Seq<char>>,
    pub update_time: Option<Seq<char>>,
    pub update_user: Option<Seq<char>>,
}

impl View for ProcessDefine {
    type V = DefineView;

    open spec fn view(&self) -> DefineView {
        DefineView {
            id: self.id,
            name: self.name@,
            display_name: self.display_name@,
            define_type: self.define_type@,
            state: self.state,
            content: self.content@,
            version: self.version,
            create_time: opt_view(self.create_time),
            create_user: opt_view(self.create_user),
            update_time: opt_view(self.update_time),
            update_user: opt_view(self.update_user),
        }
    }
}

/// What `String::from_utf8_lossy` makes of the bytes.
pub uninterp spec fn lossy_text(b: Seq<u8>) -> Seq<char>;

/// `String::from_utf8_lossy(bytes).to_string()`: valid UTF-8 decodes exactly.
#[verifier::external_body]
pub fn utf8_lossy(bytes: &[u8]) -> (r: String)
    ensures
        r@ == lossy_text(bytes@),
        vstd::utf8::valid_utf8(bytes@) ==> r@ == vstd::utf8::decode_utf8(bytes@),
{
    String::from_utf8_lossy(bytes).to_string()
}

impl ProcessDefine {
    pub fn dup(&self) -> (r: ProcessDefine)
        ensures
            r@ == self@,
    {
        let mut content: Vec<u8> = Vec::new();
        let mut i: usize = 0;
        while i < self.content.len()
            invariant
                0 <= i <= self.content.len(),
                content@ == self.content@.take(i as int),
            decreases self.content.len() - i,
        {
            content.push(self.content[i]);
            i = i + 1;
            assert(content@ =~= self.content@.take(i as int));
        }
        assert(self.content@.take(self.content.len() as int) =~= self.content@);
        ProcessDefine {
            id: self.id,
            name: self.name.clone(),
            display_name: self.display_name.clone(),
            define_type: self.define_type.clone(),
            state: self.state,
            content,
            version: self.version,
            create_time: clone_opt(&self.create_time),
            create_user: clone_opt(&self.create_user),
            update_time: clone_opt(&self.update_time),
            update_user: clone_opt(&self.update_user),
        }
    }

    /// The content bytes as text (invalid UTF-8 replaced).
    pub fn content_str(&self) -> (r: String)
        ensures
            r@ == lossy_text(self.content@),
    {
        utf8_lossy(self.content.as_slice())
    }
}


// ═══════════════════════ process task ═══════════════════════

/// The operator names that bypass every task permission check.
pub open spec fn is_super_operator(op: Seq<char>) -> bool {
    op == "flow.auto"@ || op == "flow.admin"@
}

/// `Some` time text that the engine clock can produce.
pub open spec fn is_clock_text(o: Option<Seq<char>>) -> bool {
    exists|t: i64| o == Some(utc_text(t as int))
}

#[derive(Debug)]
pub struct ProcessTask {
    pub task_id: i64,
    pub process_instance_id: i64,
    pub task_name: String,
    pub display_name: String,
    pub task_type: i32,
    pub perform_type: i32,
    pub task_state: i32,
    pub actor_id: Option<String>,
    pub actor_ids: Vec<String>,
    pub finish_time: Option<String>,
    pub expire_time: Option<String>,
    pub form_key: Option<String>,
    pub parent_task_id: Option<i64>,
    pub variables: FlowData,
    pub create_time: Option<String>,
    pub create_user: Option<String>,
    pub update_time: Option<String>,
    pub update_user: Option<String>,
}

pub struct TaskView {
    pub task_id: i64,
    pub process_instance_id: i64,
    pub task_name: Seq<char>,
    pub display_name: Seq<char>,
    pub task_type: i32,
    pub perform_type: i32,
    pub task_state: i32,
    pub actor_id: Option<Seq<char>>,
    pub actor_ids: Seq<Seq<char>>,
    pub finish_time: Option<Seq<char>>,
    pub expire_time: Option<Seq<char>>,
    pub form_key: Option<Seq<char>>,
    pub parent_task_id: Option<i64>,
    pub variables: Seq<(Seq<char>, JView)>,
    pub create_time: Option<Seq<char>>,
    pub create_user: Option<Seq<char>>,
    pub update_time: Option<Seq<char>>,
    pub update_user: Option<Seq<char>>,
}

impl View for ProcessTask {
    type V = TaskView;

    open spec fn view(&self) -> TaskView {
        TaskView {
            task_id: self.task_id,
            process_instance_id: self.process_instance_id,
            task_name: self.task_name@,
            display_name: self.display_name@,
            task_type: self.task_type,
            perform_type: self.perform_type,
            task_state: self.task_state,
            actor_id: opt_view(self.actor_id),
            actor_ids: views(self.actor_ids@),
            finish_time: opt_view(self.finish_time),
            expire_time: opt_view(self.expire_time),
            form_key: opt_view(self.form_key),
            parent_task_id: self.parent_task_id,
            variables: self.variables.kv(),
            create_time: opt_view(self.create_time),
            create_user: opt_view(self.create_user),
            update_time: opt_view(self.update_time),
            update_user: opt_view(self.update_user),
        }
    }
}

/// May `op` act on the task?  The super operators always may; anyone else only on a doing
/// task that lists them among its actors.
pub open spec fn task_allows(t: TaskView, op: Seq<char>) -> bool {
    is_super_operator(op) || (t.task_state == TASK_DOING && t.actor_ids.contains(op))
}

pub open spec fn not_doing_current_msg(id: i64, state: i32) -> Seq<char> {
    "Task "@ + int_text(id as int) + " is not in DOING state (current="@ + int_text(state as int) + ")"@
}

pub open spec fn not_doing_msg(id: i64) -> Seq<char> {
    "Task "@ + int_text(id as int) + " is not in DOING state"@
}

pub open spec fn not_allowed_msg(op: Seq<char>, id: i64) -> Seq<char> {
    "Operator "@ + op + " is not allowed on task "@ + int_text(id as int)
}

/// The task in another state, everything else kept.
pub open spec fn with_state(t: TaskView, state: i32) -> TaskView {
    TaskView { task_state: state, ..t }
}

/// `a + text(n) + b`.
fn framed(a: &str, n: i64, b: &str) -> (r: String)
    ensures
        r@ == a@ + int_text(n as int) + b@,
{
    let mut s = owned(a);
    let t = i64_text(n);
    push_str(&mut s, t.as_str());
    push_str(&mut s, b);
    s
}

fn not_doing_error(id: i64) -> (r: String)
    ensures
        r@ == not_doing_msg(id),
{
    framed("Task ", id, " is not in DOING state")
}

impl ProcessTask {
    pub fn dup(&self) -> (r: ProcessTask)
        ensures
            r@ == self@,
    {
        ProcessTask {
            task_id: self.task_id,
            process_instance_id: self.process_instance_id,
            task_name: self.task_name.clone(),
            display_name: self.display_name.clone(),
            task_type: self.task_type,
            perform_type: self.perform_type,
            task_state: self.task_state,
            actor_id: clone_opt(&self.actor_id),
            actor_ids: clone_strings(self.actor_ids.as_slice()),
            finish_time: clone_opt(&self.finish_time),
            expire_time: clone_opt(&self.expire_time),
            form_key: clone_opt(&self.form_key),
            parent_task_id: self.parent_task_id,
            variables: self.variables.dup(),
            create_time: clone_opt(&self.create_time),
            create_user: clone_opt(&self.create_user),
            update_time: clone_opt(&self.update_time),
            update_user: clone_opt(&self.update_user),
        }
    }

    /// Finish (state → FINISHED): only a doing task, only by an allowed operator.
    pub fn finish(&mut self, operator: &str, _args: &FlowData) -> (r: Result<(), String>)
        ensures
            old(self)@.task_state != TASK_DOING ==> (r matches Err(m)
                && m@ == not_doing_current_msg(old(self)@.task_id, old(self)@.task_state)),
            old(self)@.task_state == TASK_DOING && !task_allows(old(self)@, operator@) ==> (r matches Err(m)
                && m@ == not_allowed_msg(operator@, old(self)@.task_id)),
            r is Err ==> final(self)@ == old(self)@,
            r is Ok <==> task_allows(old(self)@, operator@) && old(self)@.task_state == TASK_DOING,
            r is Ok ==> final(self)@ == (TaskView {
                task_state: TASK_FINISHED,
                actor_id: Some(operator@),
                finish_time: final(self)@.finish_time,
                ..old(self)@
            }) && is_clock_text(final(self)@.finish_time),
    {
        if self.task_state != TASK_DOING {
            let mut m = framed("Task ", self.task_id, " is not in DOING state (current=");
            let st = i64_text(self.task_state as i64);
            push_str(&mut m, st.as_str());
            push_str(&mut m, ")");
            return Err(m);
        }
        if !self.is_allowed(operator) {
            let mut m = owned("Operator ");
            push_str(&mut m, operator);
            push_str(&mut m, " is not allowed on task ");
            let id = i64_text(self.task_id);
            push_str(&mut m, id.as_str());
            return Err(m);
        }
        self.task_state = TASK_FINISHED;
        self.actor_id = Some(owned(operator));
        let now = current_time_str();
        self.finish_time = Some(now);
        Ok(())
    }

    /// Abandon (state → ABANDON); only a doing task.
    pub fn abandon(&mut self) -> (r: Result<(), String>)
        ensures
            old(self)@.task_state == TASK_DOING ==> r is Ok && final(self)@ == with_state(old(self)@, TASK_ABANDON),
            old(self)@.task_state != TASK_DOING ==> (r matches Err(m) && m@ == not_doing_msg(old(self)@.task_id)
                && final(self)@ == old(self)@),
    {
        if self.task_state != TASK_DOING {
            return Err(not_doing_error(self.task_id));
        }
        self.task_state = TASK_ABANDON;
        Ok(())
    }

    /// Withdraw (state → WITHDRAW), whatever the state was.
    pub fn withdraw(&mut self)
        ensures
            final(self)@ == with_state(old(self)@, TASK_WITHDRAW),
    {
        self.task_state = TASK_WITHDRAW;
    }

    /// Interrupt (state → INTERRUPT); only a doing task.
    pub fn interrupt(&mut self) -> (r: Result<(), String>)
        ensures
            old(self)@.task_state == TASK_DOING ==> r is Ok && final(self)@ == with_state(old(self)@, TASK_INTERRUPT),
            old(self)@.task_state != TASK_DOING ==> (r matches Err(m) && m@ == not_doing_msg(old(self)@.task_id)
                && final(self)@ == old(self)@),
    {
        if self.task_state != TASK_DOING {
            return Err(not_doing_error(self.task_id));
        }
        self.task_state = TASK_INTERRUPT;
        Ok(())
    }

    /// Put on hold (state → PENDING); only a doing task.
    pub fn pending(&mut self) -> (r: Result<(), String>)
        ensures
            old(self)@.task_state == TASK_DOING ==> r is Ok && final(self)@ == with_state(old(self)@, TASK_PENDING),
            old(self)@.task_state != TASK_DOING ==> (r matches Err(m) && m@ == not_doing_msg(old(self)@.task_id)
                && final(self)@ == old(self)@),
    {
        if self.task_state != TASK_DOING {
            return Err(not_doing_error(self.task_id));
        }
        self.task_state = TASK_PENDING;
        Ok(())
    }

    /// Resume an interrupted task (state → DOING); any other task is left as it is.
    pub fn resume(&mut self)
        ensures
            final(self)@ == if old(self)@.task_state == TASK_INTERRUPT {
                with_state(old(self)@, TASK_DOING)
            } else {
                old(self)@
            },
    {
        if self.task_state == TASK_INTERRUPT {
            self.task_state = TASK_DOING;
        }
    }

    /// May `operator` act on it?
    pub fn is_allowed(&self, operator: &str) -> (r: bool)
        ensures
            r == task_allows(self@, operator@),
    {
        if str_eq(operator, "flow.auto") || str_eq(operator, "flow.admin") {
            proof {
                reveal_strlit("flow.auto");
                reveal_strlit("flow.admin");
            }
            return true;
        }
        proof {
            reveal_strlit("flow.auto");
            reveal_strlit("flow.admin");
        }
        self.is_doing() && contains_str(self.actor_ids.as_slice(), operator)
    }

    pub fn is_doing(&self) -> (r: bool)
        ensures
            r == (self@.task_state == TASK_DOING),
    {
        self.task_state == TASK_DOING
    }

    pub fn is_finished(&self) -> (r: bool)
        ensures
            r == (self@.task_state == TASK_FINISHED),
    {
        self.task_state == TASK_FINISHED
    }
}


// ═══════════════════════ process instance ═══════════════════════

#[derive(Debug)]
pub struct ProcessInstance {
    pub instance_id: i64,
    pub parent_id: Option<i64>,
    pub define_id: i64,
    pub state: i32,
    pub parent_node_name: Option<String>,
    pub business_no: Option<String>,
    pub operator: String,
    pub expire_time: Option<String>,
    pub variables: FlowData,
    pub tasks: Vec<ProcessTask>,
    pub create_time: Option<String>,
    pub create_user: Option<String>,
    pub update_time: Option<String>,
    pub update_user: Option<String>,
    /// The define the instance was started from (not persisted with the instance).
    pub define: Option<ProcessDefine>,
}

pub struct InstanceView {
    pub instance_id: i64,
    pub parent_id: Option<i64>,
    pub define_id: i64,
    pub state: i32,
    pub parent_node_name: Option<Seq<char>>,
    pub business_no: Option<Seq<char>>,
    pub operator: Seq<char>,
    pub expire_time: Option<Seq<char>>,
    pub variables: Seq<(Seq<char>, JView)>,
    pub tasks: Seq<TaskView>,
    pub create_time: Option<Seq<char>>,
    pub create_user: Option<Seq<char>>,
    pub update_time: Option<Seq<char>>,
    pub update_user: Option<Seq<char>>,
    pub define: Option<DefineView>,
}

pub open spec fn task_views(s: Seq<ProcessTask>) -> Seq<TaskView> {
    s.map_values(|t: ProcessTask| t@)
}

pub open spec fn task_view_opt(t: Option<ProcessTask>) -> Option<TaskView> {
    match t {
        Some(t) => Some(t@),
        None => None,
    }
}

pub open spec fn instance_view_opt(i: Option<ProcessInstance>) -> Option<InstanceView> {
    match i {
        Some(i) => Some(i@),
        None => None,
    }
}

pub open spec fn define_view_opt(d: Option<ProcessDefine>) -> Option<DefineView> {
    match d {
        Some(d) => Some(d@),
        None => None,
    }
}

impl View for ProcessInstance {
    type V = InstanceView;

    open spec fn view(&self) -> InstanceView {
        InstanceView {
            instance_id: self.instance_id,
            parent_id: self.parent_id,
            define_id: self.define_id,
            state: self.state,
            parent_node_name: opt_view(self.parent_node_name),
            business_no: opt_view(self.business_no),
            operator: self.operator@,
            expire_time: opt_view(self.expire_time),
            variables: self.variables.kv(),
            tasks: task_views(self.tasks@),
            create_time: opt_view(self.create_time),
            create_user: opt_view(self.create_user),
            update_time: opt_view(self.update_time),
            update_user: opt_view(self.update_user),
            define: define_view_opt(self.define),
        }
    }
}

/// Index of the first task with `id`, or `-1`.
pub open spec fn task_index(s: Seq<TaskView>, id: i64) -> int
    decreases s.len(),
{
    if s.len() == 0 {
        -1
    } else if s[0].task_id == id {
        0
    } else {
        let r = task_index(s.drop_first(), id);
        if r < 0 {
            -1
        } else {
            r + 1
        }
    }
}

pub proof fn lemma_task_index(s: Seq<TaskView>, id: i64)
    ensures
        -1 <= task_index(s, id) < s.len(),
        task_index(s, id) >= 0 ==> s[task_index(s, id)].task_id == id
            && forall|j: int| 0 <= j < task_index(s, id) ==> s[j].task_id != id,
        task_index(s, id) == -1 ==> forall|j: int| 0 <= j < s.len() ==> s[j].task_id != id,
    decreases s.len(),
{
    if s.len() > 0 && s[0].task_id != id {
        lemma_task_index(s.drop_first(), id);
        assert forall|j: int| 1 <= j < s.len() implies s[j] == s.drop_first()[j - 1] by {}
    }
}

/// The text a string-valued key holds.
pub open spec fn str_value(d: FlowData, k: Seq<char>) -> Option<Seq<char>> {
    match d.lookup(k) {
        Some(JView::Str(t)) => Some(t),
        _ => None,
    }
}

/// The task a finished `finish` leaves.
pub open spec fn finished_task(t: TaskView, op: Seq<char>, time: Option<Seq<char>>) -> TaskView {
    TaskView { task_state: TASK_FINISHED, actor_id: Some(op), finish_time: time, ..t }
}

/// What a refused `finish` answers.
pub open spec fn finish_error(t: TaskView, op: Seq<char>) -> Seq<char> {
    if t.task_state != TASK_DOING {
        not_doing_current_msg(t.task_id, t.task_state)
    } else {
        not_allowed_msg(op, t.task_id)
    }
}

/// Every doing task moved to `to`; the others kept.
pub open spec fn doing_to(s: Seq<TaskView>, to: i32) -> Seq<TaskView> {
    s.map_values(|t: TaskView| if t.task_state == TASK_DOING { with_state(t, to) } else { t })
}

/// Every interrupted task back to doing; the others kept.
pub open spec fn interrupted_to_doing(s: Seq<TaskView>) -> Seq<TaskView> {
    s.map_values(|t: TaskView| if t.task_state == TASK_INTERRUPT { with_state(t, TASK_DOING) } else { t })
}

/// The tasks in state `st`, in order.
pub open spec fn select_state(s: Seq<TaskView>, st: i32) -> Seq<TaskView>
    decreases s.len(),
{
    if s.len() == 0 {
        Seq::empty()
    } else {
        let r = select_state(s.drop_last(), st);
        if s.last().task_state == st {
            r.push(s.last())
        } else {
            r
        }
    }
}

/// The tasks in state `st` whose name is among `names`, in order.
pub open spec fn select_state_named(s: Seq<TaskView>, st: i32, names: Seq<Seq<char>>) -> Seq<TaskView>
    decreases s.len(),
{
    if s.len() == 0 {
        Seq::empty()
    } else {
        let r = select_state_named(s.drop_last(), st, names);
        if s.last().task_state == st && names.contains(s.last().task_name) {
            r.push(s.last())
        } else {
            r
        }
    }
}

/// A new doing task of the instance.
pub open spec fn new_task_view(
    instance_id: i64,
    task_name: Seq<char>,
    display_name: Seq<char>,
    actor_ids: Seq<Seq<char>>,
    operator: Seq<char>,
    task_type: TaskType,
    perform_type: PerformType,
    form_key: Option<Seq<char>>,
    parent_task_id: Option<i64>,
    create_time: Option<Seq<char>>,
) -> TaskView {
    TaskView {
        task_id: 0,
        process_instance_id: instance_id,
        task_name,
        display_name,
        task_type: task_type_code(task_type),
        perform_type: perform_type_code(perform_type),
        task_state: TASK_DOING,
        actor_id: None,
        actor_ids,
        finish_time: None,
        expire_time: None,
        form_key,
        parent_task_id,
        variables: Seq::empty(),
        create_time,
        create_user: Some(operator),
        update_time: None,
        update_user: None,
    }
}

pub open spec fn ref_views(s: Seq<&ProcessTask>) -> Seq<TaskView> {
    s.map_values(|t: &ProcessTask| t@)
}

pub open spec fn not_found_in_msg(task_id: i64, instance_id: i64) -> Seq<char> {
    "Task "@ + int_text(task_id as int) + " not found in instance "@ + int_text(instance_id as int)
}

pub open spec fn not_found_msg(task_id: i64) -> Seq<char> {
    "Task "@ + int_text(task_id as int) + " not found"@
}

impl ProcessInstance {
    /// A new doing instance of `define`, started by `operator` with `args` as its variables.
    pub fn create(define: &ProcessDefine, operator: &str, args: &FlowData) -> (r: ProcessInstance)
        ensures
            r@ == (InstanceView {
                instance_id: 0,
                parent_id: None,
                define_id: define.id,
                state: INSTANCE_DOING,
                parent_node_name: None,
                business_no: str_value(*args, "BUSINESS_NO"@),
                operator: operator@,
                expire_time: None,
                variables: r@.variables,
                tasks: Seq::empty(),
                create_time: r@.create_time,
                create_user: Some(operator@),
                update_time: None,
                update_user: None,
                define: Some(define@),
            }),
            forall|q: Seq<char>| #[trigger] r.variables.lookup(q) == args.lookup(q),
            is_clock_text(r@.create_time),
    {
        let mut variables = FlowData::new();
        variables.merge(args);
        let business_no = match args.get_str("BUSINESS_NO") {
            Some(s) => Some(owned(s)),
            None => None,
        };
        let now = current_time_str();
        let tasks: Vec<ProcessTask> = Vec::new();
        let r = ProcessInstance {
            instance_id: 0,
            parent_id: None,
            define_id: define.id,
            state: INSTANCE_DOING,
            parent_node_name: None,
            business_no,
            operator: owned(operator),
            expire_time: None,
            variables,
            tasks,
            create_time: Some(now),
            create_user: Some(owned(operator)),
            update_time: None,
            update_user: None,
            define: Some(define.dup()),
        };
        assert(task_views(r.tasks@) =~= Seq::<TaskView>::empty());
        assert(forall|q: Seq<char>| #[trigger] r.variables.lookup(q) == args.lookup(q)) by {
            assert forall|q: Seq<char>| #[trigger] r.variables.lookup(q) == args.lookup(q) by {
                crate::json::lemma_entry_lookup_none(Seq::<(Seq<char>, JView)>::empty(), q);
            }
        }
        r
    }

    /// A sub-process instance: as `create`, with the parent instance and node recorded.
    pub fn create_with_parent(
        define: &ProcessDefine,
        operator: &str,
        args: &FlowData,
        parent_id: i64,
        parent_node_name: &str,
    ) -> (r: ProcessInstance)
        ensures
            r@ == (InstanceView {
                instance_id: 0,
                parent_id: Some(parent_id),
                define_id: define.id,
                state: INSTANCE_DOING,
                parent_node_name: Some(parent_node_name@),
                business_no: str_value(*args, "BUSINESS_NO"@),
                operator: operator@,
                expire_time: None,
                variables: r@.variables,
                tasks: Seq::empty(),
                create_time: r@.create_time,
                create_user: Some(operator@),
                update_time: None,
                update_user: None,
                define: Some(define@),
            }),
            forall|q: Seq<char>| #[trigger] r.variables.lookup(q) == args.lookup(q),
            is_clock_text(r@.create_time),
    {
        let mut inst = Self::create(define, operator, args);
        inst.parent_id = Some(parent_id);
        inst.parent_node_name = Some(owned(parent_node_name));
        inst
    }

    /// Position of the first task with `task_id`.
    /// The index of the first task with `task_id`.
    pub fn find_task(&self, task_id: i64) -> (r: Option<usize>)
        ensures
            match r {
                Some(i) => i as int == task_index(self@.tasks, task_id),
                None => task_index(self@.tasks, task_id) == -1,
            },
    {
        proof {
            lemma_task_index(self@.tasks, task_id);
        }
        let mut i: usize = 0;
        while i < self.tasks.len()
            invariant
                0 <= i <= self.tasks.len(),
                -1 <= task_index(self@.tasks, task_id) < self@.tasks.len(),
                task_index(self@.tasks, task_id) >= 0 ==> self@.tasks[task_index(self@.tasks, task_id)].task_id == task_id,
                task_index(self@.tasks, task_id) == -1 ==> forall|j: int| 0 <= j < self@.tasks.len() ==> self@.tasks[j].task_id != task_id,
                forall|j: int| 0 <= j < task_index(self@.tasks, task_id) ==> self@.tasks[j].task_id != task_id,
                forall|j: int| 0 <= j < i ==> self@.tasks[j].task_id != task_id,
            decreases self.tasks.len() - i,
        {
            assert(self@.tasks[i as int] == self.tasks@[i as int]@);
            if self.tasks[i].task_id == task_id {
                return Some(i);
            }
            i = i + 1;
        }
        None
    }

    /// Complete a task: the `f_` keys of `args` are copied into the variables, then the task is
    /// finished by `operator`.
    pub fn complete_task(&mut self, task_id: i64, operator: &str, args: &FlowData) -> (r: Result<(), String>)
        ensures
            task_index(old(self)@.tasks, task_id) == -1 ==> (r matches Err(m)
                && m@ == not_found_in_msg(task_id, old(self)@.instance_id) && final(self)@ == old(self)@),
            task_index(old(self)@.tasks, task_id) >= 0 ==> ({
                let i = task_index(old(self)@.tasks, task_id);
                let t = old(self)@.tasks[i];
                &&& final(self)@ == (InstanceView { variables: final(self)@.variables, tasks: final(self)@.tasks, ..old(self)@ })
                &&& forall|q: Seq<char>| #[trigger] final(self).variables.lookup(q) == if starts_with(q, "f_"@)
                    && args.lookup(q) is Some {
                    args.lookup(q)
                } else {
                    old(self).variables.lookup(q)
                }
                &&& (r is Ok <==> task_allows(t, operator@) && t.task_state == TASK_DOING)
                &&& r is Err ==> (r matches Err(m) && m@ == finish_error(t, operator@)
                    && final(self)@.tasks == old(self)@.tasks)
                &&& r is Ok ==> final(self)@.tasks == old(self)@.tasks.update(
                    i, finished_task(t, operator@, final(self)@.tasks[i].finish_time))
                    && is_clock_text(final(self)@.tasks[i].finish_time)
            }),
    {
        proof {
            lemma_task_index(self@.tasks, task_id);
        }
        match self.find_task(task_id) {
            None => {
                let mut m = framed("Task ", task_id, " not found in instance ");
                let id = i64_text(self.instance_id);
                push_str(&mut m, id.as_str());
                Err(m)
            },
            Some(i) => {
                let ghost old_tasks = self.tasks@;
                let f = args.form_fields();
                self.variables.merge(&f);
                let mut t = self.tasks[i].dup();
                let res = t.finish(operator, args);
                self.tasks.set(i, t);
                proof {
                    reveal_strlit("f_");
                    assert(task_views(self.tasks@) =~= task_views(old_tasks).update(i as int, self.tasks@[i as int]@));
                    if res is Err {
                        assert(task_views(self.tasks@) =~= task_views(old_tasks));
                    }
                }
                res
            },
        }
    }

    /// Abandon one task; the instance becomes abandoned.
    pub fn abandon_task(&mut self, task_id: i64, _operator: &str) -> (r: Result<(), String>)
        ensures
            task_index(old(self)@.tasks, task_id) == -1 ==> (r matches Err(m)
                && m@ == not_found_msg(task_id) && final(self)@ == old(self)@),
            task_index(old(self)@.tasks, task_id) >= 0 ==> ({
                let i = task_index(old(self)@.tasks, task_id);
                let t = old(self)@.tasks[i];
                if t.task_state == TASK_DOING {
                    &&& r is Ok
                    &&& final(self)@ == (InstanceView {
                        state: INSTANCE_ABANDON,
                        tasks: old(self)@.tasks.update(i, with_state(t, TASK_ABANDON)),
                        ..old(self)@
                    })
                } else {
                    &&& r matches Err(m) && m@ == not_doing_msg(t.task_id)
                    &&& final(self)@ == old(self)@
                }
            }),
    {
        proof {
            lemma_task_index(self@.tasks, task_id);
        }
        match self.find_task(task_id) {
            None => Err(framed("Task ", task_id, " not found")),
            Some(i) => {
                let ghost old_tasks = self.tasks@;
                let mut t = self.tasks[i].dup();
                let res = t.abandon();
                match res {
                    Err(m) => Err(m),
                    Ok(()) => {
                        self.tasks.set(i, t);
                        self.state = INSTANCE_ABANDON;
                        assert(task_views(self.tasks@) =~= task_views(old_tasks).update(i as int, self.tasks@[i as int]@));
                        Ok(())
                    },
                }
            },
        }
    }

    /// Move every doing task with `step` (one of the task transitions that a doing task allows).
    fn doing_tasks_to(&mut self, to: i32)
        requires
            to == TASK_ABANDON || to == TASK_INTERRUPT || to == TASK_PENDING || to == TASK_WITHDRAW,
        ensures
            final(self)@ == (InstanceView { tasks: doing_to(old(self)@.tasks, to), ..old(self)@ }),
    {
        let ghost old_tasks = task_views(self.tasks@);
        let mut i: usize = 0;
        while i < self.tasks.len()
            invariant
                0 <= i <= self.tasks.len(),
                to == TASK_ABANDON || to == TASK_INTERRUPT || to == TASK_PENDING || to == TASK_WITHDRAW,
                self@ == (InstanceView { tasks: self@.tasks, ..old(self)@ }),
                self@.tasks.len() == old_tasks.len(),
                old_tasks == old(self)@.tasks,
                forall|j: int| 0 <= j < i ==> self@.tasks[j] == doing_to(old_tasks, to)[j],
                forall|j: int| i <= j < old_tasks.len() ==> self@.tasks[j] == old_tasks[j],
            decreases self.tasks.len() - i,
        {
            assert(self@.tasks[i as int] == self.tasks@[i as int]@);
            if self.tasks[i].task_state == TASK_DOING {
                let ghost before = self.tasks@;
                let mut t = self.tasks[i].dup();
                if to == TASK_ABANDON {
                    let _ = t.abandon();
                } else if to == TASK_INTERRUPT {
                    let _ = t.interrupt();
                } else if to == TASK_PENDING {
                    let _ = t.pending();
                } else {
                    t.withdraw();
                }
                self.tasks.set(i, t);
                assert(task_views(self.tasks@) =~= task_views(before).update(i as int, self.tasks@[i as int]@));
            }
            i = i + 1;
        }
        assert(self@.tasks =~= doing_to(old_tasks, to));
    }

    /// Abandon every doing task.
    pub fn abandon_all_doing(&mut self)
        ensures
            final(self)@ == (InstanceView { tasks: doing_to(old(self)@.tasks, TASK_ABANDON), ..old(self)@ }),
    {
        self.doing_tasks_to(TASK_ABANDON);
    }

    /// The instance is finished.
    pub fn finish(&mut self)
        ensures
            final(self)@ == (InstanceView { state: INSTANCE_FINISHED, ..old(self)@ }),
    {
        self.state = INSTANCE_FINISHED;
    }

    /// The instance is rejected.
    pub fn reject(&mut self)
        ensures
            final(self)@ == (InstanceView { state: INSTANCE_REJECT, ..old(self)@ }),
    {
        self.state = INSTANCE_REJECT;
    }

    /// Interrupt: every doing task and the instance become interrupted.
    pub fn interrupt(&mut self)
        ensures
            final(self)@ == (InstanceView {
                state: INSTANCE_INTERRUPT,
                tasks: doing_to(old(self)@.tasks, TASK_INTERRUPT),
                ..old(self)@
            }),
    {
        self.doing_tasks_to(TASK_INTERRUPT);
        self.state = INSTANCE_INTERRUPT;
    }

    /// Resume: every interrupted task and the instance are doing again.
    pub fn resume(&mut self)
        ensures
            final(self)@ == (InstanceView {
                state: INSTANCE_DOING,
                tasks: interrupted_to_doing(old(self)@.tasks),
                ..old(self)@
            }),
    {
        let ghost old_tasks = task_views(self.tasks@);
        let mut i: usize = 0;
        while i < self.tasks.len()
            invariant
                0 <= i <= self.tasks.len(),
                self@ == (InstanceView { tasks: self@.tasks, ..old(self)@ }),
                self@.tasks.len() == old_tasks.len(),
                old_tasks == old(self)@.tasks,
                forall|j: int| 0 <= j < i ==> self@.tasks[j] == interrupted_to_doing(old_tasks)[j],
                forall|j: int| i <= j < old_tasks.len() ==> self@.tasks[j] == old_tasks[j],
            decreases self.tasks.len() - i,
        {
            assert(self@.tasks[i as int] == self.tasks@[i as int]@);
            if self.tasks[i].task_state == TASK_INTERRUPT {
                let ghost before = self.tasks@;
                let mut t = self.tasks[i].dup();
                t.task_state = TASK_DOING;
                self.tasks.set(i, t);
                assert(task_views(self.tasks@) =~= task_views(before).update(i as int, self.tasks@[i as int]@));
            }
            i = i + 1;
        }
        assert(self@.tasks =~= interrupted_to_doing(old_tasks));
        self.state = INSTANCE_DOING;
    }

    /// Pending: every doing task and the instance are put on hold.
    pub fn pending(&mut self)
        ensures
            final(self)@ == (InstanceView {
                state: INSTANCE_PENDING,
                tasks: doing_to(old(self)@.tasks, TASK_PENDING),
                ..old(self)@
            }),
    {
        self.doing_tasks_to(TASK_PENDING);
        self.state = INSTANCE_PENDING;
    }

    /// Withdraw: every doing task and the instance are withdrawn.
    pub fn withdraw(&mut self)
        ensures
            final(self)@ == (InstanceView {
                state: INSTANCE_WITHDRAW,
                tasks: doing_to(old(self)@.tasks, TASK_WITHDRAW),
                ..old(self)@
            }),
    {
        self.doing_tasks_to(TASK_WITHDRAW);
        self.state = INSTANCE_WITHDRAW;
    }

    /// Copy `args` into the variables (its values win).
    pub fn add_variable(&mut self, args: &FlowData)
        ensures
            final(self)@ == (InstanceView { variables: final(self)@.variables, ..old(self)@ }),
            forall|q: Seq<char>| #[trigger] final(self).variables.lookup(q) == if args.lookup(q) is Some {
                args.lookup(q)
            } else {
                old(self).variables.lookup(q)
            },
    {
        self.variables.merge(args);
    }

    /// Drop the given keys from the variables.
    pub fn remove_variables(&mut self, keys: &[&str])
        ensures
            final(self)@ == (InstanceView { variables: final(self)@.variables, ..old(self)@ }),
            forall|q: Seq<char>| #[trigger] final(self).variables.lookup(q) == if keys@.map_values(|k: &str| k@).contains(q) {
                None
            } else {
                old(self).variables.lookup(q)
            },
    {
        let ghost ks = keys@.map_values(|k: &str| k@);
        let mut i: usize = 0;
        while i < keys.len()
            invariant
                0 <= i <= keys.len(),
                ks == keys@.map_values(|k: &str| k@),
                self@ == (InstanceView { variables: self@.variables, ..old(self)@ }),
                forall|q: Seq<char>| #[trigger] self.variables.lookup(q) == if ks.take(i as int).contains(q) {
                    None
                } else {
                    old(self).variables.lookup(q)
                },
            decreases keys.len() - i,
        {
            let k: &str = keys[i];
            let _ = self.variables.remove(k);
            proof {
                let t0 = ks.take(i as int);
                let t1 = ks.take(i + 1);
                assert(t1 =~= t0.push(k@));
                assert forall|q: Seq<char>| #[trigger] self.variables.lookup(q) == if t1.contains(q) {
                    None
                } else {
                    old(self).variables.lookup(q)
                } by {
                    if q == k@ {
                        assert(t1[i as int] == q);
                    } else {
                        if t1.contains(q) {
                            let j = choose|j: int| 0 <= j < t1.len() && #[trigger] t1[j] == q;
                            assert(t0[j] == q);
                        }
                        if t0.contains(q) {
                            let j = choose|j: int| 0 <= j < t0.len() && #[trigger] t0[j] == q;
                            assert(t1[j] == q);
                        }
                    }
                }
            }
            i = i + 1;
        }
        assert(ks.take(keys.len() as int) =~= ks);
    }

    /// Create a doing task of this instance; it is appended to the tasks and handed back.
    pub fn create_task(
        &mut self,
        task_name: &str,
        display_name: &str,
        actor_ids: &[String],
        operator: &str,
        task_type: TaskType,
        perform_type: PerformType,
        form_key: Option<String>,
        parent_task_id: Option<i64>,
    ) -> (r: ProcessTask)
        ensures
            r@ == new_task_view(
                old(self)@.instance_id,
                task_name@,
                display_name@,
                views(actor_ids@),
                operator@,
                task_type,
                perform_type,
                opt_view(form_key),
                parent_task_id,
                r@.create_time,
            ),
            is_clock_text(r@.create_time),
            final(self)@ == (InstanceView { tasks: old(self)@.tasks.push(r@), ..old(self)@ }),
    {
        let now = current_time_str();
        let task = ProcessTask {
            task_id: 0,
            process_instance_id: self.instance_id,
            task_name: owned(task_name),
            display_name: owned(display_name),
            task_type: task_type.code(),
            perform_type: perform_type.code(),
            task_state: TASK_DOING,
            actor_id: None,
            actor_ids: clone_strings(actor_ids),
            finish_time: None,
            expire_time: None,
            form_key,
            parent_task_id,
            variables: FlowData::new(),
            create_time: Some(now),
            create_user: Some(owned(operator)),
            update_time: None,
            update_user: None,
        };
        let ghost before = self.tasks@;
        self.tasks.push(task.dup());
        assert(task_views(self.tasks@) =~= task_views(before).push(task@));
        task
    }

    /// One countersign task per actor, in the actors' order.
    pub fn create_countersign_tasks(
        &mut self,
        task_name: &str,
        display_name: &str,
        actor_ids: &[String],
        operator: &str,
        task_type: TaskType,
        form_key: Option<String>,
        parent_task_id: Option<i64>,
    ) -> (r: Vec<ProcessTask>)
        ensures
            r@.len() == actor_ids@.len(),
            forall|i: int| 0 <= i < r@.len() ==> #[trigger] r@[i]@ == new_task_view(
                old(self)@.instance_id,
                task_name@,
                display_name@,
                seq![actor_ids@[i]@],
                operator@,
                task_type,
                PerformType::Countersign,
                opt_view(form_key),
                parent_task_id,
                r@[i]@.create_time,
            ) && is_clock_text(r@[i]@.create_time),
            final(self)@ == (InstanceView { tasks: old(self)@.tasks + task_views(r@), ..old(self)@ }),
    {
        let mut out: Vec<ProcessTask> = Vec::new();
        let mut i: usize = 0;
        while i < actor_ids.len()
            invariant
                0 <= i <= actor_ids.len(),
                out@.len() == i,
                forall|j: int| 0 <= j < i ==> #[trigger] out@[j]@ == new_task_view(
                    old(self)@.instance_id,
                    task_name@,
                    display_name@,
                    seq![actor_ids@[j]@],
                    operator@,
                    task_type,
                    PerformType::Countersign,
                    opt_view(form_key),
                    parent_task_id,
                    out@[j]@.create_time,
                ) && is_clock_text(out@[j]@.create_time),
                self@ == (InstanceView { tasks: old(self)@.tasks + task_views(out@), ..old(self)@ }),
            decreases actor_ids.len() - i,
        {
            let one: Vec<String> = vec![actor_ids[i].clone()];
            assert(views(one@) =~= seq![actor_ids@[i as int]@]);
            let ghost before_out = out@;
            let ghost before_tasks = self@.tasks;
            let t = self.create_task(
                task_name,
                display_name,
                one.as_slice(),
                operator,
                task_type,
                PerformType::Countersign,
                clone_opt(&form_key),
                parent_task_id,
            );
            out.push(t);
            assert(task_views(out@) =~= task_views(before_out).push(out@[i as int]@));
            assert(self@.tasks =~= old(self)@.tasks + task_views(out@));
            i = i + 1;
        }
        out
    }

    /// A task recorded as already finished by `operator` (for nodes without a human step).
    /// The first task in the list with the new task's id is marked finished as well.
    pub fn create_history_task(
        &mut self,
        task_name: &str,
        display_name: &str,
        operator: &str,
        task_type: TaskType,
    ) -> (r: ProcessTask)
        ensures
            ({
                let made = new_task_view(
                    old(self)@.instance_id,
                    task_name@,
                    display_name@,
                    seq![operator@],
                    operator@,
                    task_type,
                    PerformType::Normal,
                    None,
                    None,
                    r@.create_time,
                );
                let pushed = old(self)@.tasks.push(made);
                let i = task_index(pushed, 0);
                &&& r@ == TaskView { task_state: TASK_FINISHED, actor_id: Some(operator@), ..made }
                &&& is_clock_text(r@.create_time)
                &&& 0 <= i < pushed.len()
                &&& final(self)@ == (InstanceView {
                    tasks: pushed.update(i, TaskView {
                        task_state: TASK_FINISHED,
                        actor_id: Some(operator@),
                        ..pushed[i]
                    }),
                    ..old(self)@
                })
            }),
    {
        let one: Vec<String> = vec![owned(operator)];
        assert(views(one@) =~= seq![operator@]);
        let mut task = self.create_task(
            task_name,
            display_name,
            one.as_slice(),
            operator,
            task_type,
            PerformType::Normal,
            None,
            None,
        );
        let ghost made = task@;
        let ghost pushed = self@.tasks;
        task.task_state = TASK_FINISHED;
        task.actor_id = Some(owned(operator));
        assert(task@ == TaskView { task_state: TASK_FINISHED, actor_id: Some(operator@), ..made });
        proof {
            lemma_task_index(self@.tasks, task.task_id);
            assert(pushed[pushed.len() - 1].task_id == 0);
        }
        match self.find_task(task.task_id) {
            Some(i) => {
                let ghost before = self.tasks@;
                let mut t = self.tasks[i].dup();
                t.task_state = TASK_FINISHED;
                t.actor_id = Some(owned(operator));
                self.tasks.set(i, t);
                assert(task_views(self.tasks@) =~= task_views(before).update(i as int, self.tasks@[i as int]@));
                assert(self.tasks@[i as int]@ == TaskView {
                    task_state: TASK_FINISHED,
                    actor_id: Some(operator@),
                    ..pushed[i as int]
                });
            },
            None => {},
        }
        task
    }

    /// A task sent back to an earlier node: a major, normal task with `parent_task_id` as parent.
    pub fn reject_task(
        &mut self,
        task_name: &str,
        display_name: &str,
        actor_ids: &[String],
        operator: &str,
        parent_task_id: i64,
    ) -> (r: ProcessTask)
        ensures
            r@ == new_task_view(
                old(self)@.instance_id,
                task_name@,
                display_name@,
                views(actor_ids@),
                operator@,
                TaskType::Major,
                PerformType::Normal,
                None,
                Some(parent_task_id),
                r@.create_time,
            ),
            is_clock_text(r@.create_time),
            final(self)@ == (InstanceView { tasks: old(self)@.tasks.push(r@), ..old(self)@ }),
    {
        self.create_task(
            task_name,
            display_name,
            actor_ids,
            operator,
            TaskType::Major,
            PerformType::Normal,
            None,
            Some(parent_task_id),
        )
    }

    /// The tasks in state `st` (whose name is among `names`, when given), in order.
    fn tasks_where(&self, st: i32, names: Option<&[String]>) -> (r: Vec<&ProcessTask>)
        ensures
            ref_views(r@) == match names {
                Some(ns) => select_state_named(self@.tasks, st, views(ns@)),
                None => select_state(self@.tasks, st),
            },
    {
        let mut out: Vec<&ProcessTask> = Vec::new();
        let mut i: usize = 0;
        while i < self.tasks.len()
            invariant
                0 <= i <= self.tasks.len(),
                ref_views(out@) == match names {
                    Some(ns) => select_state_named(self@.tasks.take(i as int), st, views(ns@)),
                    None => select_state(self@.tasks.take(i as int), st),
                },
            decreases self.tasks.len() - i,
        {
            let t = &self.tasks[i];
            let keep = t.task_state == st && match names {
                Some(ns) => contains_str(ns, t.task_name.as_str()),
                None => true,
            };
            let ghost before = out@;
            if keep {
                out.push(t);
                assert(ref_views(out@) =~= ref_views(before).push(t@));
            }
            assert(self@.tasks.take(i + 1).drop_last() =~= self@.tasks.take(i as int));
            i = i + 1;
        }
        assert(self@.tasks.take(self.tasks.len() as int) =~= self@.tasks);
        out
    }

    pub fn get_doing_tasks(&self) -> (r: Vec<&ProcessTask>)
        ensures
            ref_views(r@) == select_state(self@.tasks, TASK_DOING),
    {
        self.tasks_where(TASK_DOING, None)
    }

    pub fn get_doing_tasks_by_names(&self, names: &[String]) -> (r: Vec<&ProcessTask>)
        ensures
            ref_views(r@) == select_state_named(self@.tasks, TASK_DOING, views(names@)),
    {
        self.tasks_where(TASK_DOING, Some(names))
    }

    pub fn get_finished_tasks(&self) -> (r: Vec<&ProcessTask>)
        ensures
            ref_views(r@) == select_state(self@.tasks, TASK_FINISHED),
    {
        self.tasks_where(TASK_FINISHED, None)
    }

    pub fn get_done_tasks_by_names(&self, names: &[String]) -> (r: Vec<&ProcessTask>)
        ensures
            ref_views(r@) == select_state_named(self@.tasks, TASK_FINISHED, views(names@)),
    {
        self.tasks_where(TASK_FINISHED, Some(names))
    }

    /// Every task, in order.
    pub fn get_history_tasks(&self) -> (r: Vec<&ProcessTask>)
        ensures
            ref_views(r@) == self@.tasks,
    {
        let mut out: Vec<&ProcessTask> = Vec::new();
        let mut i: usize = 0;
        while i < self.tasks.len()
            invariant
                0 <= i <= self.tasks.len(),
                ref_views(out@) == self@.tasks.take(i as int),
            decreases self.tasks.len() - i,
        {
            let ghost before = out@;
            out.push(&self.tasks[i]);
            assert(ref_views(out@) =~= ref_views(before).push(self@.tasks[i as int]));
            assert(self@.tasks.take(i + 1) =~= self@.tasks.take(i as int).push(self@.tasks[i as int]));
            i = i + 1;
        }
        assert(self@.tasks.take(self.tasks.len() as int) =~= self@.tasks);
        out
    }

    /// No task is doing.
    pub fn is_all_tasks_finished(&self) -> (r: bool)
        ensures
            r == forall|j: int| 0 <= j < self@.tasks.len() ==> #[trigger] self@.tasks[j].task_state != TASK_DOING,
    {
        let mut i: usize = 0;
        while i < self.tasks.len()
            invariant
                0 <= i <= self.tasks.len(),
                forall|j: int| 0 <= j < i ==> #[trigger] self@.tasks[j].task_state != TASK_DOING,
            decreases self.tasks.len() - i,
        {
            assert(self@.tasks[i as int] == self.tasks@[i as int]@);
            if self.tasks[i].task_state == TASK_DOING {
                assert(self@.tasks[i as int].task_state == TASK_DOING);
                return false;
            }
            i = i + 1;
        }
        true
    }

    pub fn is_doing(&self) -> (r: bool)
        ensures
            r == (self@.state == INSTANCE_DOING),
    {
        self.state == INSTANCE_DOING
    }

    pub fn is_finished(&self) -> (r: bool)
        ensures
            r == (self@.state == INSTANCE_FINISHED),
    {
        self.state == INSTANCE_FINISHED
    }
}


// ═══════════════════════ design, surrogate, cc and actor records ═══════════════════════

#[derive(Debug, Clone)]
pub struct ProcessDesign {
    pub id: i64,
    pub name: String,
    pub display_name: String,
    pub design_type: String,
    pub icon: Option<String>,
    pub is_deployed: i32,
    pub remark: Option<String>,
    pub create_time: Option<String>,
    pub create_user: Option<String>,
    pub update_time: Option<String>,
    pub update_user: Option<String>,
}

#[derive(Debug, Clone)]
pub struct ProcessDesignHis {
    pub id: i64,
    pub process_design_id: i64,
    pub content: Vec<u8>,
    pub create_time: Option<String>,
    pub create_user: Option<String>,
}

#[derive(Debug, Clone)]
pub struct ProcessSurrogate {
    pub id: i64,
    pub process_name: String,
    pub operator: String,
    pub surrogate: String,
    pub start_time: Option<String>,
    pub end_time: Option<String>,
    pub enabled: i32,
    pub create_time: Option<String>,
    pub create_user: Option<String>,
    pub update_time: Option<String>,
    pub update_user: Option<String>,
}

#[derive(Debug, Clone)]
pub struct CcInstance {
    pub id: i64,
    pub process_instance_id: i64,
    pub actor_id: String,
    /// `0` unread, `1` read.
    pub state: i32,
    pub create_time: Option<String>,
    pub create_user: Option<String>,
    pub update_time: Option<String>,
    pub update_user: Option<String>,
}

#[derive(Debug, Clone)]
pub struct TaskActor {
    pub id: i64,
    pub process_task_id: i64,
    pub actor_id: String,
    pub create_time: Option<String>,
    pub create_user: Option<String>,
}

// ═══════════════════════ query and page types ═══════════════════════

/// Operator of an `m_` three-segment query filter.
#[derive(Debug, Clone, Copy, PartialEq, Eq, Structural)]
pub enum FilterOp {
    Eq,
    Ne,
    Like,
    Gt,
    Lt,
    Ge,
    Le,
    In,
    Nin,
    Bt,
}

/// The operator an upper-cased name stands for (`LLIKE` and `RLIKE` read as `LIKE`).
pub open spec fn filter_op_named(u: Seq<char>) -> Option<FilterOp> {
    if u == "EQ"@ {
        Some(FilterOp::Eq)
    } else if u == "NE"@ {
        Some(FilterOp::Ne)
    } else if u == "LIKE"@ || u == "LLIKE"@ || u == "RLIKE"@ {
        Some(FilterOp::Like)
    } else if u == "GT"@ {
        Some(FilterOp::Gt)
    } else if u == "LT"@ {
        Some(FilterOp::Lt)
    } else if u == "GE"@ {
        Some(FilterOp::Ge)
    } else if u == "LE"@ {
        Some(FilterOp::Le)
    } else if u == "IN"@ {
        Some(FilterOp::In)
    } else if u == "NIN"@ {
        Some(FilterOp::Nin)
    } else if u == "BT"@ {
        Some(FilterOp::Bt)
    } else {
        None
    }
}

impl FilterOp {
    /// The operator named by `s`, in any case.
    pub fn from_str(s: &str) -> (r: Option<FilterOp>)
        ensures
            r == filter_op_named(upper_text(s@)),
    {
        let u = to_upper(s);
        let u = u.as_str();
        if str_eq(u, "EQ") {
            Some(FilterOp::Eq)
        } else if str_eq(u, "NE") {
            Some(FilterOp::Ne)
        } else if str_eq(u, "LIKE") || str_eq(u, "LLIKE") || str_eq(u, "RLIKE") {
            Some(FilterOp::Like)
        } else if str_eq(u, "GT") {
            Some(FilterOp::Gt)
        } else if str_eq(u, "LT") {
            Some(FilterOp::Lt)
        } else if str_eq(u, "GE") {
            Some(FilterOp::Ge)
        } else if str_eq(u, "LE") {
            Some(FilterOp::Le)
        } else if str_eq(u, "IN") {
            Some(FilterOp::In)
        } else if str_eq(u, "NIN") {
            Some(FilterOp::Nin)
        } else if str_eq(u, "BT") {
            Some(FilterOp::Bt)
        } else {
            None
        }
    }
}

/// A parsed `m_` filter condition.
#[derive(Debug, Clone)]
pub struct QueryFilter {
    /// Table alias: `t` (main table), `pd` (process define), ...
    pub alias: String,
    pub op: FilterOp,
    /// snake_case column name.
    pub column: String,
    pub value: String,
}

pub struct PageQuery {
    pub page_num: i64,
    pub page_size: i64,
    pub operator: Option<String>,
    pub conditions: FlowData,
    /// Parsed `m_` filter conditions.
    pub filters: Vec<QueryFilter>,
}

impl PageQuery {
    /// Pages count from 1 (anything lower reads as 1); a page size below 1 reads as 20.
    pub fn new(page_num: i64, page_size: i64) -> (r: PageQuery)
        ensures
            r.page_num == (if page_num < 1 { 1 } else { page_num }),
            r.page_size == (if page_size < 1 { 20 } else { page_size }),
            r.operator is None,
            r.conditions.kv().len() == 0,
            r.filters@.len() == 0,
    {
        PageQuery {
            page_num: if page_num < 1 { 1 } else { page_num },
            page_size: if page_size < 1 { 20 } else { page_size },
            operator: None,
            conditions: FlowData::new(),
            filters: Vec::new(),
        }
    }
}

/// Integer division rounding toward zero (Rust's `/` on signed integers).
pub open spec fn trunc_div(n: int, d: int) -> int {
    if d > 0 {
        if n >= 0 { n / d } else { -((-n) / d) }
    } else {
        if n >= 0 { -(n / (-d)) } else { (-n) / (-d) }
    }
}

/// Number of pages that `record_count` records fill at `page_size` per page.
pub open spec fn total_pages(record_count: int, page_size: int) -> int {
    if record_count == 0 { 0 } else { trunc_div(record_count + page_size - 1, page_size) }
}

/// `n / d` rounding toward zero.
fn div_toward_zero(n: i64, d: i64) -> (r: i64)
    requires
        d != 0,
        !(n == i64::MIN && d == -1),
    ensures
        r == trunc_div(n as int, d as int),
{
    let an: u64 = if n >= 0 { n as u64 } else if n == i64::MIN { 9223372036854775808u64 } else { (-n) as u64 };
    let ad: u64 = if d >= 0 { d as u64 } else if d == i64::MIN { 9223372036854775808u64 } else { (-d) as u64 };
    let q: u64 = an / ad;
    assert(q <= an) by (nonlinear_arith)
        requires q == an / ad, ad >= 1;
    proof {
        assert(an as int == if n >= 0 { n as int } else { -(n as int) });
        assert(ad as int == if d >= 0 { d as int } else { -(d as int) });
    }
    if (n >= 0) == (d > 0) {
        assert(q <= 9223372036854775807) by (nonlinear_arith)
            requires q == an / ad, ad >= 1, an <= 9223372036854775808u64, !(an == 9223372036854775808u64 && ad == 1);
        q as i64
    } else {
        if q == 9223372036854775808u64 {
            i64::MIN
        } else {
            -(q as i64)
        }
    }
}

#[derive(Debug, Clone)]
pub struct PageResult<T> {
    pub page_num: i64,
    pub page_size: i64,
    pub record_count: i64,
    pub total_page: i64,
    pub rows: Vec<T>,
}

impl<T> PageResult<T> {
    /// A page of `rows`; `total_page` is the record count divided by the page size, rounded up.
    pub fn new(page_num: i64, page_size: i64, record_count: i64, rows: Vec<T>) -> (r: PageResult<T>)
        requires
            record_count != 0 ==> page_size != 0
                && i64::MIN <= record_count + page_size <= i64::MAX
                && i64::MIN <= record_count + page_size - 1
                && !(record_count + page_size - 1 == i64::MIN && page_size == -1),
        ensures
            r.page_num == page_num,
            r.page_size == page_size,
            r.record_count == record_count,
            r.total_page == total_pages(record_count as int, page_size as int),
            r.rows@ == rows@,
    {
        let total_page: i64 = if record_count == 0 {
            0
        } else {
            div_toward_zero(record_count + page_size - 1, page_size)
        };
        PageResult { page_num, page_size, record_count, total_page, rows }
    }

    /// The empty first page of 20.
    pub fn empty() -> (r: PageResult<T>)
        ensures
            r.page_num == 1,
            r.page_size == 20,
            r.record_count == 0,
            r.total_page == 0,
            r.rows@.len() == 0,
    {
        PageResult { page_num: 1, page_size: 20, record_count: 0, total_page: 0, rows: Vec::new() }
    }
}

/// With a positive page size, the pages hold every record and none of them is empty:
/// `(total - 1) * size < count <= total * size`.
pub proof fn law_total_pages_cover(record_count: int, page_size: int)
    requires
        record_count > 0,
        page_size > 0,
    ensures
        (total_pages(record_count, page_size) - 1) * page_size < record_count,
        record_count <= total_pages(record_count, page_size) * page_size,
{
    let t = total_pages(record_count, page_size);
    let n = record_count + page_size - 1;
    assert(t == n / page_size);
    assert(n == page_size * (n / page_size) + n % page_size) by (nonlinear_arith)
        requires page_size > 0;
    assert(0 <= n % page_size < page_size) by (nonlinear_arith)
        requires page_size > 0;
    assert((t - 1) * page_size == t * page_size - page_size) by (nonlinear_arith);
    assert(t * page_size == page_size * t) by (nonlinear_arith);
}

/// Task row of the todo / done page queries.
#[derive(Debug, Clone, Default)]
pub struct TaskRow {
    pub id: i64,
    pub process_instance_id: i64,
    pub task_name: String,
    pub display_name: String,
    pub task_type: i32,
    pub perform_type: i32,
    pub task_state: i32,
    pub operator: Option<String>,
    pub actor_id: Option<String>,
    pub finish_time: Option<String>,
    pub expire_time: Option<String>,
    pub form_key: Option<String>,
    pub task_parent_id: Option<i64>,
    pub variable: Option<String>,
    pub create_time: Option<String>,
    pub create_user: Option<String>,
    pub update_time: Option<String>,
    pub update_user: Option<String>,
    pub process_define_id: Option<i64>,
    pub instance_state: Option<i32>,
    pub instance_operator: Option<String>,
    pub business_no: Option<String>,
    /// The instance's variables as JSON.
    pub instance_variable: Option<String>,
    /// The instance's create time.
    pub instance_create_time: Option<String>,
    pub define_name: Option<String>,
    pub define_display_name: Option<String>,
    pub define_version: Option<i32>,
}

/// Instance row of the page queries.
#[derive(Debug, Clone, Default)]
pub struct InstanceRow {
    pub id: i64,
    pub parent_id: Option<i64>,
    pub process_define_id: i64,
    pub state: i32,
    pub parent_node_name: Option<String>,
    pub business_no: Option<String>,
    pub operator: String,
    pub expire_time: Option<String>,
    pub variable: Option<String>,
    pub create_time: Option<String>,
    pub create_user: Option<String>,
    pub update_time: Option<String>,
    pub update_user: Option<String>,
    pub define_name: Option<String>,
    pub define_display_name: Option<String>,
    pub define_version: Option<i32>,
}

/// Define row of the page queries.
#[derive(Debug, Clone, Default)]
pub struct DefineRow {
    pub id: i64,
    pub name: String,
    pub display_name: String,
    pub define_type: String,
    pub state: i32,
    pub version: i32,
    pub create_time: Option<String>,
    pub create_user: Option<String>,
    pub update_time: Option<String>,
    pub update_user: Option<String>,
}

/// A user as the user provider describes them.
#[derive(Debug, Clone, Default)]
pub struct UserInfo {
    pub user_id: String,
    pub real_name: String,
    pub dept_id: String,
    pub dept_name: String,
    pub post_id: String,
    pub post_name: String,
}


/// Interrupting an instance and resuming it gives back the same tasks, provided no task was
/// interrupted before (those would come back doing too).
pub proof fn law_interrupt_then_resume(tasks: Seq<TaskView>)
    requires
        forall|j: int| 0 <= j < tasks.len() ==> #[trigger] tasks[j].task_state != TASK_INTERRUPT,
    ensures
        interrupted_to_doing(doing_to(tasks, TASK_INTERRUPT)) == tasks,
{
    assert(interrupted_to_doing(doing_to(tasks, TASK_INTERRUPT)) =~= tasks);
}

/// Only doing tasks move when an instance is interrupted, put on hold, withdrawn or has its
/// doing tasks abandoned; afterwards none of its tasks is doing.
pub proof fn law_no_doing_task_after(tasks: Seq<TaskView>, to: i32)
    requires
        to == TASK_ABANDON || to == TASK_INTERRUPT || to == TASK_PENDING || to == TASK_WITHDRAW,
    ensures
        doing_to(tasks, to).len() == tasks.len(),
        forall|j: int| 0 <= j < tasks.len() ==> (#[trigger] doing_to(tasks, to)[j]).task_state != TASK_DOING,
        forall|j: int| 0 <= j < tasks.len() && tasks[j].task_state != TASK_DOING
            ==> #[trigger] doing_to(tasks, to)[j] == tasks[j],
{
}

} // verus!
