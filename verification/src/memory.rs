//! The in-memory repository: every table a list of records kept in insertion order, keyed by id.

use vstd::prelude::*;
use crate::error::{JeeflowError, JeeflowResult};
use crate::json::{json_text, FlowData, JView, JsonValue};
use crate::model::{
    clone_opt, clone_strings, contains_str, define_view_opt, opt_view, task_views, CcInstance, DefineView,
    InstanceView, ProcessDefine, ProcessDesign, ProcessDesignHis, ProcessInstance, ProcessSurrogate,
    ProcessTask, TaskView, TASK_DOING,
};
use crate::parser::{first_where, filter_where, lemma_first_where};
use crate::surrogate::{picked, surrogate_views, SurrogateView};
use crate::text::{i64_text, int_text, owned, str_eq, trim, views};
use crate::filter_sql::{op_holds, op_matches};
use crate::model::{total_pages, DefineRow, InstanceRow, PageQuery, PageResult, QueryFilter, TaskRow};

verus! {

// ═══════════════════════ keyed tables ═══════════════════════

/// A record with an id.
pub trait Keyed: View + Sized {
    spec fn key_of(v: Self::V) -> i64;

    fn key(&self) -> (r: i64)
        ensures
            r == Self::key_of(self@),
    ;
}

pub open spec fn views_of<T: View>(s: Seq<T>) -> Seq<T::V> {
    s.map_values(|x: T| x@)
}

pub open spec fn has_key<T: Keyed>(k: i64) -> spec_fn(T::V) -> bool {
    |v: T::V| T::key_of(v) == k
}

/// Insert `x`, replacing the first record with its id.
pub open spec fn upsert_by<V>(s: Seq<V>, p: spec_fn(V) -> bool, x: V) -> Seq<V> {
    let i = first_where(s, p);
    if i >= 0 {
        s.update(i, x)
    } else {
        s.push(x)
    }
}

/// Drop the first record that satisfies `p`.
pub open spec fn remove_by<V>(s: Seq<V>, p: spec_fn(V) -> bool) -> Seq<V> {
    let i = first_where(s, p);
    if i >= 0 {
        s.remove(i)
    } else {
        s
    }
}

/// Position of the first record with id `k`.
fn find_key<T: Keyed>(v: &Vec<T>, k: i64) -> (r: Option<usize>)
    ensures
        match r {
            Some(i) => i as int == first_where(views_of(v@), has_key::<T>(k)) && i < v@.len(),
            None => first_where(views_of(v@), has_key::<T>(k)) == -1,
        },
{
    let ghost s = views_of(v@);
    proof {
        lemma_first_where(s, has_key::<T>(k));
    }
    let mut i: usize = 0;
    while i < v.len()
        invariant
            0 <= i <= v.len(),
            s == views_of(v@),
            -1 <= first_where(s, has_key::<T>(k)) < s.len(),
            first_where(s, has_key::<T>(k)) >= 0 ==> has_key::<T>(k)(s[first_where(s, has_key::<T>(k))]),
            forall|j: int| 0 <= j < first_where(s, has_key::<T>(k)) ==> !has_key::<T>(k)(#[trigger] s[j]),
            first_where(s, has_key::<T>(k)) == -1 ==> forall|j: int| 0 <= j < s.len() ==> !has_key::<T>(k)(#[trigger] s[j]),
            forall|j: int| 0 <= j < i ==> !has_key::<T>(k)(#[trigger] s[j]),
        decreases v.len() - i,
    {
        assert(s[i as int] == v@[i as int]@);
        if v[i].key() == k {
            return Some(i);
        }
        i = i + 1;
    }
    None
}

/// Insert `x`, replacing the first record with the same id.
fn upsert_key<T: Keyed>(v: &mut Vec<T>, x: T)
    ensures
        views_of(final(v)@) == upsert_by(views_of(old(v)@), has_key::<T>(T::key_of(x@)), x@),
{
    let k = x.key();
    match find_key(v, k) {
        Some(i) => {
            let ghost before = v@;
            v.set(i, x);
            assert(views_of(v@) =~= views_of(before).update(i as int, v@[i as int]@));
        },
        None => {
            let ghost before = v@;
            v.push(x);
            assert(views_of(v@) =~= views_of(before).push(v@.last()@));
        },
    }
}

/// Drop the first record with id `k`.
fn remove_key<T: Keyed>(v: &mut Vec<T>, k: i64)
    ensures
        views_of(final(v)@) == remove_by(views_of(old(v)@), has_key::<T>(k)),
{
    match find_key(v, k) {
        Some(i) => {
            let ghost before = v@;
            let _ = v.remove(i);
            assert(views_of(v@) =~= views_of(before).remove(i as int));
        },
        None => {},
    }
}

/// The record at `first_where`, if any.
pub open spec fn found<V>(s: Seq<V>, p: spec_fn(V) -> bool) -> Option<V> {
    let i = first_where(s, p);
    if i >= 0 && i < s.len() {
        Some(s[i])
    } else {
        None
    }
}

impl Keyed for ProcessDefine {
    open spec fn key_of(v: DefineView) -> i64 {
        v.id
    }

    fn key(&self) -> (r: i64) {
        self.id
    }
}

impl Keyed for ProcessInstance {
    open spec fn key_of(v: InstanceView) -> i64 {
        v.instance_id
    }

    fn key(&self) -> (r: i64) {
        self.instance_id
    }
}

impl Keyed for ProcessTask {
    open spec fn key_of(v: TaskView) -> i64 {
        v.task_id
    }

    fn key(&self) -> (r: i64) {
        self.task_id
    }
}

impl Keyed for ProcessSurrogate {
    open spec fn key_of(v: SurrogateView) -> i64 {
        v.id
    }

    fn key(&self) -> (r: i64) {
        self.id
    }
}

pub struct DesignView {
    pub id: i64,
    pub name: Seq<char>,
    pub display_name: Seq<char>,
    pub design_type: Seq<char>,
    pub icon: Option<Seq<char>>,
    pub is_deployed: i32,
    pub remark: Option<Seq<char>>,
    pub create_time: Option<Seq<char>>,
    pub create_user: Option<Seq<char>>,
    pub update_time: Option<Seq<char>>,
    pub update_user: Option<Seq<char>>,
}

impl View for ProcessDesign {
    type V = DesignView;

    open spec fn view(&self) -> DesignView {
        DesignView {
            id: self.id,
            name: self.name@,
            display_name: self.display_name@,
            design_type: self.design_type@,
            icon: opt_view(self.icon),
            is_deployed: self.is_deployed,
            remark: opt_view(self.remark),
            create_time: opt_view(self.create_time),
            create_user: opt_view(self.create_user),
            update_time: opt_view(self.update_time),
            update_user: opt_view(self.update_user),
        }
    }
}

impl Keyed for ProcessDesign {
    open spec fn key_of(v: DesignView) -> i64 {
        v.id
    }

    fn key(&self) -> (r: i64) {
        self.id
    }
}

impl ProcessDesign {
    pub fn dup(&self) -> (r: ProcessDesign)
        ensures
            r@ == self@,
    {
        ProcessDesign {
            id: self.id,
            name: self.name.clone(),
            display_name: self.display_name.clone(),
            design_type: self.design_type.clone(),
            icon: clone_opt(&self.icon),
            is_deployed: self.is_deployed,
            remark: clone_opt(&self.remark),
            create_time: clone_opt(&self.create_time),
            create_user: clone_opt(&self.create_user),
            update_time: clone_opt(&self.update_time),
            update_user: clone_opt(&self.update_user),
        }
    }
}

pub struct DesignHisView {
    pub id: i64,
    pub process_design_id: i64,
    pub content: Seq<u8>,
    pub create_time: Option<Seq<char>>,
    pub create_user: Option<Seq<char>>,
}

impl View for ProcessDesignHis {
    type V = DesignHisView;

    open spec fn view(&self) -> DesignHisView {
        DesignHisView {
            id: self.id,
            process_design_id: self.process_design_id,
            content: self.content@,
            create_time: opt_view(self.create_time),
            create_user: opt_view(self.create_user),
        }
    }
}

fn copy_bytes(b: &Vec<u8>) -> (r: Vec<u8>)
    ensures
        r@ == b@,
{
    let mut out: Vec<u8> = Vec::new();
    let mut i: usize = 0;
    while i < b.len()
        invariant
            0 <= i <= b.len(),
            out@ == b@.take(i as int),
        decreases b.len() - i,
    {
        out.push(b[i]);
        i = i + 1;
        assert(out@ =~= b@.take(i as int));
    }
    assert(b@.take(b.len() as int) =~= b@);
    out
}

impl ProcessDesignHis {
    pub fn dup(&self) -> (r: ProcessDesignHis)
        ensures
            r@ == self@,
    {
        ProcessDesignHis {
            id: self.id,
            process_design_id: self.process_design_id,
            content: copy_bytes(&self.content),
            create_time: clone_opt(&self.create_time),
            create_user: clone_opt(&self.create_user),
        }
    }
}

fn dup_tasks(v: &Vec<ProcessTask>) -> (r: Vec<ProcessTask>)
    ensures
        task_views(r@) == task_views(v@),
{
    let mut out: Vec<ProcessTask> = Vec::new();
    let mut i: usize = 0;
    while i < v.len()
        invariant
            0 <= i <= v.len(),
            task_views(out@) == task_views(v@).take(i as int),
        decreases v.len() - i,
    {
        let ghost before = out@;
        out.push(v[i].dup());
        assert(task_views(out@) =~= task_views(before).push(v@[i as int]@));
        assert(task_views(v@).take(i + 1) =~= task_views(v@).take(i as int).push(v@[i as int]@));
        i = i + 1;
    }
    assert(task_views(v@).take(v.len() as int) =~= task_views(v@));
    out
}

impl ProcessInstance {
    pub fn dup(&self) -> (r: ProcessInstance)
        ensures
            r@ == self@,
    {
        ProcessInstance {
            instance_id: self.instance_id,
            parent_id: self.parent_id,
            define_id: self.define_id,
            state: self.state,
            parent_node_name: clone_opt(&self.parent_node_name),
            business_no: clone_opt(&self.business_no),
            operator: self.operator.clone(),
            expire_time: clone_opt(&self.expire_time),
            variables: self.variables.dup(),
            tasks: dup_tasks(&self.tasks),
            create_time: clone_opt(&self.create_time),
            create_user: clone_opt(&self.create_user),
            update_time: clone_opt(&self.update_time),
            update_user: clone_opt(&self.update_user),
            define: match &self.define {
                Some(d) => Some(d.dup()),
                None => None,
            },
        }
    }
}

// ═══════════════════════ the repository ═══════════════════════

/// The in-memory repository.
pub struct MemoryRepository {
    id_counter: i64,
    defines: Vec<ProcessDefine>,
    instances: Vec<ProcessInstance>,
    tasks: Vec<ProcessTask>,
    task_actors: Vec<(i64, Vec<String>)>,
    cc_instances: Vec<CcInstance>,
    designs: Vec<ProcessDesign>,
    design_his: Vec<ProcessDesignHis>,
    surrogates: Vec<ProcessSurrogate>,
    written: Ghost<Seq<TaskView>>,
}

pub struct CcView {
    pub id: i64,
    pub process_instance_id: i64,
    pub actor_id: Seq<char>,
    pub state: i32,
    pub create_time: Option<Seq<char>>,
    pub create_user: Option<Seq<char>>,
    pub update_time: Option<Seq<char>>,
    pub update_user: Option<Seq<char>>,
}

impl View for CcInstance {
    type V = CcView;

    open spec fn view(&self) -> CcView {
        CcView {
            id: self.id,
            process_instance_id: self.process_instance_id,
            actor_id: self.actor_id@,
            state: self.state,
            create_time: opt_view(self.create_time),
            create_user: opt_view(self.create_user),
            update_time: opt_view(self.update_time),
            update_user: opt_view(self.update_user),
        }
    }
}

pub open spec fn actor_entries(s: Seq<(i64, Vec<String>)>) -> Seq<(i64, Seq<Seq<char>>)> {
    s.map_values(|p: (i64, Vec<String>)| (p.0, views(p.1@)))
}

pub open spec fn task_id_is(k: i64) -> spec_fn((i64, Seq<Seq<char>>)) -> bool {
    |p: (i64, Seq<Seq<char>>)| p.0 == k
}

/// `actors` with each name of `more` appended that is not there yet.
pub open spec fn with_new_actors(actors: Seq<Seq<char>>, more: Seq<Seq<char>>) -> Seq<Seq<char>>
    decreases more.len(),
{
    if more.len() == 0 {
        actors
    } else {
        let prev = with_new_actors(actors, more.drop_last());
        if prev.contains(more.last()) {
            prev
        } else {
            prev.push(more.last())
        }
    }
}

/// The actors not among `gone`, in order.
pub open spec fn without_actors(actors: Seq<Seq<char>>, gone: Seq<Seq<char>>) -> Seq<Seq<char>> {
    filter_where(actors, |a: Seq<char>| !gone.contains(a))
}

/// A doing task of `instance_id` whose name is among `names` (any name when `names` is empty).
pub open spec fn task_found_in(instance_id: i64, state: i32, names: Seq<Seq<char>>) -> spec_fn(TaskView) -> bool {
    |t: TaskView| t.process_instance_id == instance_id && t.task_state == state && (names.len() == 0
        || names.contains(t.task_name))
}

pub open spec fn task_of_instance(instance_id: i64) -> spec_fn(TaskView) -> bool {
    |t: TaskView| t.process_instance_id == instance_id
}

/// Does the doing task list `user` among its actors?
pub open spec fn todo_of(user: Seq<char>) -> spec_fn(TaskView) -> bool {
    |t: TaskView| t.task_state == TASK_DOING && t.actor_ids.contains(user)
}

pub open spec fn count_where<V>(s: Seq<V>, p: spec_fn(V) -> bool) -> nat {
    filter_where(s, p).len()
}

impl MemoryRepository {
    pub closed spec fn counter(&self) -> i64 {
        self.id_counter
    }

    pub closed spec fn define_table(&self) -> Seq<DefineView> {
        views_of(self.defines@)
    }

    pub closed spec fn instance_table(&self) -> Seq<InstanceView> {
        views_of(self.instances@)
    }

    pub closed spec fn task_table(&self) -> Seq<TaskView> {
        views_of(self.tasks@)
    }

    pub closed spec fn actor_table(&self) -> Seq<(i64, Seq<Seq<char>>)> {
        actor_entries(self.task_actors@)
    }

    pub closed spec fn cc_table(&self) -> Seq<CcView> {
        views_of(self.cc_instances@)
    }

    pub closed spec fn design_table(&self) -> Seq<DesignView> {
        views_of(self.designs@)
    }

    pub closed spec fn design_his_table(&self) -> Seq<DesignHisView> {
        views_of(self.design_his@)
    }

    pub closed spec fn surrogate_table(&self) -> Seq<SurrogateView> {
        views_of(self.surrogates@)
    }

    /// An empty repository whose ids start at 100000.
    pub fn new() -> (r: MemoryRepository)
        ensures
            r.counter() == 100000,
            r.define_table().len() == 0,
            r.instance_table().len() == 0,
            r.task_table().len() == 0,
            r.actor_table().len() == 0,
            r.cc_table().len() == 0,
            r.design_table().len() == 0,
            r.design_his_table().len() == 0,
            r.surrogate_table().len() == 0,
    {
        MemoryRepository {
            id_counter: 100000,
            defines: Vec::new(),
            instances: Vec::new(),
            tasks: Vec::new(),
            task_actors: Vec::new(),
            cc_instances: Vec::new(),
            designs: Vec::new(),
            design_his: Vec::new(),
            surrogates: Vec::new(),
            written: Ghost(Seq::empty()),
        }
    }

    /// Hand out the next id.
    fn next_id(&mut self) -> (r: i64)
        ensures
            r == old(self).counter(),
            final(self).counter() == old(self).counter().wrapping_add(1),
            final(self).define_table() == old(self).define_table(),
            final(self).instance_table() == old(self).instance_table(),
            final(self).task_table() == old(self).task_table(),
            final(self).actor_table() == old(self).actor_table(),
            final(self).cc_table() == old(self).cc_table(),
            final(self).design_table() == old(self).design_table(),
            final(self).design_his_table() == old(self).design_his_table(),
            final(self).surrogate_table() == old(self).surrogate_table(),
            final(self).written == old(self).written,
    {
        let r = self.id_counter;
        self.id_counter = self.id_counter.wrapping_add(1);
        r
    }
}


/// `c` advanced by `k` ids (wrapping like the counter).
pub open spec fn advance(c: i64, k: nat) -> i64
    decreases k,
{
    if k == 0 {
        c
    } else {
        advance(c, (k - 1) as nat).wrapping_add(1)
    }
}

/// The tables of `b` flagged `true` are those of `a`.
pub open spec fn keeps(
    a: MemoryRepository,
    b: MemoryRepository,
    counter: bool,
    defines: bool,
    instances: bool,
    tasks: bool,
    actors: bool,
    ccs: bool,
    designs: bool,
    his: bool,
    surrogates: bool,
) -> bool {
    &&& counter ==> b.counter() == a.counter()
    &&& defines ==> b.define_table() == a.define_table()
    &&& instances ==> b.instance_table() == a.instance_table()
    &&& tasks ==> b.task_table() == a.task_table()
    &&& actors ==> b.actor_table() == a.actor_table()
    &&& ccs ==> b.cc_table() == a.cc_table()
    &&& designs ==> b.design_table() == a.design_table()
    &&& his ==> b.design_his_table() == a.design_his_table()
    &&& surrogates ==> b.surrogate_table() == a.surrogate_table()
}

/// The id a save gives a record: a fresh one from the counter when it has none (`0`).
pub open spec fn saved_id(id: i64, counter: i64) -> i64 {
    if id == 0 { counter } else { id }
}

pub open spec fn counter_after_save(id: i64, counter: i64) -> i64 {
    if id == 0 { counter.wrapping_add(1) } else { counter }
}

/// The new carbon copy of `actor` (the `k`-th of a batch).
pub open spec fn new_cc(id: i64, instance_id: i64, actor: Seq<char>, creator: Seq<char>) -> CcView {
    CcView {
        id,
        process_instance_id: instance_id,
        actor_id: actor,
        state: 0,
        create_time: None,
        create_user: Some(creator),
        update_time: None,
        update_user: None,
    }
}

pub open spec fn cc_read(cs: Seq<CcView>, instance_id: i64, actor: Seq<char>) -> Seq<CcView> {
    cs.map_values(|c: CcView| if c.process_instance_id == instance_id && c.actor_id == actor {
        CcView { state: 1, ..c }
    } else {
        c
    })
}

/// The tasks of one list with `task_actors` filling in the actors of those that have none.
pub open spec fn with_stored_actors(t: TaskView, actors: Seq<(i64, Seq<Seq<char>>)>) -> TaskView {
    if t.actor_ids.len() == 0 {
        match found(actors, task_id_is(t.task_id)) {
            Some(e) => TaskView { actor_ids: e.1, ..t },
            None => t,
        }
    } else {
        t
    }
}

impl MemoryRepository {
    fn task_list(&self, instance_id: i64, state: Option<i32>, names: &[String]) -> (r: Vec<ProcessTask>)
        ensures
            task_views(r@) == filter_where(
                self.task_table(),
                match state {
                    Some(st) => task_found_in(instance_id, st, views(names@)),
                    None => task_of_instance(instance_id),
                },
            ),
    {
        let ghost p = match state {
            Some(st) => task_found_in(instance_id, st, views(names@)),
            None => task_of_instance(instance_id),
        };
        let ghost tt = self.task_table();
        let mut out: Vec<ProcessTask> = Vec::new();
        let mut i: usize = 0;
        while i < self.tasks.len()
            invariant
                0 <= i <= self.tasks.len(),
                tt == self.task_table(),
                tt == views_of(self.tasks@),
                p == match state {
                    Some(st) => task_found_in(instance_id, st, views(names@)),
                    None => task_of_instance(instance_id),
                },
                task_views(out@) == filter_where(tt.take(i as int), p),
            decreases self.tasks.len() - i,
        {
            let t = &self.tasks[i];
            assert(tt.take(i + 1).drop_last() =~= tt.take(i as int));
            assert(tt.take(i + 1).last() == t@);
            let keep = t.process_instance_id == instance_id && match state {
                Some(st) => t.task_state == st && (names.len() == 0 || contains_str(names, t.task_name.as_str())),
                None => true,
            };
            if keep {
                let ghost before = out@;
                out.push(t.dup());
                assert(task_views(out@) =~= task_views(before).push(t@));
            }
            i = i + 1;
        }
        assert(tt.take(self.tasks.len() as int) =~= tt);
        out
    }

    /// Every instance, in storage order.
    pub fn get_all_instances(&self) -> (r: JeeflowResult<Vec<ProcessInstance>>)
        ensures
            r matches Ok(v) && views_of(v@) == self.instance_table(),
    {
        let mut out: Vec<ProcessInstance> = Vec::new();
        let mut i: usize = 0;
        while i < self.instances.len()
            invariant
                0 <= i <= self.instances.len(),
                views_of(out@) == views_of(self.instances@).take(i as int),
            decreases self.instances.len() - i,
        {
            let ghost before = out@;
            out.push(self.instances[i].dup());
            assert(views_of(out@) =~= views_of(before).push(self.instances@[i as int]@));
            assert(views_of(self.instances@).take(i + 1) =~= views_of(self.instances@).take(i as int).push(
                self.instances@[i as int]@,
            ));
            i = i + 1;
        }
        assert(views_of(self.instances@).take(self.instances.len() as int) =~= views_of(self.instances@));
        Ok(out)
    }

    /// Every task, in storage order; a task without actors takes those stored for it.
    pub fn get_all_tasks(&self) -> (r: JeeflowResult<Vec<ProcessTask>>)
        ensures
            r matches Ok(v) && views_of(v@) == self.task_table().map_values(
                |t: TaskView| with_stored_actors(t, self.actor_table()),
            ),
    {
        let ghost want = self.task_table().map_values(|t: TaskView| with_stored_actors(t, self.actor_table()));
        let mut out: Vec<ProcessTask> = Vec::new();
        let mut i: usize = 0;
        while i < self.tasks.len()
            invariant
                0 <= i <= self.tasks.len(),
                want == self.task_table().map_values(|t: TaskView| with_stored_actors(t, self.actor_table())),
                views_of(out@) == want.take(i as int),
            decreases self.tasks.len() - i,
        {
            let mut t = self.tasks[i].dup();
            assert(t@ == self.task_table()[i as int]);
            if t.actor_ids.len() == 0 {
                match self.find_actor_entry(t.task_id) {
                    Some(k) => {
                        t.actor_ids = clone_strings(self.task_actors[k].1.as_slice());
                    },
                    None => {},
                }
            }
            let ghost before = out@;
            out.push(t);
            assert(views_of(out@) =~= views_of(before).push(want[i as int]));
            assert(want.take(i + 1) =~= want.take(i as int).push(want[i as int]));
            i = i + 1;
        }
        assert(want.take(self.tasks.len() as int) =~= want);
        Ok(out)
    }

    fn find_actor_entry(&self, task_id: i64) -> (r: Option<usize>)
        ensures
            match r {
                Some(k) => k < self.task_actors@.len() && k as int == first_where(self.actor_table(), task_id_is(task_id))
                    && found(self.actor_table(), task_id_is(task_id)) == Some(self.actor_table()[k as int]),
                None => first_where(self.actor_table(), task_id_is(task_id)) == -1 && found(
                    self.actor_table(),
                    task_id_is(task_id),
                ) is None,
            },
    {
        let ghost s = self.actor_table();
        proof {
            lemma_first_where(s, task_id_is(task_id));
        }
        let mut i: usize = 0;
        while i < self.task_actors.len()
            invariant
                0 <= i <= self.task_actors.len(),
                s == self.actor_table(),
                s.len() == self.task_actors@.len(),
                -1 <= first_where(s, task_id_is(task_id)) < s.len(),
                first_where(s, task_id_is(task_id)) >= 0 ==> task_id_is(task_id)(s[first_where(s, task_id_is(task_id))]),
                forall|j: int| 0 <= j < first_where(s, task_id_is(task_id)) ==> !task_id_is(task_id)(#[trigger] s[j]),
                first_where(s, task_id_is(task_id)) == -1 ==> forall|j: int| 0 <= j < s.len() ==> !task_id_is(task_id)(#[trigger] s[j]),
                forall|j: int| 0 <= j < i ==> !task_id_is(task_id)(#[trigger] s[j]),
            decreases self.task_actors.len() - i,
        {
            assert(s[i as int].0 == self.task_actors@[i as int].0);
            if self.task_actors[i].0 == task_id {
                return Some(i);
            }
            i = i + 1;
        }
        None
    }
}


// ═══════════════════════ rows and pages ═══════════════════════

pub open spec fn page_start(page_num: i64, page_size: i64) -> int {
    (page_num as int - 1) * (page_size as int)
}

/// The page arithmetic stays within `i64` and the slice end within `usize`, and the page count
/// can be taken: the inputs a page query accepts.
pub open spec fn page_args_ok(page_num: i64, page_size: i64, len: nat) -> bool {
    &&& page_num > i64::MIN
    &&& i64::MIN <= page_start(page_num, page_size) <= i64::MAX
    &&& (0 <= page_start(page_num, page_size) < len && page_size < 0 ==> page_start(page_num, page_size) + page_size < 0)
    &&& len <= i64::MAX
    &&& (len > 0 ==> page_size != 0 && len + page_size <= i64::MAX)
}

/// Whether the page arguments meet `page_args_ok` for `len` rows, tested.
pub fn page_args_fit(page_num: i64, page_size: i64, len: usize) -> (r: bool)
    ensures
        r == page_args_ok(page_num, page_size, len as nat),
{
    if page_num == i64::MIN {
        return false;
    }
    let a: i128 = page_num as i128 - 1;
    let b: i128 = page_size as i128;
    assert(-0x8000_0000_0000_0001 <= a <= 0x7fff_ffff_ffff_fffe);
    assert(a * b <= 0x4000_0000_0000_0000_8000_0000_0000_0000 && a * b >= -0x4000_0000_0000_0000_8000_0000_0000_0000) by (nonlinear_arith)
        requires
            -0x8000_0000_0000_0001 <= a <= 0x7fff_ffff_ffff_fffe,
            -0x8000_0000_0000_0000 <= b <= 0x7fff_ffff_ffff_ffff,
    ;
    let st: i128 = a * b;
    if st < i64::MIN as i128 || st > i64::MAX as i128 {
        return false;
    }
    let n: i128 = len as i128;
    if 0 <= st && st < n && page_size < 0 && st + b >= 0 {
        return false;
    }
    if n > i64::MAX as i128 {
        return false;
    }
    if n > 0 && (page_size == 0 || n + b > i64::MAX as i128) {
        return false;
    }
    true
}

/// The rows of page `page_num` (counted from 1) at `page_size` rows a page; a negative size
/// reads to the end.
pub open spec fn page_rows<T>(s: Seq<T>, page_num: i64, page_size: i64) -> Seq<T> {
    let st = page_start(page_num, page_size);
    if st < 0 || st >= s.len() {
        Seq::empty()
    } else if page_size < 0 {
        s.subrange(st, s.len() as int)
    } else if st + page_size < s.len() {
        s.subrange(st, st + page_size)
    } else {
        s.subrange(st, s.len() as int)
    }
}

/// One page of `rows`, with the total and the page count.
pub fn paginate<T>(rows: Vec<T>, page_num: i64, page_size: i64) -> (r: PageResult<T>)
    requires
        page_args_ok(page_num, page_size, rows@.len()),
    ensures
        r.page_num == page_num,
        r.page_size == page_size,
        r.record_count == rows@.len(),
        r.total_page == total_pages(rows@.len() as int, page_size as int),
        r.rows@ == page_rows(rows@, page_num, page_size),
{
    let len = rows.len();
    let total = len as i64;
    let st: i64 = (page_num - 1) * page_size;
    let ghost all = rows@;
    let page: Vec<T> = if st < 0 || (st as i128) >= (len as i128) {
        Vec::new()
    } else {
        let start = st as usize;
        let end: usize = if page_size < 0 {
            len
        } else if (st as i128) + (page_size as i128) < (len as i128) {
            (st + page_size) as usize
        } else {
            len
        };
        let mut rest = rows;
        let mut tail = rest.split_off(start);
        tail.truncate(end - start);
        assert(tail@ =~= all.subrange(start as int, end as int));
        tail
    };
    assert(page@ =~= page_rows(all, page_num, page_size));
    PageResult::new(page_num, page_size, total, page)
}

/// Does every filter hold of the row (`col` gives a column's text; an unknown column fails)?
pub open spec fn passes_all<R>(fs: Seq<QueryFilter>, r: R, col: spec_fn(R, Seq<char>, Seq<char>) -> Option<Seq<char>>) -> bool {
    forall|i: int| 0 <= i < fs.len() ==> match #[trigger] col(r, fs[i].alias@, fs[i].column@) {
        Some(v) => op_holds(fs[i].op, v, fs[i].value@),
        None => false,
    }
}

pub open spec fn opt_int_text(o: Option<i64>) -> Option<Seq<char>> {
    match o {
        Some(n) => Some(int_text(n as int)),
        None => None,
    }
}

pub open spec fn is_col(a: Seq<char>, c: Seq<char>, wa: Seq<char>, wc: Seq<char>) -> bool {
    a == wa && c == wc
}

// ─── task rows ───

pub struct TaskRowView {
    pub id: i64,
    pub process_instance_id: i64,
    pub task_name: Seq<char>,
    pub display_name: Seq<char>,
    pub task_type: i32,
    pub perform_type: i32,
    pub task_state: i32,
    pub operator: Option<Seq<char>>,
    pub actor_id: Option<Seq<char>>,
    pub finish_time: Option<Seq<char>>,
    pub expire_time: Option<Seq<char>>,
    pub form_key: Option<Seq<char>>,
    pub task_parent_id: Option<i64>,
    pub variable: Option<Seq<char>>,
    pub create_time: Option<Seq<char>>,
    pub create_user: Option<Seq<char>>,
    pub update_time: Option<Seq<char>>,
    pub update_user: Option<Seq<char>>,
    pub process_define_id: Option<i64>,
    pub instance_state: Option<i32>,
    pub instance_operator: Option<Seq<char>>,
    pub business_no: Option<Seq<char>>,
    pub instance_variable: Option<Seq<char>>,
    pub instance_create_time: Option<Seq<char>>,
    pub define_name: Option<Seq<char>>,
    pub define_display_name: Option<Seq<char>>,
    pub define_version: Option<i32>,
}

impl View for TaskRow {
    type V = TaskRowView;

    open spec fn view(&self) -> TaskRowView {
        TaskRowView {
            id: self.id,
            process_instance_id: self.process_instance_id,
            task_name: self.task_name@,
            display_name: self.display_name@,
            task_type: self.task_type,
            perform_type: self.perform_type,
            task_state: self.task_state,
            operator: opt_view(self.operator),
            actor_id: opt_view(self.actor_id),
            finish_time: opt_view(self.finish_time),
            expire_time: opt_view(self.expire_time),
            form_key: opt_view(self.form_key),
            task_parent_id: self.task_parent_id,
            variable: opt_view(self.variable),
            create_time: opt_view(self.create_time),
            create_user: opt_view(self.create_user),
            update_time: opt_view(self.update_time),
            update_user: opt_view(self.update_user),
            process_define_id: self.process_define_id,
            instance_state: self.instance_state,
            instance_operator: opt_view(self.instance_operator),
            business_no: opt_view(self.business_no),
            instance_variable: opt_view(self.instance_variable),
            instance_create_time: opt_view(self.instance_create_time),
            define_name: opt_view(self.define_name),
            define_display_name: opt_view(self.define_display_name),
            define_version: self.define_version,
        }
    }
}

/// The row of a task, joined with its instance and the instance's define.
pub open spec fn task_row_of(t: TaskView, inst: Option<InstanceView>, def: Option<DefineView>) -> TaskRowView {
    TaskRowView {
        id: t.task_id,
        process_instance_id: t.process_instance_id,
        task_name: t.task_name,
        display_name: t.display_name,
        task_type: t.task_type,
        perform_type: t.perform_type,
        task_state: t.task_state,
        operator: t.actor_id,
        actor_id: if t.actor_ids.len() > 0 { Some(t.actor_ids[0]) } else { None },
        finish_time: t.finish_time,
        expire_time: t.expire_time,
        form_key: t.form_key,
        task_parent_id: t.parent_task_id,
        variable: Some(json_text(JView::Object(t.variables))),
        create_time: t.create_time,
        create_user: t.create_user,
        update_time: t.update_time,
        update_user: t.update_user,
        process_define_id: match inst { Some(i) => Some(i.define_id), None => None },
        instance_state: match inst { Some(i) => Some(i.state), None => None },
        instance_operator: match inst { Some(i) => Some(i.operator), None => None },
        business_no: match inst { Some(i) => i.business_no, None => None },
        instance_variable: match inst { Some(i) => Some(json_text(JView::Object(i.variables))), None => None },
        instance_create_time: match inst { Some(i) => i.create_time, None => None },
        define_name: match def { Some(d) => Some(d.name), None => None },
        define_display_name: match def { Some(d) => Some(d.display_name), None => None },
        define_version: match def { Some(d) => Some(d.version), None => None },
    }
}

/// The text of a task row's column, for the columns filters may name.
pub open spec fn task_column(r: TaskRowView, a: Seq<char>, c: Seq<char>) -> Option<Seq<char>> {
    if is_col(a, c, "t"@, "id"@) { Some(int_text(r.id as int)) }
    else if is_col(a, c, "t"@, "task_name"@) { Some(r.task_name) }
    else if is_col(a, c, "t"@, "display_name"@) { Some(r.display_name) }
    else if is_col(a, c, "t"@, "task_type"@) { Some(int_text(r.task_type as int)) }
    else if is_col(a, c, "t"@, "perform_type"@) { Some(int_text(r.perform_type as int)) }
    else if is_col(a, c, "t"@, "task_state"@) { Some(int_text(r.task_state as int)) }
    else if is_col(a, c, "t"@, "operator"@) { r.operator }
    else if is_col(a, c, "t"@, "finish_time"@) { r.finish_time }
    else if is_col(a, c, "t"@, "expire_time"@) { r.expire_time }
    else if is_col(a, c, "t"@, "form_key"@) { r.form_key }
    else if is_col(a, c, "t"@, "task_parent_id"@) { opt_int_text(r.task_parent_id) }
    else if is_col(a, c, "pi"@, "process_define_id"@) { opt_int_text(r.process_define_id) }
    else if is_col(a, c, "pi"@, "state"@) { match r.instance_state { Some(s) => Some(int_text(s as int)), None => None } }
    else if is_col(a, c, "pi"@, "operator"@) { r.instance_operator }
    else if is_col(a, c, "pi"@, "business_no"@) { r.business_no }
    else if is_col(a, c, "pd"@, "name"@) { r.define_name }
    else if is_col(a, c, "pd"@, "display_name"@) { r.define_display_name }
    else if is_col(a, c, "pd"@, "version"@) { match r.define_version { Some(v) => Some(int_text(v as int)), None => None } }
    else { None }
}

fn col_is(a: &str, c: &str, wa: &str, wc: &str) -> (r: bool)
    ensures
        r == is_col(a@, c@, wa@, wc@),
{
    str_eq(a, wa) && str_eq(c, wc)
}

fn num_text(n: i64) -> (r: Option<String>)
    ensures
        opt_view(r) == Some(int_text(n as int)),
{
    Some(i64_text(n))
}

fn opt_num_text(o: Option<i64>) -> (r: Option<String>)
    ensures
        opt_view(r) == opt_int_text(o),
{
    match o {
        Some(n) => Some(i64_text(n)),
        None => None,
    }
}

fn task_row_column(r: &TaskRow, a: &str, c: &str) -> (v: Option<String>)
    ensures
        opt_view(v) == task_column(r@, a@, c@),
{
    if col_is(a, c, "t", "id") { num_text(r.id) }
    else if col_is(a, c, "t", "task_name") { Some(r.task_name.clone()) }
    else if col_is(a, c, "t", "display_name") { Some(r.display_name.clone()) }
    else if col_is(a, c, "t", "task_type") { num_text(r.task_type as i64) }
    else if col_is(a, c, "t", "perform_type") { num_text(r.perform_type as i64) }
    else if col_is(a, c, "t", "task_state") { num_text(r.task_state as i64) }
    else if col_is(a, c, "t", "operator") { clone_opt(&r.operator) }
    else if col_is(a, c, "t", "finish_time") { clone_opt(&r.finish_time) }
    else if col_is(a, c, "t", "expire_time") { clone_opt(&r.expire_time) }
    else if col_is(a, c, "t", "form_key") { clone_opt(&r.form_key) }
    else if col_is(a, c, "t", "task_parent_id") { opt_num_text(r.task_parent_id) }
    else if col_is(a, c, "pi", "process_define_id") { opt_num_text(r.process_define_id) }
    else if col_is(a, c, "pi", "state") { match r.instance_state { Some(s) => num_text(s as i64), None => None } }
    else if col_is(a, c, "pi", "operator") { clone_opt(&r.instance_operator) }
    else if col_is(a, c, "pi", "business_no") { clone_opt(&r.business_no) }
    else if col_is(a, c, "pd", "name") { clone_opt(&r.define_name) }
    else if col_is(a, c, "pd", "display_name") { clone_opt(&r.define_display_name) }
    else if col_is(a, c, "pd", "version") { match r.define_version { Some(v) => num_text(v as i64), None => None } }
    else { None }
}

pub open spec fn task_col_fn() -> spec_fn(TaskRowView, Seq<char>, Seq<char>) -> Option<Seq<char>> {
    |r: TaskRowView, a: Seq<char>, c: Seq<char>| task_column(r, a, c)
}

fn task_row_passes(fs: &[QueryFilter], r: &TaskRow) -> (b: bool)
    ensures
        b == passes_all(fs@, r@, task_col_fn()),
{
    let mut i: usize = 0;
    while i < fs.len()
        invariant
            0 <= i <= fs.len(),
            forall|j: int| 0 <= j < i ==> match #[trigger] task_col_fn()(r@, fs@[j].alias@, fs@[j].column@) {
                Some(v) => op_holds(fs@[j].op, v, fs@[j].value@),
                None => false,
            },
        decreases fs.len() - i,
    {
        let f = &fs[i];
        let ok = match task_row_column(r, f.alias.as_str(), f.column.as_str()) {
            Some(v) => op_matches(&f.op, v.as_str(), f.value.as_str()),
            None => false,
        };
        if !ok {
            assert(!match task_col_fn()(r@, fs@[i as int].alias@, fs@[i as int].column@) {
                Some(v) => op_holds(fs@[i as int].op, v, fs@[i as int].value@),
                None => false,
            });
            return false;
        }
        i = i + 1;
    }
    true
}

/// The stored instance with id `id`.
pub open spec fn inst_of(r: MemoryRepository, id: i64) -> Option<InstanceView> {
    found(r.instance_table(), has_key::<ProcessInstance>(id))
}

/// The define of an instance.
pub open spec fn def_of(r: MemoryRepository, inst: Option<InstanceView>) -> Option<DefineView> {
    match inst {
        Some(i) => found(r.define_table(), has_key::<ProcessDefine>(i.define_id)),
        None => None,
    }
}

pub open spec fn task_row_in(r: MemoryRepository, t: TaskView) -> TaskRowView {
    task_row_of(t, inst_of(r, t.process_instance_id), def_of(r, inst_of(r, t.process_instance_id)))
}

/// A todo of `op`: doing, and listing `op` among its actors (any doing task when no operator).
pub open spec fn todo_pred(op: Option<Seq<char>>) -> spec_fn(TaskView) -> bool {
    |t: TaskView| t.task_state == TASK_DOING && match op {
        Some(o) => t.actor_ids.contains(o),
        None => true,
    }
}

/// Done by `op`: no longer doing, and finished by `op` (nothing when `op` is empty).
pub open spec fn done_pred(op: Seq<char>) -> spec_fn(TaskView) -> bool {
    |t: TaskView| t.task_state != TASK_DOING && op.len() > 0 && t.actor_id == Some(op)
}

/// The operator of a done-list query: trimmed, empty when absent.
pub open spec fn done_operator(op: Option<Seq<char>>) -> Seq<char> {
    match op {
        Some(o) => trim(o),
        None => Seq::empty(),
    }
}

pub open spec fn task_rows_where(r: MemoryRepository, p: spec_fn(TaskView) -> bool, fs: Seq<QueryFilter>) -> Seq<TaskRowView> {
    filter_where(
        filter_where(r.task_table(), p).map_values(|t: TaskView| task_row_in(r, t)),
        |x: TaskRowView| passes_all(fs, x, task_col_fn()),
    )
}

proof fn lemma_filter_map_step<A, B>(s: Seq<A>, p: spec_fn(A) -> bool, f: spec_fn(A) -> B, q: spec_fn(B) -> bool, i: int)
    requires
        0 <= i < s.len(),
    ensures
        filter_where(filter_where(s.take(i + 1), p).map_values(f), q) == if p(s[i]) && q(f(s[i])) {
            filter_where(filter_where(s.take(i), p).map_values(f), q).push(f(s[i]))
        } else {
            filter_where(filter_where(s.take(i), p).map_values(f), q)
        },
{
    assert(s.take(i + 1).drop_last() =~= s.take(i));
    assert(s.take(i + 1).last() == s[i]);
    let a = filter_where(s.take(i), p);
    if p(s[i]) {
        assert(a.push(s[i]).map_values(f) =~= a.map_values(f).push(f(s[i])));
        assert(a.map_values(f).push(f(s[i])).drop_last() =~= a.map_values(f));
    }
}

fn first_actor(v: &Vec<String>) -> (r: Option<String>)
    ensures
        opt_view(r) == if views(v@).len() > 0 { Some(views(v@)[0]) } else { None::<Seq<char>> },
{
    if v.len() > 0 {
        Some(v[0].clone())
    } else {
        None
    }
}

impl MemoryRepository {
    fn instance_ref(&self, id: i64) -> (r: Option<&ProcessInstance>)
        ensures
            match r {
                Some(i) => inst_of(*self, id) == Some(i@),
                None => inst_of(*self, id) is None,
            },
    {
        match find_key(&self.instances, id) {
            Some(k) => Some(&self.instances[k]),
            None => None,
        }
    }

    fn define_of_instance(&self, inst: Option<&ProcessInstance>) -> (r: Option<&ProcessDefine>)
        ensures
            match r {
                Some(d) => def_of(*self, match inst { Some(i) => Some(i@), None => None }) == Some(d@),
                None => def_of(*self, match inst { Some(i) => Some(i@), None => None }) is None,
            },
    {
        match inst {
            Some(i) => match find_key(&self.defines, i.define_id) {
                Some(k) => Some(&self.defines[k]),
                None => None,
            },
            None => None,
        }
    }

    fn make_task_row(&self, t: &ProcessTask) -> (r: TaskRow)
        ensures
            r@ == task_row_in(*self, t@),
    {
        let inst = self.instance_ref(t.process_instance_id);
        let def = self.define_of_instance(inst);
        TaskRow {
            id: t.task_id,
            process_instance_id: t.process_instance_id,
            task_name: t.task_name.clone(),
            display_name: t.display_name.clone(),
            task_type: t.task_type,
            perform_type: t.perform_type,
            task_state: t.task_state,
            operator: clone_opt(&t.actor_id),
            actor_id: first_actor(&t.actor_ids),
            finish_time: clone_opt(&t.finish_time),
            expire_time: clone_opt(&t.expire_time),
            form_key: clone_opt(&t.form_key),
            task_parent_id: t.parent_task_id,
            variable: Some(t.variables.json_string()),
            create_time: clone_opt(&t.create_time),
            create_user: clone_opt(&t.create_user),
            update_time: clone_opt(&t.update_time),
            update_user: clone_opt(&t.update_user),
            process_define_id: match inst { Some(i) => Some(i.define_id), None => None },
            instance_state: match inst { Some(i) => Some(i.state), None => None },
            instance_operator: match inst { Some(i) => Some(i.operator.clone()), None => None },
            business_no: match inst { Some(i) => clone_opt(&i.business_no), None => None },
            instance_variable: match inst { Some(i) => Some(i.variables.json_string()), None => None },
            instance_create_time: match inst { Some(i) => clone_opt(&i.create_time), None => None },
            define_name: match def { Some(d) => Some(d.name.clone()), None => None },
            define_display_name: match def { Some(d) => Some(d.display_name.clone()), None => None },
            define_version: match def { Some(d) => Some(d.version), None => None },
        }
    }

    /// The filtered rows of the todo list (`done == false`) or of the done list.
    fn collect_task_rows(&self, done: bool, operator: &Option<String>, fs: &[QueryFilter]) -> (r: Vec<TaskRow>)
        ensures
            views_of(r@) == task_rows_where(
                *self,
                if done { done_pred(done_operator(opt_view(*operator))) } else { todo_pred(opt_view(*operator)) },
                fs@,
            ),
    {
        let ghost p = if done { done_pred(done_operator(opt_view(*operator))) } else { todo_pred(opt_view(*operator)) };
        let ghost f = |t: TaskView| task_row_in(*self, t);
        let ghost q = |x: TaskRowView| passes_all(fs@, x, task_col_fn());
        let ghost tt = self.task_table();
        let op_trim: String = match operator {
            Some(o) => crate::text::trim_str(o.as_str()),
            None => String::new(),
        };
        assert(op_trim@ == done_operator(opt_view(*operator)));
        let mut out: Vec<TaskRow> = Vec::new();
        let mut i: usize = 0;
        assert(tt.take(0) =~= Seq::<TaskView>::empty());
        assert(views_of(out@) =~= filter_where(filter_where(tt.take(0), p).map_values(f), q));
        while i < self.tasks.len()
            invariant
                0 <= i <= self.tasks.len(),
                tt == self.task_table(),
                tt == views_of(self.tasks@),
                p == if done { done_pred(done_operator(opt_view(*operator))) } else { todo_pred(opt_view(*operator)) },
                f == |t: TaskView| task_row_in(*self, t),
                q == |x: TaskRowView| passes_all(fs@, x, task_col_fn()),
                op_trim@ == done_operator(opt_view(*operator)),
                views_of(out@) == filter_where(filter_where(tt.take(i as int), p).map_values(f), q),
            decreases self.tasks.len() - i,
        {
            let t = &self.tasks[i];
            assert(tt[i as int] == t@);
            proof {
                lemma_filter_map_step(tt, p, f, q, i as int);
            }
            let selected = if done {
                t.task_state != TASK_DOING && !op_trim.as_str().is_empty() && match &t.actor_id {
                    Some(a) => str_eq(a.as_str(), op_trim.as_str()),
                    None => false,
                }
            } else {
                t.task_state == TASK_DOING && match operator {
                    Some(o) => contains_str(t.actor_ids.as_slice(), o.as_str()),
                    None => true,
                }
            };
            assert(selected == p(t@));
            if selected {
                let row = self.make_task_row(t);
                if task_row_passes(fs, &row) {
                    let ghost before = out@;
                    out.push(row);
                    assert(views_of(out@) =~= views_of(before).push(row@));
                }
            }
            i = i + 1;
        }
        assert(tt.take(self.tasks.len() as int) =~= tt);
        out
    }
}

// ─── instance rows ───

pub struct InstanceRowView {
    pub id: i64,
    pub parent_id: Option<i64>,
    pub process_define_id: i64,
    pub state: i32,
    pub parent_node_name: Option<Seq<char>>,
    pub business_no: Option<Seq<char>>,
    pub operator: Seq<char>,
    pub expire_time: Option<Seq<char>>,
    pub variable: Option<Seq<char>>,
    pub create_time: Option<Seq<char>>,
    pub create_user: Option<Seq<char>>,
    pub update_time: Option<Seq<char>>,
    pub update_user: Option<Seq<char>>,
    pub define_name: Option<Seq<char>>,
    pub define_display_name: Option<Seq<char>>,
    pub define_version: Option<i32>,
}

impl View for InstanceRow {
    type V = InstanceRowView;

    open spec fn view(&self) -> InstanceRowView {
        InstanceRowView {
            id: self.id,
            parent_id: self.parent_id,
            process_define_id: self.process_define_id,
            state: self.state,
            parent_node_name: opt_view(self.parent_node_name),
            business_no: opt_view(self.business_no),
            operator: self.operator@,
            expire_time: opt_view(self.expire_time),
            variable: opt_view(self.variable),
            create_time: opt_view(self.create_time),
            create_user: opt_view(self.create_user),
            update_time: opt_view(self.update_time),
            update_user: opt_view(self.update_user),
            define_name: opt_view(self.define_name),
            define_display_name: opt_view(self.define_display_name),
            define_version: self.define_version,
        }
    }
}

/// The row of an instance, joined with its define.
pub open spec fn instance_row_of(i: InstanceView, def: Option<DefineView>) -> InstanceRowView {
    InstanceRowView {
        id: i.instance_id,
        parent_id: i.parent_id,
        process_define_id: i.define_id,
        state: i.state,
        parent_node_name: i.parent_node_name,
        business_no: i.business_no,
        operator: i.operator,
        expire_time: i.expire_time,
        variable: Some(json_text(JView::Object(i.variables))),
        create_time: i.create_time,
        create_user: i.create_user,
        update_time: i.update_time,
        update_user: i.update_user,
        define_name: match def { Some(d) => Some(d.name), None => None },
        define_display_name: match def { Some(d) => Some(d.display_name), None => None },
        define_version: match def { Some(d) => Some(d.version), None => None },
    }
}

/// The row of a carbon copy: the copy's id, state and recipient, with the instance's define and
/// business number.
pub open spec fn cc_row_of(c: CcView, inst: Option<InstanceView>, def: Option<DefineView>) -> InstanceRowView {
    InstanceRowView {
        id: c.id,
        parent_id: None,
        process_define_id: match inst { Some(i) => i.define_id, None => 0 },
        state: c.state,
        parent_node_name: None,
        business_no: match inst { Some(i) => i.business_no, None => None },
        operator: c.actor_id,
        expire_time: None,
        variable: None,
        create_time: c.create_time,
        create_user: c.create_user,
        update_time: c.update_time,
        update_user: c.update_user,
        define_name: match def { Some(d) => Some(d.name), None => None },
        define_display_name: match def { Some(d) => Some(d.display_name), None => None },
        define_version: match def { Some(d) => Some(d.version), None => None },
    }
}

pub open spec fn instance_column(r: InstanceRowView, a: Seq<char>, c: Seq<char>) -> Option<Seq<char>> {
    if is_col(a, c, "t"@, "id"@) { Some(int_text(r.id as int)) }
    else if is_col(a, c, "t"@, "state"@) { Some(int_text(r.state as int)) }
    else if is_col(a, c, "t"@, "business_no"@) { r.business_no }
    else if is_col(a, c, "t"@, "operator"@) { Some(r.operator) }
    else if is_col(a, c, "t"@, "parent_node_name"@) { r.parent_node_name }
    else if is_col(a, c, "t"@, "process_define_id"@) { Some(int_text(r.process_define_id as int)) }
    else if is_col(a, c, "t"@, "expire_time"@) { r.expire_time }
    else if is_col(a, c, "t"@, "create_time"@) { r.create_time }
    else if is_col(a, c, "t"@, "create_user"@) { r.create_user }
    else if is_col(a, c, "t"@, "update_time"@) { r.update_time }
    else if is_col(a, c, "t"@, "update_user"@) { r.update_user }
    else if is_col(a, c, "pd"@, "name"@) { r.define_name }
    else if is_col(a, c, "pd"@, "display_name"@) { r.define_display_name }
    else if is_col(a, c, "pd"@, "version"@) { match r.define_version { Some(v) => Some(int_text(v as int)), None => None } }
    else { None }
}

fn instance_row_column(r: &InstanceRow, a: &str, c: &str) -> (v: Option<String>)
    ensures
        opt_view(v) == instance_column(r@, a@, c@),
{
    if col_is(a, c, "t", "id") { num_text(r.id) }
    else if col_is(a, c, "t", "state") { num_text(r.state as i64) }
    else if col_is(a, c, "t", "business_no") { clone_opt(&r.business_no) }
    else if col_is(a, c, "t", "operator") { Some(r.operator.clone()) }
    else if col_is(a, c, "t", "parent_node_name") { clone_opt(&r.parent_node_name) }
    else if col_is(a, c, "t", "process_define_id") { num_text(r.process_define_id) }
    else if col_is(a, c, "t", "expire_time") { clone_opt(&r.expire_time) }
    else if col_is(a, c, "t", "create_time") { clone_opt(&r.create_time) }
    else if col_is(a, c, "t", "create_user") { clone_opt(&r.create_user) }
    else if col_is(a, c, "t", "update_time") { clone_opt(&r.update_time) }
    else if col_is(a, c, "t", "update_user") { clone_opt(&r.update_user) }
    else if col_is(a, c, "pd", "name") { clone_opt(&r.define_name) }
    else if col_is(a, c, "pd", "display_name") { clone_opt(&r.define_display_name) }
    else if col_is(a, c, "pd", "version") { match r.define_version { Some(v) => num_text(v as i64), None => None } }
    else { None }
}

pub open spec fn instance_col_fn() -> spec_fn(InstanceRowView, Seq<char>, Seq<char>) -> Option<Seq<char>> {
    |r: InstanceRowView, a: Seq<char>, c: Seq<char>| instance_column(r, a, c)
}

fn instance_row_passes(fs: &[QueryFilter], r: &InstanceRow) -> (b: bool)
    ensures
        b == passes_all(fs@, r@, instance_col_fn()),
{
    let mut i: usize = 0;
    while i < fs.len()
        invariant
            0 <= i <= fs.len(),
            forall|j: int| 0 <= j < i ==> match #[trigger] instance_col_fn()(r@, fs@[j].alias@, fs@[j].column@) {
                Some(v) => op_holds(fs@[j].op, v, fs@[j].value@),
                None => false,
            },
        decreases fs.len() - i,
    {
        let f = &fs[i];
        let ok = match instance_row_column(r, f.alias.as_str(), f.column.as_str()) {
            Some(v) => op_matches(&f.op, v.as_str(), f.value.as_str()),
            None => false,
        };
        if !ok {
            assert(!match instance_col_fn()(r@, fs@[i as int].alias@, fs@[i as int].column@) {
                Some(v) => op_holds(fs@[i as int].op, v, fs@[i as int].value@),
                None => false,
            });
            return false;
        }
        i = i + 1;
    }
    true
}

pub open spec fn instance_pred(op: Option<Seq<char>>) -> spec_fn(InstanceView) -> bool {
    |i: InstanceView| match op {
        Some(o) => i.operator == o,
        None => true,
    }
}

pub open spec fn cc_pred(op: Option<Seq<char>>) -> spec_fn(CcView) -> bool {
    |c: CcView| match op {
        Some(o) => c.actor_id == o,
        None => true,
    }
}

pub open spec fn instance_rows_where(r: MemoryRepository, op: Option<Seq<char>>, fs: Seq<QueryFilter>) -> Seq<InstanceRowView> {
    filter_where(
        filter_where(r.instance_table(), instance_pred(op)).map_values(
            |i: InstanceView| instance_row_of(i, def_of(r, Some(i))),
        ),
        |x: InstanceRowView| passes_all(fs, x, instance_col_fn()),
    )
}

pub open spec fn cc_rows_where(r: MemoryRepository, op: Option<Seq<char>>, fs: Seq<QueryFilter>) -> Seq<InstanceRowView> {
    filter_where(
        filter_where(r.cc_table(), cc_pred(op)).map_values(
            |c: CcView| cc_row_of(c, inst_of(r, c.process_instance_id), def_of(r, inst_of(r, c.process_instance_id))),
        ),
        |x: InstanceRowView| passes_all(fs, x, instance_col_fn()),
    )
}

// ─── define rows ───

pub struct DefineRowView {
    pub id: i64,
    pub name: Seq<char>,
    pub display_name: Seq<char>,
    pub define_type: Seq<char>,
    pub state: i32,
    pub version: i32,
    pub create_time: Option<Seq<char>>,
    pub create_user: Option<Seq<char>>,
    pub update_time: Option<Seq<char>>,
    pub update_user: Option<Seq<char>>,
}

impl View for DefineRow {
    type V = DefineRowView;

    open spec fn view(&self) -> DefineRowView {
        DefineRowView {
            id: self.id,
            name: self.name@,
            display_name: self.display_name@,
            define_type: self.define_type@,
            state: self.state,
            version: self.version,
            create_time: opt_view(self.create_time),
            create_user: opt_view(self.create_user),
            update_time: opt_view(self.update_time),
            update_user: opt_view(self.update_user),
        }
    }
}

pub open spec fn define_row_of(d: DefineView) -> DefineRowView {
    DefineRowView {
        id: d.id,
        name: d.name,
        display_name: d.display_name,
        define_type: d.define_type,
        state: d.state,
        version: d.version,
        create_time: d.create_time,
        create_user: d.create_user,
        update_time: d.update_time,
        update_user: d.update_user,
    }
}

pub open spec fn define_column(r: DefineRowView, a: Seq<char>, c: Seq<char>) -> Option<Seq<char>> {
    if is_col(a, c, "t"@, "name"@) { Some(r.name) }
    else if is_col(a, c, "t"@, "display_name"@) { Some(r.display_name) }
    else if is_col(a, c, "t"@, "type"@) { Some(r.define_type) }
    else if is_col(a, c, "t"@, "state"@) { Some(int_text(r.state as int)) }
    else if is_col(a, c, "t"@, "version"@) { Some(int_text(r.version as int)) }
    else if is_col(a, c, "t"@, "id"@) { Some(int_text(r.id as int)) }
    else if is_col(a, c, "t"@, "create_time"@) { r.create_time }
    else if is_col(a, c, "t"@, "create_user"@) { r.create_user }
    else if is_col(a, c, "t"@, "update_time"@) { r.update_time }
    else if is_col(a, c, "t"@, "update_user"@) { r.update_user }
    else { None }
}

fn define_row_column(r: &DefineRow, a: &str, c: &str) -> (v: Option<String>)
    ensures
        opt_view(v) == define_column(r@, a@, c@),
{
    if col_is(a, c, "t", "name") { Some(r.name.clone()) }
    else if col_is(a, c, "t", "display_name") { Some(r.display_name.clone()) }
    else if col_is(a, c, "t", "type") { Some(r.define_type.clone()) }
    else if col_is(a, c, "t", "state") { num_text(r.state as i64) }
    else if col_is(a, c, "t", "version") { num_text(r.version as i64) }
    else if col_is(a, c, "t", "id") { num_text(r.id) }
    else if col_is(a, c, "t", "create_time") { clone_opt(&r.create_time) }
    else if col_is(a, c, "t", "create_user") { clone_opt(&r.create_user) }
    else if col_is(a, c, "t", "update_time") { clone_opt(&r.update_time) }
    else if col_is(a, c, "t", "update_user") { clone_opt(&r.update_user) }
    else { None }
}

pub open spec fn define_col_fn() -> spec_fn(DefineRowView, Seq<char>, Seq<char>) -> Option<Seq<char>> {
    |r: DefineRowView, a: Seq<char>, c: Seq<char>| define_column(r, a, c)
}

fn define_row_passes(fs: &[QueryFilter], r: &DefineRow) -> (b: bool)
    ensures
        b == passes_all(fs@, r@, define_col_fn()),
{
    let mut i: usize = 0;
    while i < fs.len()
        invariant
            0 <= i <= fs.len(),
            forall|j: int| 0 <= j < i ==> match #[trigger] define_col_fn()(r@, fs@[j].alias@, fs@[j].column@) {
                Some(v) => op_holds(fs@[j].op, v, fs@[j].value@),
                None => false,
            },
        decreases fs.len() - i,
    {
        let f = &fs[i];
        let ok = match define_row_column(r, f.alias.as_str(), f.column.as_str()) {
            Some(v) => op_matches(&f.op, v.as_str(), f.value.as_str()),
            None => false,
        };
        if !ok {
            assert(!match define_col_fn()(r@, fs@[i as int].alias@, fs@[i as int].column@) {
                Some(v) => op_holds(fs@[i as int].op, v, fs@[i as int].value@),
                None => false,
            });
            return false;
        }
        i = i + 1;
    }
    true
}

// ─── design rows ───

pub open spec fn design_column(r: DesignView, a: Seq<char>, c: Seq<char>) -> Option<Seq<char>> {
    if is_col(a, c, "t"@, "name"@) { Some(r.name) }
    else if is_col(a, c, "t"@, "display_name"@) { Some(r.display_name) }
    else if is_col(a, c, "t"@, "type"@) { Some(r.design_type) }
    else if is_col(a, c, "t"@, "is_deployed"@) { Some(int_text(r.is_deployed as int)) }
    else if is_col(a, c, "t"@, "icon"@) { r.icon }
    else if is_col(a, c, "t"@, "remark"@) { r.remark }
    else if is_col(a, c, "t"@, "id"@) { Some(int_text(r.id as int)) }
    else if is_col(a, c, "t"@, "create_time"@) { r.create_time }
    else if is_col(a, c, "t"@, "create_user"@) { r.create_user }
    else if is_col(a, c, "t"@, "update_time"@) { r.update_time }
    else if is_col(a, c, "t"@, "update_user"@) { r.update_user }
    else { None }
}

fn design_row_column(r: &ProcessDesign, a: &str, c: &str) -> (v: Option<String>)
    ensures
        opt_view(v) == design_column(r@, a@, c@),
{
    if col_is(a, c, "t", "name") { Some(r.name.clone()) }
    else if col_is(a, c, "t", "display_name") { Some(r.display_name.clone()) }
    else if col_is(a, c, "t", "type") { Some(r.design_type.clone()) }
    else if col_is(a, c, "t", "is_deployed") { num_text(r.is_deployed as i64) }
    else if col_is(a, c, "t", "icon") { clone_opt(&r.icon) }
    else if col_is(a, c, "t", "remark") { clone_opt(&r.remark) }
    else if col_is(a, c, "t", "id") { num_text(r.id) }
    else if col_is(a, c, "t", "create_time") { clone_opt(&r.create_time) }
    else if col_is(a, c, "t", "create_user") { clone_opt(&r.create_user) }
    else if col_is(a, c, "t", "update_time") { clone_opt(&r.update_time) }
    else if col_is(a, c, "t", "update_user") { clone_opt(&r.update_user) }
    else { None }
}

pub open spec fn design_col_fn() -> spec_fn(DesignView, Seq<char>, Seq<char>) -> Option<Seq<char>> {
    |r: DesignView, a: Seq<char>, c: Seq<char>| design_column(r, a, c)
}

fn design_row_passes(fs: &[QueryFilter], r: &ProcessDesign) -> (b: bool)
    ensures
        b == passes_all(fs@, r@, design_col_fn()),
{
    let mut i: usize = 0;
    while i < fs.len()
        invariant
            0 <= i <= fs.len(),
            forall|j: int| 0 <= j < i ==> match #[trigger] design_col_fn()(r@, fs@[j].alias@, fs@[j].column@) {
                Some(v) => op_holds(fs@[j].op, v, fs@[j].value@),
                None => false,
            },
        decreases fs.len() - i,
    {
        let f = &fs[i];
        let ok = match design_row_column(r, f.alias.as_str(), f.column.as_str()) {
            Some(v) => op_matches(&f.op, v.as_str(), f.value.as_str()),
            None => false,
        };
        if !ok {
            assert(!match design_col_fn()(r@, fs@[i as int].alias@, fs@[i as int].column@) {
                Some(v) => op_holds(fs@[i as int].op, v, fs@[i as int].value@),
                None => false,
            });
            return false;
        }
        i = i + 1;
    }
    true
}

pub open spec fn define_rows_where(r: MemoryRepository, fs: Seq<QueryFilter>) -> Seq<DefineRowView> {
    filter_where(
        filter_where(r.define_table(), |d: DefineView| true).map_values(|d: DefineView| define_row_of(d)),
        |x: DefineRowView| passes_all(fs, x, define_col_fn()),
    )
}

pub open spec fn design_rows_where(r: MemoryRepository, fs: Seq<QueryFilter>) -> Seq<DesignView> {
    filter_where(
        filter_where(r.design_table(), |d: DesignView| true).map_values(|d: DesignView| d),
        |x: DesignView| passes_all(fs, x, design_col_fn()),
    )
}

impl MemoryRepository {
    fn collect_instance_rows(&self, operator: &Option<String>, fs: &[QueryFilter]) -> (r: Vec<InstanceRow>)
        ensures
            views_of(r@) == instance_rows_where(*self, opt_view(*operator), fs@),
    {
        let ghost p = instance_pred(opt_view(*operator));
        let ghost f = |i: InstanceView| instance_row_of(i, def_of(*self, Some(i)));
        let ghost q = |x: InstanceRowView| passes_all(fs@, x, instance_col_fn());
        let ghost tt = self.instance_table();
        let mut out: Vec<InstanceRow> = Vec::new();
        let mut k: usize = 0;
        assert(views_of(out@) =~= filter_where(filter_where(tt.take(0), p).map_values(f), q));
        while k < self.instances.len()
            invariant
                0 <= k <= self.instances.len(),
                tt == self.instance_table(),
                tt == views_of(self.instances@),
                p == instance_pred(opt_view(*operator)),
                f == |i: InstanceView| instance_row_of(i, def_of(*self, Some(i))),
                q == |x: InstanceRowView| passes_all(fs@, x, instance_col_fn()),
                views_of(out@) == filter_where(filter_where(tt.take(k as int), p).map_values(f), q),
            decreases self.instances.len() - k,
        {
            let i = &self.instances[k];
            assert(tt[k as int] == i@);
            proof {
                lemma_filter_map_step(tt, p, f, q, k as int);
            }
            let selected = match operator {
                Some(o) => str_eq(i.operator.as_str(), o.as_str()),
                None => true,
            };
            if selected {
                let def = self.define_of_instance(Some(i));
                let row = InstanceRow {
                    id: i.instance_id,
                    parent_id: i.parent_id,
                    process_define_id: i.define_id,
                    state: i.state,
                    parent_node_name: clone_opt(&i.parent_node_name),
                    business_no: clone_opt(&i.business_no),
                    operator: i.operator.clone(),
                    expire_time: clone_opt(&i.expire_time),
                    variable: Some(i.variables.json_string()),
                    create_time: clone_opt(&i.create_time),
                    create_user: clone_opt(&i.create_user),
                    update_time: clone_opt(&i.update_time),
                    update_user: clone_opt(&i.update_user),
                    define_name: match def { Some(d) => Some(d.name.clone()), None => None },
                    define_display_name: match def { Some(d) => Some(d.display_name.clone()), None => None },
                    define_version: match def { Some(d) => Some(d.version), None => None },
                };
                assert(row@ == f(i@));
                if instance_row_passes(fs, &row) {
                    let ghost before = out@;
                    out.push(row);
                    assert(views_of(out@) =~= views_of(before).push(row@));
                }
            }
            k = k + 1;
        }
        assert(tt.take(self.instances.len() as int) =~= tt);
        out
    }

    fn collect_cc_rows(&self, operator: &Option<String>, fs: &[QueryFilter]) -> (r: Vec<InstanceRow>)
        ensures
            views_of(r@) == cc_rows_where(*self, opt_view(*operator), fs@),
    {
        let ghost p = cc_pred(opt_view(*operator));
        let ghost f = |c: CcView| cc_row_of(c, inst_of(*self, c.process_instance_id), def_of(*self, inst_of(*self, c.process_instance_id)));
        let ghost q = |x: InstanceRowView| passes_all(fs@, x, instance_col_fn());
        let ghost tt = self.cc_table();
        let mut out: Vec<InstanceRow> = Vec::new();
        let mut k: usize = 0;
        assert(views_of(out@) =~= filter_where(filter_where(tt.take(0), p).map_values(f), q));
        while k < self.cc_instances.len()
            invariant
                0 <= k <= self.cc_instances.len(),
                tt == self.cc_table(),
                tt == views_of(self.cc_instances@),
                p == cc_pred(opt_view(*operator)),
                f == |c: CcView| cc_row_of(c, inst_of(*self, c.process_instance_id), def_of(*self, inst_of(*self, c.process_instance_id))),
                q == |x: InstanceRowView| passes_all(fs@, x, instance_col_fn()),
                views_of(out@) == filter_where(filter_where(tt.take(k as int), p).map_values(f), q),
            decreases self.cc_instances.len() - k,
        {
            let c = &self.cc_instances[k];
            assert(tt[k as int] == c@);
            proof {
                lemma_filter_map_step(tt, p, f, q, k as int);
            }
            let selected = match operator {
                Some(o) => str_eq(c.actor_id.as_str(), o.as_str()),
                None => true,
            };
            if selected {
                let inst = self.instance_ref(c.process_instance_id);
                let def = self.define_of_instance(inst);
                let row = InstanceRow {
                    id: c.id,
                    parent_id: None,
                    process_define_id: match inst { Some(i) => i.define_id, None => 0 },
                    state: c.state,
                    parent_node_name: None,
                    business_no: match inst { Some(i) => clone_opt(&i.business_no), None => None },
                    operator: c.actor_id.clone(),
                    expire_time: None,
                    variable: None,
                    create_time: clone_opt(&c.create_time),
                    create_user: clone_opt(&c.create_user),
                    update_time: clone_opt(&c.update_time),
                    update_user: clone_opt(&c.update_user),
                    define_name: match def { Some(d) => Some(d.name.clone()), None => None },
                    define_display_name: match def { Some(d) => Some(d.display_name.clone()), None => None },
                    define_version: match def { Some(d) => Some(d.version), None => None },
                };
                assert(row@ == f(c@));
                if instance_row_passes(fs, &row) {
                    let ghost before = out@;
                    out.push(row);
                    assert(views_of(out@) =~= views_of(before).push(row@));
                }
            }
            k = k + 1;
        }
        assert(tt.take(self.cc_instances.len() as int) =~= tt);
        out
    }

    fn collect_define_rows(&self, fs: &[QueryFilter]) -> (r: Vec<DefineRow>)
        ensures
            views_of(r@) == define_rows_where(*self, fs@),
    {
        let ghost p = |d: DefineView| true;
        let ghost f = |d: DefineView| define_row_of(d);
        let ghost q = |x: DefineRowView| passes_all(fs@, x, define_col_fn());
        let ghost tt = self.define_table();
        let mut out: Vec<DefineRow> = Vec::new();
        let mut k: usize = 0;
        assert(views_of(out@) =~= filter_where(filter_where(tt.take(0), p).map_values(f), q));
        while k < self.defines.len()
            invariant
                0 <= k <= self.defines.len(),
                tt == self.define_table(),
                tt == views_of(self.defines@),
                p == |d: DefineView| true,
                f == |d: DefineView| define_row_of(d),
                q == |x: DefineRowView| passes_all(fs@, x, define_col_fn()),
                views_of(out@) == filter_where(filter_where(tt.take(k as int), p).map_values(f), q),
            decreases self.defines.len() - k,
        {
            let d = &self.defines[k];
            assert(tt[k as int] == d@);
            proof {
                lemma_filter_map_step(tt, p, f, q, k as int);
            }
            let row = DefineRow {
                id: d.id,
                name: d.name.clone(),
                display_name: d.display_name.clone(),
                define_type: d.define_type.clone(),
                state: d.state,
                version: d.version,
                create_time: clone_opt(&d.create_time),
                create_user: clone_opt(&d.create_user),
                update_time: clone_opt(&d.update_time),
                update_user: clone_opt(&d.update_user),
            };
            assert(row@ == f(d@));
            if define_row_passes(fs, &row) {
                let ghost before = out@;
                out.push(row);
                assert(views_of(out@) =~= views_of(before).push(row@));
            }
            k = k + 1;
        }
        assert(tt.take(self.defines.len() as int) =~= tt);
        out
    }

    fn collect_designs(&self, fs: &[QueryFilter]) -> (r: Vec<ProcessDesign>)
        ensures
            views_of(r@) == design_rows_where(*self, fs@),
    {
        let ghost p = |d: DesignView| true;
        let ghost f = |d: DesignView| d;
        let ghost q = |x: DesignView| passes_all(fs@, x, design_col_fn());
        let ghost tt = self.design_table();
        let mut out: Vec<ProcessDesign> = Vec::new();
        let mut k: usize = 0;
        assert(views_of(out@) =~= filter_where(filter_where(tt.take(0), p).map_values(f), q));
        while k < self.designs.len()
            invariant
                0 <= k <= self.designs.len(),
                tt == self.design_table(),
                tt == views_of(self.designs@),
                p == |d: DesignView| true,
                f == |d: DesignView| d,
                q == |x: DesignView| passes_all(fs@, x, design_col_fn()),
                views_of(out@) == filter_where(filter_where(tt.take(k as int), p).map_values(f), q),
            decreases self.designs.len() - k,
        {
            let d = &self.designs[k];
            assert(tt[k as int] == d@);
            proof {
                lemma_filter_map_step(tt, p, f, q, k as int);
            }
            if design_row_passes(fs, d) {
                let ghost before = out@;
                out.push(d.dup());
                assert(views_of(out@) =~= views_of(before).push(d@));
            }
            k = k + 1;
        }
        assert(tt.take(self.designs.len() as int) =~= tt);
        out
    }
}

fn update_define_state_in(v: &mut Vec<ProcessDefine>, define_id: i64, state: i32)
    ensures
        views_of(final(v)@) == ({
            let i = first_where(views_of(old(v)@), has_key::<ProcessDefine>(define_id));
            if i >= 0 {
                views_of(old(v)@).update(i, DefineView { state, ..views_of(old(v)@)[i] })
            } else {
                views_of(old(v)@)
            }
        }),
{
    match find_key(v, define_id) {
        Some(i) => {
            let mut d = v[i].dup();
            d.state = state;
            let ghost before = v@;
            v.set(i, d);
            assert(views_of(v@) =~= views_of(before).update(i as int, v@[i as int]@));
        },
        None => {},
    }
}

impl crate::spi::ProcessRepository for MemoryRepository {
    open spec fn reliable(&self) -> bool {
        true
    }

    open spec fn stored_define(&self, define_id: i64) -> Option<DefineView> {
        found(self.define_table(), has_key::<ProcessDefine>(define_id))
    }

    /// An instance is read with the tasks stored for it (in storage order) as its tasks.
    open spec fn stored_instance(&self, instance_id: i64) -> Option<InstanceView> {
        match found(self.instance_table(), has_key::<ProcessInstance>(instance_id)) {
            Some(iv) => Some(InstanceView { tasks: filter_where(self.task_table(), task_of_instance(instance_id)), ..iv }),
            None => None,
        }
    }

    open spec fn stored_task(&self, task_id: i64) -> Option<TaskView> {
        found(self.task_table(), has_key::<ProcessTask>(task_id))
    }

    closed spec fn task_writes(&self) -> Seq<TaskView> {
        self.written@
    }

    fn find_define_by_id(&self, define_id: i64) -> (r: JeeflowResult<Option<ProcessDefine>>)
        ensures
            r matches Ok(o) && define_view_opt(o) == found(self.define_table(), has_key::<ProcessDefine>(define_id)),
    {
        match find_key(&self.defines, define_id) {
            Some(i) => Ok(Some(self.defines[i].dup())),
            None => Ok(None),
        }
    }

    fn save_define(&mut self, define: &mut ProcessDefine) -> (r: JeeflowResult<()>)
        ensures
            r is Ok,
            final(define)@ == (DefineView { id: saved_id(old(define).id, old(self).counter()), ..old(define)@ }),
            final(self).define_table() == upsert_by(
                old(self).define_table(),
                has_key::<ProcessDefine>(final(define).id),
                final(define)@,
            ),
            final(self).counter() == counter_after_save(old(define).id, old(self).counter()),
            keeps(*old(self), *final(self), false, false, true, true, true, true, true, true, true),
    {
        if define.id == 0 {
            define.id = self.next_id();
        }
        upsert_key(&mut self.defines, define.dup());
        Ok(())
    }

    fn update_define(&mut self, define: &ProcessDefine) -> (r: JeeflowResult<()>)
        ensures
            r is Ok,
            final(self).define_table() == upsert_by(old(self).define_table(), has_key::<ProcessDefine>(define.id), define@),
            keeps(*old(self), *final(self), true, false, true, true, true, true, true, true, true),
    {
        upsert_key(&mut self.defines, define.dup());
        Ok(())
    }

    fn update_define_state(&mut self, define_id: i64, state: i32) -> (r: JeeflowResult<()>)
        ensures
            r is Ok,
            final(self).define_table() == ({
                let i = first_where(old(self).define_table(), has_key::<ProcessDefine>(define_id));
                if i >= 0 {
                    old(self).define_table().update(i, DefineView { state, ..old(self).define_table()[i] })
                } else {
                    old(self).define_table()
                }
            }),
            keeps(*old(self), *final(self), true, false, true, true, true, true, true, true, true),
    {
        update_define_state_in(&mut self.defines, define_id, state);
        Ok(())
    }

    fn remove_define(&mut self, define_id: i64) -> (r: JeeflowResult<()>)
        ensures
            r is Ok,
            final(self).define_table() == remove_by(old(self).define_table(), has_key::<ProcessDefine>(define_id)),
            keeps(*old(self), *final(self), true, false, true, true, true, true, true, true, true),
    {
        remove_key(&mut self.defines, define_id);
        Ok(())
    }

    /// The stored instance, with the tasks stored for it (in storage order) as its tasks.
    fn find_instance_by_id(&self, instance_id: i64) -> (r: JeeflowResult<Option<ProcessInstance>>)
        ensures
            r matches Ok(o) && match found(self.instance_table(), has_key::<ProcessInstance>(instance_id)) {
                Some(iv) => o matches Some(x) && x@ == (InstanceView {
                    tasks: filter_where(self.task_table(), task_of_instance(instance_id)),
                    ..iv
                }),
                None => o is None,
            },
    {
        match find_key(&self.instances, instance_id) {
            Some(i) => {
                let mut inst = self.instances[i].dup();
                let empty: Vec<String> = Vec::new();
                inst.tasks = self.task_list(instance_id, None, empty.as_slice());
                Ok(Some(inst))
            },
            None => Ok(None),
        }
    }

    fn save_instance(&mut self, instance: &mut ProcessInstance) -> (r: JeeflowResult<()>)
        ensures
            r is Ok,
            final(instance)@ == (InstanceView {
                instance_id: saved_id(old(instance).instance_id, old(self).counter()),
                ..old(instance)@
            }),
            final(self).instance_table() == upsert_by(
                old(self).instance_table(),
                has_key::<ProcessInstance>(final(instance).instance_id),
                final(instance)@,
            ),
            final(self).counter() == counter_after_save(old(instance).instance_id, old(self).counter()),
            keeps(*old(self), *final(self), false, true, false, true, true, true, true, true, true),
    {
        if instance.instance_id == 0 {
            instance.instance_id = self.next_id();
        }
        upsert_key(&mut self.instances, instance.dup());
        Ok(())
    }

    fn update_instance(&mut self, instance: &ProcessInstance) -> (r: JeeflowResult<()>)
        ensures
            r is Ok,
            final(self).instance_table() == upsert_by(
                old(self).instance_table(),
                has_key::<ProcessInstance>(instance.instance_id),
                instance@,
            ),
            keeps(*old(self), *final(self), true, true, false, true, true, true, true, true, true),
    {
        upsert_key(&mut self.instances, instance.dup());
        proof {
            law_find_after_save(old(self).instance_table(), has_key::<ProcessInstance>(instance.instance_id), instance@);
        }
        Ok(())
    }

    fn find_task_by_id(&self, task_id: i64) -> (r: JeeflowResult<Option<ProcessTask>>)
        ensures
            r matches Ok(o) && match found(self.task_table(), has_key::<ProcessTask>(task_id)) {
                Some(tv) => o matches Some(x) && x@ == tv,
                None => o is None,
            },
    {
        match find_key(&self.tasks, task_id) {
            Some(i) => Ok(Some(self.tasks[i].dup())),
            None => Ok(None),
        }
    }

    fn save_task(&mut self, task: &mut ProcessTask) -> (r: JeeflowResult<()>)
        ensures
            r is Ok,
            final(task)@ == (TaskView { task_id: saved_id(old(task).task_id, old(self).counter()), ..old(task)@ }),
            final(self).task_table() == upsert_by(
                old(self).task_table(),
                has_key::<ProcessTask>(final(task).task_id),
                final(task)@,
            ),
            final(self).counter() == counter_after_save(old(task).task_id, old(self).counter()),
            keeps(*old(self), *final(self), false, true, true, false, true, true, true, true, true),
    {
        if task.task_id == 0 {
            task.task_id = self.next_id();
        }
        upsert_key(&mut self.tasks, task.dup());
        proof {
            self.written = Ghost(self.written@.push(task@));
            law_find_after_save(old(self).task_table(), has_key::<ProcessTask>(task.task_id), task@);
        }
        Ok(())
    }

    fn update_task(&mut self, task: &ProcessTask) -> (r: JeeflowResult<()>)
        ensures
            r is Ok,
            final(self).task_table() == upsert_by(old(self).task_table(), has_key::<ProcessTask>(task.task_id), task@),
            keeps(*old(self), *final(self), true, true, true, false, true, true, true, true, true),
    {
        upsert_key(&mut self.tasks, task.dup());
        proof {
            self.written = Ghost(self.written@.push(task@));
            law_find_after_save(old(self).task_table(), has_key::<ProcessTask>(task.task_id), task@);
            assert forall|id: i64| id != task.task_id implies #[trigger] self.stored_task(id) == old(self).stored_task(id) by {
                lemma_find_other_after_save(old(self).task_table(), has_key::<ProcessTask>(task.task_id), has_key::<ProcessTask>(id), task@);
            }
        }
        Ok(())
    }

    /// Doing tasks of the instance, those named in `task_names` when it is not empty.
    fn find_doing_tasks(&self, instance_id: i64, task_names: &[String]) -> (r: JeeflowResult<Vec<ProcessTask>>)
        ensures
            r matches Ok(v) && task_views(v@) == filter_where(
                self.task_table(),
                task_found_in(instance_id, TASK_DOING, views(task_names@)),
            ),
    {
        Ok(self.task_list(instance_id, Some(TASK_DOING), task_names))
    }

    /// Finished tasks of the instance, those named in `task_names` when it is not empty.
    fn find_done_tasks(&self, instance_id: i64, task_names: &[String]) -> (r: JeeflowResult<Vec<ProcessTask>>)
        ensures
            r matches Ok(v) && task_views(v@) == filter_where(
                self.task_table(),
                task_found_in(instance_id, crate::model::TASK_FINISHED, views(task_names@)),
            ),
    {
        Ok(self.task_list(instance_id, Some(crate::model::TASK_FINISHED), task_names))
    }

    /// Every task of the instance.
    fn find_history_tasks(&self, instance_id: i64) -> (r: JeeflowResult<Vec<ProcessTask>>)
        ensures
            r matches Ok(v) && task_views(v@) == filter_where(self.task_table(), task_of_instance(instance_id)),
    {
        let empty: Vec<String> = Vec::new();
        Ok(self.task_list(instance_id, None, empty.as_slice()))
    }

    fn find_task_actors(&self, task_id: i64) -> (r: JeeflowResult<Vec<String>>)
        ensures
            r matches Ok(v) && views(v@) == match found(self.actor_table(), task_id_is(task_id)) {
                Some(e) => e.1,
                None => Seq::empty(),
            },
    {
        match self.find_actor_entry(task_id) {
            Some(k) => Ok(clone_strings(self.task_actors[k].1.as_slice())),
            None => {
                let v: Vec<String> = Vec::new();
                assert(views(v@) =~= Seq::<Seq<char>>::empty());
                Ok(v)
            },
        }
    }

    /// Add actors to a task's actor list, each only once.
    fn add_task_actor(&mut self, task_id: i64, actors: &[String]) -> (r: JeeflowResult<()>)
        ensures
            r is Ok,
            final(self).actor_table() == ({
                let i = first_where(old(self).actor_table(), task_id_is(task_id));
                if i >= 0 {
                    old(self).actor_table().update(
                        i,
                        (task_id, with_new_actors(old(self).actor_table()[i].1, views(actors@))),
                    )
                } else {
                    old(self).actor_table().push((task_id, with_new_actors(Seq::empty(), views(actors@))))
                }
            }),
            keeps(*old(self), *final(self), true, true, true, true, false, true, true, true, true),
    {
        let (pos, mut list) = match self.find_actor_entry(task_id) {
            Some(k) => (Some(k), clone_strings(self.task_actors[k].1.as_slice())),
            None => (None, Vec::new()),
        };
        let ghost start = views(list@);
        assert(start == match pos {
            Some(k) => self.actor_table()[k as int].1,
            None => Seq::<Seq<char>>::empty(),
        });
        let mut j: usize = 0;
        while j < actors.len()
            invariant
                0 <= j <= actors.len(),
                views(list@) == with_new_actors(start, views(actors@).take(j as int)),
            decreases actors.len() - j,
        {
            assert(views(actors@).take(j + 1).drop_last() =~= views(actors@).take(j as int));
            assert(views(actors@).take(j + 1).last() == actors@[j as int]@);
            if !contains_str(list.as_slice(), actors[j].as_str()) {
                let ghost before = list@;
                list.push(actors[j].clone());
                assert(views(list@) =~= views(before).push(actors@[j as int]@));
            }
            j = j + 1;
        }
        assert(views(actors@).take(actors.len() as int) =~= views(actors@));
        let ghost before = self.task_actors@;
        match pos {
            Some(k) => {
                self.task_actors.set(k, (task_id, list));
                assert(actor_entries(self.task_actors@) =~= actor_entries(before).update(
                    k as int,
                    (task_id, views(self.task_actors@[k as int].1@)),
                ));
            },
            None => {
                self.task_actors.push((task_id, list));
                assert(actor_entries(self.task_actors@) =~= actor_entries(before).push(
                    (task_id, views(self.task_actors@.last().1@)),
                ));
            },
        }
        Ok(())
    }

    /// Take actors off a task's actor list.
    fn remove_task_actor(&mut self, task_id: i64, actors: &[String]) -> (r: JeeflowResult<()>)
        ensures
            r is Ok,
            final(self).actor_table() == ({
                let i = first_where(old(self).actor_table(), task_id_is(task_id));
                if i >= 0 {
                    old(self).actor_table().update(
                        i,
                        (task_id, without_actors(old(self).actor_table()[i].1, views(actors@))),
                    )
                } else {
                    old(self).actor_table()
                }
            }),
            keeps(*old(self), *final(self), true, true, true, true, false, true, true, true, true),
    {
        match self.find_actor_entry(task_id) {
            Some(k) => {
                let cur = clone_strings(self.task_actors[k].1.as_slice());
                let ghost cv = views(cur@);
                let mut kept: Vec<String> = Vec::new();
                let mut j: usize = 0;
                while j < cur.len()
                    invariant
                        0 <= j <= cur.len(),
                        cv == views(cur@),
                        views(kept@) == without_actors(cv.take(j as int), views(actors@)),
                    decreases cur.len() - j,
                {
                    assert(cv.take(j + 1).drop_last() =~= cv.take(j as int));
                    assert(cv.take(j + 1).last() == cur@[j as int]@);
                    if !contains_str(actors, cur[j].as_str()) {
                        let ghost before = kept@;
                        kept.push(cur[j].clone());
                        assert(views(kept@) =~= views(before).push(cur@[j as int]@));
                    }
                    j = j + 1;
                }
                assert(cv.take(cur.len() as int) =~= cv);
                let ghost before = self.task_actors@;
                self.task_actors.set(k, (task_id, kept));
                assert(actor_entries(self.task_actors@) =~= actor_entries(before).update(
                    k as int,
                    (task_id, views(self.task_actors@[k as int].1@)),
                ));
            },
            None => {},
        }
        Ok(())
    }

    /// One unread carbon copy per actor, with fresh ids.
    fn create_cc_instance(&mut self, instance_id: i64, creator: &str, actor_ids: &[String]) -> (r: JeeflowResult<()>)
        ensures
            r is Ok,
            final(self).cc_table().len() == old(self).cc_table().len() + actor_ids@.len(),
            final(self).cc_table().take(old(self).cc_table().len() as int) == old(self).cc_table(),
            forall|k: int| 0 <= k < actor_ids@.len() ==> #[trigger] final(self).cc_table()[old(self).cc_table().len() + k]
                == new_cc(advance(old(self).counter(), k as nat), instance_id, actor_ids@[k]@, creator@),
            final(self).counter() == advance(old(self).counter(), actor_ids@.len()),
            keeps(*old(self), *final(self), false, true, true, true, true, false, true, true, true),
    {
        let ghost n0 = self.cc_table().len();
        let ghost c0 = self.counter();
        let mut k: usize = 0;
        while k < actor_ids.len()
            invariant
                0 <= k <= actor_ids.len(),
                n0 == old(self).cc_table().len(),
                c0 == old(self).counter(),
                self.cc_table().len() == n0 + k,
                self.cc_table().take(n0 as int) == old(self).cc_table(),
                forall|j: int| 0 <= j < k ==> #[trigger] self.cc_table()[n0 + j] == new_cc(
                    advance(c0, j as nat),
                    instance_id,
                    actor_ids@[j]@,
                    creator@,
                ),
                self.counter() == advance(c0, k as nat),
                keeps(*old(self), *self, false, true, true, true, true, false, true, true, true),
                self.written == old(self).written,
            decreases actor_ids.len() - k,
        {
            let id = self.next_id();
            let cc = CcInstance {
                id,
                process_instance_id: instance_id,
                actor_id: actor_ids[k].clone(),
                state: 0,
                create_time: None,
                create_user: Some(owned(creator)),
                update_time: None,
                update_user: None,
            };
            let ghost before = self.cc_table();
            self.cc_instances.push(cc);
            assert(self.cc_table() =~= before.push(self.cc_instances@.last()@));
            assert(self.cc_table().take(n0 as int) =~= before.take(n0 as int));
            k = k + 1;
        }
        Ok(())
    }

    /// Mark the instance's carbon copies to `actor_id` read.
    fn update_cc_status(&mut self, instance_id: i64, actor_id: &str) -> (r: JeeflowResult<()>)
        ensures
            r is Ok,
            final(self).cc_table() == cc_read(old(self).cc_table(), instance_id, actor_id@),
            keeps(*old(self), *final(self), true, true, true, true, true, false, true, true, true),
    {
        let ghost want = cc_read(self.cc_table(), instance_id, actor_id@);
        let mut i: usize = 0;
        while i < self.cc_instances.len()
            invariant
                0 <= i <= self.cc_instances.len(),
                self.cc_table().len() == old(self).cc_table().len(),
                want == cc_read(old(self).cc_table(), instance_id, actor_id@),
                forall|j: int| 0 <= j < i ==> #[trigger] self.cc_table()[j] == want[j],
                forall|j: int| i <= j < self.cc_table().len() ==> #[trigger] self.cc_table()[j] == old(self).cc_table()[j],
                keeps(*old(self), *self, true, true, true, true, true, false, true, true, true),
            decreases self.cc_instances.len() - i,
        {
            let c = &self.cc_instances[i];
            assert(self.cc_table()[i as int] == c@);
            if c.process_instance_id == instance_id && str_eq(c.actor_id.as_str(), actor_id) {
                let updated = CcInstance {
                    id: c.id,
                    process_instance_id: c.process_instance_id,
                    actor_id: c.actor_id.clone(),
                    state: 1,
                    create_time: clone_opt(&c.create_time),
                    create_user: clone_opt(&c.create_user),
                    update_time: clone_opt(&c.update_time),
                    update_user: clone_opt(&c.update_user),
                };
                let ghost before = self.cc_table();
                self.cc_instances.set(i, updated);
                assert(self.cc_table() =~= before.update(i as int, self.cc_instances@[i as int]@));
            }
            i = i + 1;
        }
        assert(self.cc_table() =~= want);
        Ok(())
    }

    /// The todo list: doing tasks of the operator (of anyone when no operator is given), each
    /// joined with its instance and define, filtered, then paged.
    open spec fn todo_page_ok(&self, query: PageQuery) -> bool {
        page_args_ok(
            query.page_num,
            query.page_size,
            task_rows_where(*self, todo_pred(opt_view(query.operator)), query.filters@).len(),
        )
    }

    fn todo_page_fits(&self, query: &PageQuery) -> (r: bool) {
        let rows = self.collect_task_rows(false, &query.operator, query.filters.as_slice());
        proof {
            assert(views_of(rows@).len() == rows@.len());
        }
        page_args_fit(query.page_num, query.page_size, rows.len())
    }

    fn page_todo_tasks(&self, query: &PageQuery) -> (r: JeeflowResult<PageResult<TaskRow>>)
        ensures
            r matches Ok(page) && ({
                let all = task_rows_where(*self, todo_pred(opt_view(query.operator)), query.filters@);
                &&& page.page_num == query.page_num
                &&& page.page_size == query.page_size
                &&& page.record_count == all.len()
                &&& page.total_page == total_pages(all.len() as int, query.page_size as int)
                &&& views_of(page.rows@) == page_rows(all, query.page_num, query.page_size)
            }),
    {
        let rows = self.collect_task_rows(false, &query.operator, query.filters.as_slice());
        let page = paginate(rows, query.page_num, query.page_size);
        assert(views_of(page.rows@) =~= page_rows(views_of(rows@), query.page_num, query.page_size));
        Ok(page)
    }

    /// The done list: tasks no longer doing that the (trimmed) operator finished; no operator,
    /// or a blank one, gives an empty list.
    open spec fn done_page_ok(&self, query: PageQuery) -> bool {
        page_args_ok(
            query.page_num,
            query.page_size,
            task_rows_where(*self, done_pred(done_operator(opt_view(query.operator))), query.filters@).len(),
        )
    }

    fn done_page_fits(&self, query: &PageQuery) -> (r: bool) {
        let rows = self.collect_task_rows(true, &query.operator, query.filters.as_slice());
        proof {
            assert(views_of(rows@).len() == rows@.len());
        }
        page_args_fit(query.page_num, query.page_size, rows.len())
    }

    fn page_done_tasks(&self, query: &PageQuery) -> (r: JeeflowResult<PageResult<TaskRow>>)
        ensures
            r matches Ok(page) && ({
                let all = task_rows_where(*self, done_pred(done_operator(opt_view(query.operator))), query.filters@);
                &&& page.page_num == query.page_num
                &&& page.page_size == query.page_size
                &&& page.record_count == all.len()
                &&& page.total_page == total_pages(all.len() as int, query.page_size as int)
                &&& views_of(page.rows@) == page_rows(all, query.page_num, query.page_size)
            }),
    {
        let rows = self.collect_task_rows(true, &query.operator, query.filters.as_slice());
        let page = paginate(rows, query.page_num, query.page_size);
        assert(views_of(page.rows@) =~= page_rows(views_of(rows@), query.page_num, query.page_size));
        Ok(page)
    }

    open spec fn instance_page_ok(&self, query: PageQuery) -> bool {
        page_args_ok(query.page_num, query.page_size, instance_rows_where(*self, opt_view(query.operator), query.filters@).len())
    }

    fn instance_page_fits(&self, query: &PageQuery) -> (r: bool) {
        let rows = self.collect_instance_rows(&query.operator, query.filters.as_slice());
        proof {
            assert(views_of(rows@).len() == rows@.len());
        }
        page_args_fit(query.page_num, query.page_size, rows.len())
    }

    /// Instances started by the operator (every instance when none is given), joined with their
    /// define, filtered, then paged.
    fn page_instances(&self, query: &PageQuery) -> (r: JeeflowResult<PageResult<InstanceRow>>)
        ensures
            r matches Ok(page) && ({
                let all = instance_rows_where(*self, opt_view(query.operator), query.filters@);
                &&& page.page_num == query.page_num
                &&& page.page_size == query.page_size
                &&& page.record_count == all.len()
                &&& page.total_page == total_pages(all.len() as int, query.page_size as int)
                &&& views_of(page.rows@) == page_rows(all, query.page_num, query.page_size)
            }),
    {
        let rows = self.collect_instance_rows(&query.operator, query.filters.as_slice());
        let page = paginate(rows, query.page_num, query.page_size);
        assert(views_of(page.rows@) =~= page_rows(views_of(rows@), query.page_num, query.page_size));
        Ok(page)
    }

    open spec fn cc_page_ok(&self, query: PageQuery) -> bool {
        page_args_ok(query.page_num, query.page_size, cc_rows_where(*self, opt_view(query.operator), query.filters@).len())
    }

    fn cc_page_fits(&self, query: &PageQuery) -> (r: bool) {
        let rows = self.collect_cc_rows(&query.operator, query.filters.as_slice());
        proof {
            assert(views_of(rows@).len() == rows@.len());
        }
        page_args_fit(query.page_num, query.page_size, rows.len())
    }

    /// Carbon copies to the operator (all when none is given), filtered, then paged.
    fn page_cc_instances(&self, query: &PageQuery) -> (r: JeeflowResult<PageResult<InstanceRow>>)
        ensures
            r matches Ok(page) && ({
                let all = cc_rows_where(*self, opt_view(query.operator), query.filters@);
                &&& page.page_num == query.page_num
                &&& page.page_size == query.page_size
                &&& page.record_count == all.len()
                &&& page.total_page == total_pages(all.len() as int, query.page_size as int)
                &&& views_of(page.rows@) == page_rows(all, query.page_num, query.page_size)
            }),
    {
        let rows = self.collect_cc_rows(&query.operator, query.filters.as_slice());
        let page = paginate(rows, query.page_num, query.page_size);
        assert(views_of(page.rows@) =~= page_rows(views_of(rows@), query.page_num, query.page_size));
        Ok(page)
    }

    open spec fn define_page_ok(&self, query: PageQuery) -> bool {
        page_args_ok(query.page_num, query.page_size, define_rows_where(*self, query.filters@).len())
    }

    fn define_page_fits(&self, query: &PageQuery) -> (r: bool) {
        let rows = self.collect_define_rows(query.filters.as_slice());
        proof {
            assert(views_of(rows@).len() == rows@.len());
        }
        page_args_fit(query.page_num, query.page_size, rows.len())
    }

    /// Every define, filtered, then paged.
    fn page_defines(&self, query: &PageQuery) -> (r: JeeflowResult<PageResult<DefineRow>>)
        ensures
            r matches Ok(page) && ({
                let all = define_rows_where(*self, query.filters@);
                &&& page.page_num == query.page_num
                &&& page.page_size == query.page_size
                &&& page.record_count == all.len()
                &&& page.total_page == total_pages(all.len() as int, query.page_size as int)
                &&& views_of(page.rows@) == page_rows(all, query.page_num, query.page_size)
            }),
    {
        let rows = self.collect_define_rows(query.filters.as_slice());
        let page = paginate(rows, query.page_num, query.page_size);
        assert(views_of(page.rows@) =~= page_rows(views_of(rows@), query.page_num, query.page_size));
        Ok(page)
    }

    /// Doing tasks that list `user_id` among their actors.
    fn count_todo_tasks(&self, user_id: &str) -> (r: JeeflowResult<i64>)
        ensures
            r matches Ok(n) && n == count_where(self.task_table(), todo_of(user_id@)) as i64,
    {
        let ghost tt = self.task_table();
        let mut n: usize = 0;
        let mut i: usize = 0;
        while i < self.tasks.len()
            invariant
                0 <= i <= self.tasks.len(),
                tt == self.task_table(),
                tt == views_of(self.tasks@),
                n == count_where(tt.take(i as int), todo_of(user_id@)),
                n <= i,
            decreases self.tasks.len() - i,
        {
            let t = &self.tasks[i];
            assert(tt.take(i + 1).drop_last() =~= tt.take(i as int));
            assert(tt.take(i + 1).last() == t@);
            if t.task_state == TASK_DOING && contains_str(t.actor_ids.as_slice(), user_id) {
                n = n + 1;
            }
            i = i + 1;
        }
        assert(tt.take(self.tasks.len() as int) =~= tt);
        Ok(n as i64)
    }
}


/// The history rows of a design, newest first.
pub open spec fn design_his_of(s: Seq<DesignHisView>, design_id: i64) -> Seq<DesignHisView> {
    filter_where(s, |h: DesignHisView| h.process_design_id == design_id).reverse()
}

impl crate::spi::ProcessExtRepository for MemoryRepository {
    fn find_design_by_id(&self, design_id: i64) -> (r: JeeflowResult<Option<ProcessDesign>>)
        ensures
            r matches Ok(o) && match found(self.design_table(), has_key::<ProcessDesign>(design_id)) {
                Some(d) => o matches Some(x) && x@ == d,
                None => o is None,
            },
    {
        match find_key(&self.designs, design_id) {
            Some(i) => Ok(Some(self.designs[i].dup())),
            None => Ok(None),
        }
    }

    fn save_design(&mut self, design: &mut ProcessDesign) -> (r: JeeflowResult<()>)
        ensures
            r is Ok,
            final(design)@ == (DesignView { id: saved_id(old(design).id, old(self).counter()), ..old(design)@ }),
            final(self).design_table() == upsert_by(
                old(self).design_table(),
                has_key::<ProcessDesign>(final(design).id),
                final(design)@,
            ),
            final(self).counter() == counter_after_save(old(design).id, old(self).counter()),
            keeps(*old(self), *final(self), false, true, true, true, true, true, false, true, true),
    {
        if design.id == 0 {
            design.id = self.next_id();
        }
        upsert_key(&mut self.designs, design.dup());
        Ok(())
    }

    fn update_design(&mut self, design: &ProcessDesign) -> (r: JeeflowResult<()>)
        ensures
            r is Ok,
            final(self).design_table() == upsert_by(old(self).design_table(), has_key::<ProcessDesign>(design.id), design@),
            keeps(*old(self), *final(self), true, true, true, true, true, true, false, true, true),
    {
        upsert_key(&mut self.designs, design.dup());
        Ok(())
    }

    fn remove_design(&mut self, design_id: i64) -> (r: JeeflowResult<()>)
        ensures
            r is Ok,
            final(self).design_table() == remove_by(old(self).design_table(), has_key::<ProcessDesign>(design_id)),
            keeps(*old(self), *final(self), true, true, true, true, true, true, false, true, true),
    {
        remove_key(&mut self.designs, design_id);
        Ok(())
    }

    open spec fn design_page_ok(&self, query: PageQuery) -> bool {
        page_args_ok(query.page_num, query.page_size, design_rows_where(*self, query.filters@).len())
    }

    fn design_page_fits(&self, query: &PageQuery) -> (r: bool) {
        let rows = self.collect_designs(query.filters.as_slice());
        proof {
            assert(views_of(rows@).len() == rows@.len());
        }
        page_args_fit(query.page_num, query.page_size, rows.len())
    }

    /// Every design, filtered, then paged.
    fn page_designs(&self, query: &PageQuery) -> (r: JeeflowResult<PageResult<ProcessDesign>>)
        ensures
            r matches Ok(page) && ({
                let all = design_rows_where(*self, query.filters@);
                &&& page.page_num == query.page_num
                &&& page.page_size == query.page_size
                &&& page.record_count == all.len()
                &&& page.total_page == total_pages(all.len() as int, query.page_size as int)
                &&& views_of(page.rows@) == page_rows(all, query.page_num, query.page_size)
            }),
    {
        let rows = self.collect_designs(query.filters.as_slice());
        let page = paginate(rows, query.page_num, query.page_size);
        assert(views_of(page.rows@) =~= page_rows(views_of(rows@), query.page_num, query.page_size));
        Ok(page)
    }

    fn save_design_his(&mut self, his: &mut ProcessDesignHis) -> (r: JeeflowResult<()>)
        ensures
            r is Ok,
            final(his)@ == (DesignHisView { id: saved_id(old(his).id, old(self).counter()), ..old(his)@ }),
            final(self).design_his_table() == old(self).design_his_table().push(final(his)@),
            final(self).counter() == counter_after_save(old(his).id, old(self).counter()),
            keeps(*old(self), *final(self), false, true, true, true, true, true, true, false, true),
    {
        if his.id == 0 {
            his.id = self.next_id();
        }
        let ghost before = self.design_his@;
        self.design_his.push(his.dup());
        assert(views_of(self.design_his@) =~= views_of(before).push(his@));
        Ok(())
    }

    /// The history of a design, newest first.
    fn list_design_his(&self, design_id: i64) -> (r: JeeflowResult<Vec<ProcessDesignHis>>)
        ensures
            r matches Ok(v) && views_of(v@) == design_his_of(self.design_his_table(), design_id),
    {
        let ghost p = |h: DesignHisView| h.process_design_id == design_id;
        let ghost tt = self.design_his_table();
        let mut out: Vec<ProcessDesignHis> = Vec::new();
        let mut i: usize = 0;
        let mut fwd: Vec<ProcessDesignHis> = Vec::new();
        while i < self.design_his.len()
            invariant
                0 <= i <= self.design_his.len(),
                tt == self.design_his_table(),
                tt == views_of(self.design_his@),
                p == |h: DesignHisView| h.process_design_id == design_id,
                views_of(fwd@) == filter_where(tt.take(i as int), p),
            decreases self.design_his.len() - i,
        {
            let h = &self.design_his[i];
            assert(tt.take(i + 1).drop_last() =~= tt.take(i as int));
            assert(tt.take(i + 1).last() == h@);
            if h.process_design_id == design_id {
                let ghost before = fwd@;
                fwd.push(h.dup());
                assert(views_of(fwd@) =~= views_of(before).push(h@));
            }
            i = i + 1;
        }
        assert(tt.take(self.design_his.len() as int) =~= tt);
        let mut j: usize = fwd.len();
        let ghost fv = views_of(fwd@);
        while j > 0
            invariant
                0 <= j <= fwd.len(),
                fv == views_of(fwd@),
                views_of(out@) == fv.skip(j as int).reverse(),
            decreases j,
        {
            j = j - 1;
            let ghost before = out@;
            out.push(fwd[j].dup());
            assert(views_of(out@) =~= views_of(before).push(fv[j as int]));
            assert(fv.skip(j as int).reverse() =~= fv.skip(j + 1).reverse().push(fv[j as int]));
        }
        assert(fv.skip(0) =~= fv);
        Ok(out)
    }

    fn find_surrogate_by_id(&self, surrogate_id: i64) -> (r: JeeflowResult<Option<ProcessSurrogate>>)
        ensures
            r matches Ok(o) && match found(self.surrogate_table(), has_key::<ProcessSurrogate>(surrogate_id)) {
                Some(x) => o matches Some(y) && y@ == x,
                None => o is None,
            },
    {
        match find_key(&self.surrogates, surrogate_id) {
            Some(i) => Ok(Some(self.surrogates[i].dup())),
            None => Ok(None),
        }
    }

    fn save_surrogate(&mut self, surrogate: &mut ProcessSurrogate) -> (r: JeeflowResult<()>)
        ensures
            r is Ok,
            final(surrogate)@ == (SurrogateView { id: saved_id(old(surrogate).id, old(self).counter()), ..old(surrogate)@ }),
            final(self).surrogate_table() == upsert_by(
                old(self).surrogate_table(),
                has_key::<ProcessSurrogate>(final(surrogate).id),
                final(surrogate)@,
            ),
            final(self).counter() == counter_after_save(old(surrogate).id, old(self).counter()),
            keeps(*old(self), *final(self), false, true, true, true, true, true, true, true, false),
    {
        if surrogate.id == 0 {
            surrogate.id = self.next_id();
        }
        upsert_key(&mut self.surrogates, surrogate.dup());
        Ok(())
    }

    fn update_surrogate(&mut self, surrogate: &ProcessSurrogate) -> (r: JeeflowResult<()>)
        ensures
            r is Ok,
            final(self).surrogate_table() == upsert_by(
                old(self).surrogate_table(),
                has_key::<ProcessSurrogate>(surrogate.id),
                surrogate@,
            ),
            keeps(*old(self), *final(self), true, true, true, true, true, true, true, true, false),
    {
        upsert_key(&mut self.surrogates, surrogate.dup());
        Ok(())
    }

    fn remove_surrogate(&mut self, surrogate_id: i64) -> (r: JeeflowResult<()>)
        ensures
            r is Ok,
            final(self).surrogate_table() == remove_by(old(self).surrogate_table(), has_key::<ProcessSurrogate>(surrogate_id)),
            keeps(*old(self), *final(self), true, true, true, true, true, true, true, true, false),
    {
        remove_key(&mut self.surrogates, surrogate_id);
        Ok(())
    }

    open spec fn surrogate_page_ok(&self, query: PageQuery) -> bool {
        page_args_ok(query.page_num, query.page_size, self.surrogate_table().len())
    }

    fn surrogate_page_fits(&self, query: &PageQuery) -> (r: bool) {
        proof {
            assert(views_of(self.surrogates@).len() == self.surrogates@.len());
        }
        page_args_fit(query.page_num, query.page_size, self.surrogates.len())
    }

    /// Every surrogate row, paged (filters do not apply).
    fn page_surrogates(&self, query: &PageQuery) -> (r: JeeflowResult<PageResult<ProcessSurrogate>>)
        ensures
            r matches Ok(page) && ({
                let all = self.surrogate_table();
                &&& page.page_num == query.page_num
                &&& page.page_size == query.page_size
                &&& page.record_count == all.len()
                &&& page.total_page == total_pages(all.len() as int, query.page_size as int)
                &&& views_of(page.rows@) == page_rows(all, query.page_num, query.page_size)
            }),
    {
        let mut rows: Vec<ProcessSurrogate> = Vec::new();
        let mut i: usize = 0;
        while i < self.surrogates.len()
            invariant
                0 <= i <= self.surrogates.len(),
                views_of(rows@) == views_of(self.surrogates@).take(i as int),
            decreases self.surrogates.len() - i,
        {
            let ghost before = rows@;
            rows.push(self.surrogates[i].dup());
            assert(views_of(rows@) =~= views_of(before).push(self.surrogates@[i as int]@));
            assert(views_of(self.surrogates@).take(i + 1) =~= views_of(self.surrogates@).take(i as int).push(
                self.surrogates@[i as int]@,
            ));
            i = i + 1;
        }
        assert(views_of(self.surrogates@).take(self.surrogates.len() as int) =~= views_of(self.surrogates@));
        let page = paginate(rows, query.page_num, query.page_size);
        assert(views_of(page.rows@) =~= page_rows(views_of(rows@), query.page_num, query.page_size));
        Ok(page)
    }

    /// The surrogate in force (the four predicates; greatest id among several hits).
    fn get_surrogate(&self, operator: &str, process_name: &str, time: &str) -> (r: JeeflowResult<Option<ProcessSurrogate>>)
        ensures
            r matches Ok(o) && ({
                let k = picked(self.surrogate_table(), operator@, process_name@, time@);
                match o {
                    Some(x) => 0 <= k < self.surrogate_table().len() && x@ == self.surrogate_table()[k],
                    None => k == -1,
                }
            }),
    {
        assert(surrogate_views(self.surrogates@) =~= self.surrogate_table());
        Ok(crate::surrogate::pick_surrogate(self.surrogates.as_slice(), operator, process_name, time))
    }
}


/// A record that was just saved is what a lookup of its id finds.
pub proof fn law_find_after_save<V>(s: Seq<V>, p: spec_fn(V) -> bool, x: V)
    requires
        p(x),
    ensures
        found(upsert_by(s, p, x), p) == Some(x),
{
    lemma_first_where(s, p);
    let u = upsert_by(s, p, x);
    let i = first_where(s, p);
    if i >= 0 {
        assert forall|j: int| 0 <= j < i implies !p(#[trigger] u[j]) by {
            assert(u[j] == s[j]);
        }
        assert(u[i] == x);
        crate::parser::lemma_first_where(u, p);
        if first_where(u, p) != i {
            if first_where(u, p) < i {
                assert(!p(u[first_where(u, p)]));
            } else {
                assert(!p(u[i]));
            }
        }
    } else {
        assert forall|j: int| 0 <= j < s.len() implies !p(#[trigger] u[j]) by {
            assert(u[j] == s[j]);
        }
        crate::parser::lemma_first_where(u, p);
        assert(u[s.len() as int] == x);
        if first_where(u, p) != s.len() {
            if first_where(u, p) >= 0 {
                assert(!p(u[first_where(u, p)]));
            } else {
                assert(!p(u[s.len() as int]));
            }
        }
    }
}


/// Saving a record leaves what a lookup finds for a predicate that neither the record nor
/// anything it could replace satisfies.
pub proof fn lemma_find_other_after_save<V>(s: Seq<V>, p: spec_fn(V) -> bool, q: spec_fn(V) -> bool, x: V)
    requires
        !q(x),
        forall|v: V| #[trigger] p(v) ==> !q(v),
    ensures
        found(upsert_by(s, p, x), q) == found(s, q),
{
    let u = upsert_by(s, p, x);
    lemma_first_where(s, p);
    lemma_first_where(s, q);
    lemma_first_where(u, q);
    assert forall|j: int| 0 <= j < u.len() implies (q(#[trigger] u[j]) <==> (j < s.len() && q(s[j]))) by {
        if first_where(s, p) >= 0 {
            if j != first_where(s, p) {
                assert(u[j] == s[j]);
            } else {
                assert(p(s[j]));
            }
        } else if j < s.len() {
            assert(u[j] == s[j]);
        }
    }
    let a = first_where(s, q);
    let b = first_where(u, q);
    if a >= 0 {
        assert(u[a] == s[a] || !q(u[a])) by {
            if first_where(s, p) == a {
                assert(p(s[a]));
            }
        }
        assert(q(u[a]));
        assert forall|j: int| 0 <= j < a implies !q(#[trigger] u[j]) by {
            assert(!q(s[j]));
        }
        crate::parser::lemma_first_where_unique(u, q, a);
        assert(u[a] == s[a]) by {
            if first_where(s, p) == a {
                assert(p(s[a]));
            }
        }
    } else if b >= 0 {
        assert(q(u[b]));
        assert(b < s.len() && q(s[b]));
    }
}

} // verus!
