//! The built-in assignment handlers, and field filtering by permission.

use vstd::prelude::*;
use crate::engine::Execution;
use crate::error::JeeflowResult;
use crate::json::{jview_entries, lemma_jview_entries, jview, FlowData, JView};
use crate::model::{opt_view, UserInfo};
use crate::spi::{AssignmentHandler, IdGenerator, OrgUserProvider, ProcessExtRepository, ProcessRepository, UserProvider};
use crate::context::{lemma_registered_names, slot_of, ServiceContext};
use crate::text::{has_prefix, join, join_with, owned, push_str, starts_with, str_eq, views};

verus! {

/// The process initiator.
pub struct OperatorAssignmentHandler;

impl AssignmentHandler for OperatorAssignmentHandler {
    fn assign(&self, exec: &Execution) -> (r: JeeflowResult<String>)
        ensures
            r matches Ok(s) && s@ == exec.process_instance.operator@,
    {
        Ok(exec.process_instance.operator.clone())
    }
}

/// The department of a looked-up user: theirs when found, else empty.
pub fn dept_of_reply(reply: JeeflowResult<Option<UserInfo>>) -> (r: String)
    ensures
        r@ == match reply {
            Ok(Some(u)) => u.dept_id@,
            _ => Seq::empty(),
        },
{
    match reply {
        Ok(Some(u)) => u.dept_id,
        _ => String::new(),
    }
}

/// Leaders found for a department, comma-joined; empty when none were found.
pub fn leaders_of_reply(reply: JeeflowResult<Vec<String>>) -> (r: String)
    ensures
        r@ == match reply {
            Ok(v) => if v@.len() > 0 { join(views(v@), ","@) } else { Seq::empty() },
            Err(_) => Seq::empty(),
        },
{
    match reply {
        Ok(v) => {
            if v.len() > 0 {
                join_with(v.as_slice(), ",")
            } else {
                String::new()
            }
        },
        Err(_) => String::new(),
    }
}

/// The names the built-in assignment handlers are registered under.
pub open spec fn builtin_handler_names() -> Seq<Seq<char>> {
    seq![
        "com.mldong.jeeflow.interceptor.impl.OperatorAssignmentHandler"@,
        "com.mldong.jeeflow.interceptor.impl.OrgUserAssignmentHandlers$ApplicantDeptLeaderAssignmentHandler"@,
        "com.mldong.jeeflow.interceptor.impl.OrgUserAssignmentHandlers$ApplicantDeptMainLeaderAssignmentHandler"@,
        "com.mldong.jeeflow.interceptor.impl.OrgUserAssignmentHandlers$DeptLeaderAssignmentHandler"@,
        "com.mldong.jeeflow.interceptor.impl.OrgUserAssignmentHandlers$DeptMainLeaderAssignmentHandler"@,
        "com.mldong.jeeflow.interceptor.impl.FormFieldAssigneeHandler"@,
        "com.mldong.jeeflow.interceptor.impl.OrgUserAssignmentHandlers$TaskRoleAssigneeHandler"@,
    ]
}

/// Register the seven built-in assignment handlers under their registration names; the
/// organisation handlers ask `user` and `org`.
pub fn register_builtin_assignment_handlers<R, G, U, O>(ctx: &mut ServiceContext<R, G>, user: Option<U>, org: Option<O>)
    where
        R: ProcessRepository + ProcessExtRepository,
        G: IdGenerator,
        U: UserProvider + Clone + 'static,
        O: OrgUserProvider + Clone + 'static,
    ensures
        forall|k: int| 0 <= k < 7 ==> slot_of(final(ctx).assignment_handlers@, #[trigger] builtin_handler_names()[k]) >= 0,
        forall|a: Seq<char>| slot_of(old(ctx).assignment_handlers@, a) >= 0 ==> #[trigger] slot_of(final(ctx).assignment_handlers@, a) >= 0,
        final(ctx).assignment_handlers@.len() <= old(ctx).assignment_handlers@.len() + 7,
        *final(ctx) == (ServiceContext { assignment_handlers: final(ctx).assignment_handlers, ..*old(ctx) }),
{
    let ghost h0 = ctx.assignment_handlers@;
    let b0: Box<dyn AssignmentHandler> = Box::new(OperatorAssignmentHandler);
    ctx.register_assignment_handler(
        "com.mldong.jeeflow.interceptor.impl.OperatorAssignmentHandler",
        b0,
    );
    let ghost h1 = ctx.assignment_handlers@;
    proof {
        assert forall|a: Seq<char>| slot_of(h0, a) >= 0 implies #[trigger] slot_of(h1, a) >= 0 by {
            lemma_registered_names(h0, h1, "com.mldong.jeeflow.interceptor.impl.OperatorAssignmentHandler"@, a);
        }
        lemma_registered_names(h0, h1, "com.mldong.jeeflow.interceptor.impl.OperatorAssignmentHandler"@, "com.mldong.jeeflow.interceptor.impl.OperatorAssignmentHandler"@);
    }
    let b1: Box<dyn AssignmentHandler> = Box::new(ApplicantDeptLeaderAssignmentHandler { base: OrgAssignBase { user: user.clone(), org: org.clone() } });
    ctx.register_assignment_handler(
        "com.mldong.jeeflow.interceptor.impl.OrgUserAssignmentHandlers$ApplicantDeptLeaderAssignmentHandler",
        b1,
    );
    let ghost h2 = ctx.assignment_handlers@;
    proof {
        assert forall|a: Seq<char>| slot_of(h1, a) >= 0 implies #[trigger] slot_of(h2, a) >= 0 by {
            lemma_registered_names(h1, h2, "com.mldong.jeeflow.interceptor.impl.OrgUserAssignmentHandlers$ApplicantDeptLeaderAssignmentHandler"@, a);
        }
        lemma_registered_names(h1, h2, "com.mldong.jeeflow.interceptor.impl.OrgUserAssignmentHandlers$ApplicantDeptLeaderAssignmentHandler"@, "com.mldong.jeeflow.interceptor.impl.OrgUserAssignmentHandlers$ApplicantDeptLeaderAssignmentHandler"@);
    }
    let b2: Box<dyn AssignmentHandler> = Box::new(ApplicantDeptMainLeaderAssignmentHandler { base: OrgAssignBase { user: user.clone(), org: org.clone() } });
    ctx.register_assignment_handler(
        "com.mldong.jeeflow.interceptor.impl.OrgUserAssignmentHandlers$ApplicantDeptMainLeaderAssignmentHandler",
        b2,
    );
    let ghost h3 = ctx.assignment_handlers@;
    proof {
        assert forall|a: Seq<char>| slot_of(h2, a) >= 0 implies #[trigger] slot_of(h3, a) >= 0 by {
            lemma_registered_names(h2, h3, "com.mldong.jeeflow.interceptor.impl.OrgUserAssignmentHandlers$ApplicantDeptMainLeaderAssignmentHandler"@, a);
        }
        lemma_registered_names(h2, h3, "com.mldong.jeeflow.interceptor.impl.OrgUserAssignmentHandlers$ApplicantDeptMainLeaderAssignmentHandler"@, "com.mldong.jeeflow.interceptor.impl.OrgUserAssignmentHandlers$ApplicantDeptMainLeaderAssignmentHandler"@);
    }
    let b3: Box<dyn AssignmentHandler> = Box::new(DeptLeaderAssignmentHandler { base: OrgAssignBase { user: user.clone(), org: org.clone() } });
    ctx.register_assignment_handler(
        "com.mldong.jeeflow.interceptor.impl.OrgUserAssignmentHandlers$DeptLeaderAssignmentHandler",
        b3,
    );
    let ghost h4 = ctx.assignment_handlers@;
    proof {
        assert forall|a: Seq<char>| slot_of(h3, a) >= 0 implies #[trigger] slot_of(h4, a) >= 0 by {
            lemma_registered_names(h3, h4, "com.mldong.jeeflow.interceptor.impl.OrgUserAssignmentHandlers$DeptLeaderAssignmentHandler"@, a);
        }
        lemma_registered_names(h3, h4, "com.mldong.jeeflow.interceptor.impl.OrgUserAssignmentHandlers$DeptLeaderAssignmentHandler"@, "com.mldong.jeeflow.interceptor.impl.OrgUserAssignmentHandlers$DeptLeaderAssignmentHandler"@);
    }
    let b4: Box<dyn AssignmentHandler> = Box::new(DeptMainLeaderAssignmentHandler { base: OrgAssignBase { user, org: org.clone() } });
    ctx.register_assignment_handler(
        "com.mldong.jeeflow.interceptor.impl.OrgUserAssignmentHandlers$DeptMainLeaderAssignmentHandler",
        b4,
    );
    let ghost h5 = ctx.assignment_handlers@;
    proof {
        assert forall|a: Seq<char>| slot_of(h4, a) >= 0 implies #[trigger] slot_of(h5, a) >= 0 by {
            lemma_registered_names(h4, h5, "com.mldong.jeeflow.interceptor.impl.OrgUserAssignmentHandlers$DeptMainLeaderAssignmentHandler"@, a);
        }
        lemma_registered_names(h4, h5, "com.mldong.jeeflow.interceptor.impl.OrgUserAssignmentHandlers$DeptMainLeaderAssignmentHandler"@, "com.mldong.jeeflow.interceptor.impl.OrgUserAssignmentHandlers$DeptMainLeaderAssignmentHandler"@);
    }
    let b5: Box<dyn AssignmentHandler> = Box::new(FormFieldAssigneeHandler);
    ctx.register_assignment_handler(
        "com.mldong.jeeflow.interceptor.impl.FormFieldAssigneeHandler",
        b5,
    );
    let ghost h6 = ctx.assignment_handlers@;
    proof {
        assert forall|a: Seq<char>| slot_of(h5, a) >= 0 implies #[trigger] slot_of(h6, a) >= 0 by {
            lemma_registered_names(h5, h6, "com.mldong.jeeflow.interceptor.impl.FormFieldAssigneeHandler"@, a);
        }
        lemma_registered_names(h5, h6, "com.mldong.jeeflow.interceptor.impl.FormFieldAssigneeHandler"@, "com.mldong.jeeflow.interceptor.impl.FormFieldAssigneeHandler"@);
    }
    let b6: Box<dyn AssignmentHandler> = Box::new(TaskRoleAssigneeHandler { org });
    ctx.register_assignment_handler(
        "com.mldong.jeeflow.interceptor.impl.OrgUserAssignmentHandlers$TaskRoleAssigneeHandler",
        b6,
    );
    let ghost h7 = ctx.assignment_handlers@;
    proof {
        assert forall|a: Seq<char>| slot_of(h6, a) >= 0 implies #[trigger] slot_of(h7, a) >= 0 by {
            lemma_registered_names(h6, h7, "com.mldong.jeeflow.interceptor.impl.OrgUserAssignmentHandlers$TaskRoleAssigneeHandler"@, a);
        }
        lemma_registered_names(h6, h7, "com.mldong.jeeflow.interceptor.impl.OrgUserAssignmentHandlers$TaskRoleAssigneeHandler"@, "com.mldong.jeeflow.interceptor.impl.OrgUserAssignmentHandlers$TaskRoleAssigneeHandler"@);
    }
    assert(builtin_handler_names() =~= seq![
        "com.mldong.jeeflow.interceptor.impl.OperatorAssignmentHandler"@,
        "com.mldong.jeeflow.interceptor.impl.OrgUserAssignmentHandlers$ApplicantDeptLeaderAssignmentHandler"@,
        "com.mldong.jeeflow.interceptor.impl.OrgUserAssignmentHandlers$ApplicantDeptMainLeaderAssignmentHandler"@,
        "com.mldong.jeeflow.interceptor.impl.OrgUserAssignmentHandlers$DeptLeaderAssignmentHandler"@,
        "com.mldong.jeeflow.interceptor.impl.OrgUserAssignmentHandlers$DeptMainLeaderAssignmentHandler"@,
        "com.mldong.jeeflow.interceptor.impl.FormFieldAssigneeHandler"@,
        "com.mldong.jeeflow.interceptor.impl.OrgUserAssignmentHandlers$TaskRoleAssigneeHandler"@,
    ]);
    assert(forall|k: int| 0 <= k < 7 ==> slot_of(h7, #[trigger] builtin_handler_names()[k]) >= 0) by {
        assert forall|k: int| 0 <= k < 7 implies slot_of(h7, #[trigger] builtin_handler_names()[k]) >= 0 by {
            assert(slot_of(h1, builtin_handler_names()[0]) >= 0);
            assert(slot_of(h2, builtin_handler_names()[1]) >= 0);
            assert(slot_of(h3, builtin_handler_names()[2]) >= 0);
            assert(slot_of(h4, builtin_handler_names()[3]) >= 0);
            assert(slot_of(h5, builtin_handler_names()[4]) >= 0);
            assert(slot_of(h6, builtin_handler_names()[5]) >= 0);
            assert(slot_of(h7, builtin_handler_names()[6]) >= 0);
        }
    }
}

/// The user and organisation providers the organisation handlers ask.
pub struct OrgAssignBase<U: UserProvider, O: OrgUserProvider> {
    pub user: Option<U>,
    pub org: Option<O>,
}

impl<U: UserProvider, O: OrgUserProvider> OrgAssignBase<U, O> {
    /// Department of `user_id`; empty when the id is empty, there is no user provider, or the
    /// user is not found.
    pub fn dept_id_of(&self, user_id: &str) -> (r: String)
        ensures
            (user_id@.len() == 0 || self.user is None) ==> r@.len() == 0,
    {
        if user_id.is_empty() {
            return String::new();
        }
        match &self.user {
            None => String::new(),
            Some(up) => dept_of_reply(up.get_user(user_id)),
        }
    }

    /// Leaders (or main leaders) of a department, comma-joined; empty when the department is
    /// empty, there is no organisation provider, or none are found.
    pub fn by_dept(&self, dept_id: &str, main: bool) -> (r: String)
        ensures
            (dept_id@.len() == 0 || self.org is None) ==> r@.len() == 0,
    {
        if dept_id.is_empty() {
            return String::new();
        }
        match &self.org {
            None => String::new(),
            Some(org) => {
                let ids = if main {
                    org.find_dept_main_leaders(dept_id)
                } else {
                    org.find_dept_leaders(dept_id)
                };
                leaders_of_reply(ids)
            },
        }
    }
}

/// The initiator's department leaders.
pub struct ApplicantDeptLeaderAssignmentHandler<U: UserProvider, O: OrgUserProvider> {
    pub base: OrgAssignBase<U, O>,
}

impl<U: UserProvider, O: OrgUserProvider> AssignmentHandler for ApplicantDeptLeaderAssignmentHandler<U, O> {
    fn assign(&self, exec: &Execution) -> (r: JeeflowResult<String>)
        ensures
            r is Ok,
            (exec.process_instance.operator@.len() == 0 || self.base.user is None || self.base.org is None)
                ==> (r matches Ok(s) && s@.len() == 0),
    {
        let dept_id = self.base.dept_id_of(exec.process_instance.operator.as_str());
        Ok(self.base.by_dept(dept_id.as_str(), false))
    }
}

/// The initiator's department main leaders.
pub struct ApplicantDeptMainLeaderAssignmentHandler<U: UserProvider, O: OrgUserProvider> {
    pub base: OrgAssignBase<U, O>,
}

impl<U: UserProvider, O: OrgUserProvider> AssignmentHandler for ApplicantDeptMainLeaderAssignmentHandler<U, O> {
    fn assign(&self, exec: &Execution) -> (r: JeeflowResult<String>)
        ensures
            r is Ok,
            (exec.process_instance.operator@.len() == 0 || self.base.user is None || self.base.org is None)
                ==> (r matches Ok(s) && s@.len() == 0),
    {
        let dept_id = self.base.dept_id_of(exec.process_instance.operator.as_str());
        Ok(self.base.by_dept(dept_id.as_str(), true))
    }
}

/// The current operator's department leaders.
pub struct DeptLeaderAssignmentHandler<U: UserProvider, O: OrgUserProvider> {
    pub base: OrgAssignBase<U, O>,
}

impl<U: UserProvider, O: OrgUserProvider> AssignmentHandler for DeptLeaderAssignmentHandler<U, O> {
    fn assign(&self, exec: &Execution) -> (r: JeeflowResult<String>)
        ensures
            r is Ok,
            (exec.operator@.len() == 0 || self.base.user is None || self.base.org is None) ==> (r matches Ok(s)
                && s@.len() == 0),
    {
        let dept_id = self.base.dept_id_of(exec.operator.as_str());
        Ok(self.base.by_dept(dept_id.as_str(), false))
    }
}

/// The current operator's department main leaders.
pub struct DeptMainLeaderAssignmentHandler<U: UserProvider, O: OrgUserProvider> {
    pub base: OrgAssignBase<U, O>,
}

impl<U: UserProvider, O: OrgUserProvider> AssignmentHandler for DeptMainLeaderAssignmentHandler<U, O> {
    fn assign(&self, exec: &Execution) -> (r: JeeflowResult<String>)
        ensures
            r is Ok,
            (exec.operator@.len() == 0 || self.base.user is None || self.base.org is None) ==> (r matches Ok(s)
                && s@.len() == 0),
    {
        let dept_id = self.base.dept_id_of(exec.operator.as_str());
        Ok(self.base.by_dept(dept_id.as_str(), true))
    }
}

/// The text of string variable `k`.
pub open spec fn var_text(d: FlowData, k: Seq<char>) -> Option<Seq<char>> {
    match d.lookup(k) {
        Some(JView::Str(t)) => Some(t),
        _ => None,
    }
}

/// The assignee a form field names: variable `f_<node id>` first, then `<node id>`; empty when
/// there is no current node or neither variable is text.
pub open spec fn form_field_assignee(exec: Execution) -> Seq<char> {
    match exec.current_node {
        Some(n) => match var_text(exec.args, "f_"@ + n.id@) {
            Some(t) => t,
            None => match var_text(exec.args, n.id@) {
                Some(t) => t,
                None => Seq::empty(),
            },
        },
        None => Seq::empty(),
    }
}

/// The assignee from a form field.
pub struct FormFieldAssigneeHandler;

impl AssignmentHandler for FormFieldAssigneeHandler {
    fn assign(&self, exec: &Execution) -> (r: JeeflowResult<String>)
        ensures
            r matches Ok(s) && s@ == form_field_assignee(*exec),
    {
        match &exec.current_node {
            Some(node) => {
                let mut f_key = owned("f_");
                push_str(&mut f_key, node.id.as_str());
                match exec.args.get_str(f_key.as_str()) {
                    Some(v) => Ok(owned(v)),
                    None => match exec.args.get_str(node.id.as_str()) {
                        Some(v) => Ok(owned(v)),
                        None => Ok(String::new()),
                    },
                }
            },
            None => Ok(String::new()),
        }
    }
}

/// Everyone holding the role coded by the current node's id.
pub struct TaskRoleAssigneeHandler<O: OrgUserProvider> {
    pub org: Option<O>,
}

impl<O: OrgUserProvider> AssignmentHandler for TaskRoleAssigneeHandler<O> {
    fn assign(&self, exec: &Execution) -> (r: JeeflowResult<String>)
        ensures
            r is Ok,
            (exec.current_node is None || self.org is None) ==> (r matches Ok(s) && s@.len() == 0),
    {
        match &exec.current_node {
            None => Ok(String::new()),
            Some(node) => match &self.org {
                None => Ok(String::new()),
                Some(org) => Ok(leaders_of_reply(org.find_by_role(node.id.as_str()))),
            },
        }
    }
}

// ═══════════════════════ field permissions ═══════════════════════

/// The permission recorded for `k` (the first entry with that key).
pub open spec fn perm_lookup(ps: Seq<(Seq<char>, i32)>, k: Seq<char>) -> Option<i32>
    decreases ps.len(),
{
    if ps.len() == 0 {
        None
    } else {
        match perm_lookup(ps.drop_last(), k) {
            Some(p) => Some(p),
            None => if ps.last().0 == k { Some(ps.last().1) } else { None },
        }
    }
}

/// The permission of form field `k` (`f_...`): `PERMISSION_<k>`, else `PERMISSION_<k without
/// f_>`, else editable (2).
pub open spec fn field_permission(ps: Seq<(Seq<char>, i32)>, k: Seq<char>) -> i32 {
    match perm_lookup(ps, "PERMISSION_"@ + k) {
        Some(p) => p,
        None => match perm_lookup(ps, "PERMISSION_"@ + k.skip(2)) {
            Some(p) => p,
            None => 2,
        },
    }
}

/// Does key `k` pass the filter?  Form fields that are read-only (1) or hidden (3) do not;
/// everything else does.
pub open spec fn field_passes(ps: Seq<(Seq<char>, i32)>, k: Seq<char>) -> bool {
    starts_with(k, "f_"@) ==> (field_permission(ps, k) != 1 && field_permission(ps, k) != 3)
}

pub open spec fn perm_views(ps: Seq<(String, i32)>) -> Seq<(Seq<char>, i32)> {
    ps.map_values(|p: (String, i32)| (p.0@, p.1))
}

fn find_perm(ps: &[(String, i32)], k: &str) -> (r: Option<i32>)
    ensures
        r == perm_lookup(perm_views(ps@), k@),
{
    let ghost pv = perm_views(ps@);
    let mut i: usize = 0;
    while i < ps.len()
        invariant
            0 <= i <= ps.len(),
            pv == perm_views(ps@),
            perm_lookup(pv.take(i as int), k@) is None,
        decreases ps.len() - i,
    {
        assert(pv.take(i + 1).drop_last() =~= pv.take(i as int));
        if str_eq(ps[i].0.as_str(), k) {
            proof {
                lemma_perm_lookup_prefix(pv, k@, (i + 1) as nat);
            }
            return Some(ps[i].1);
        }
        i = i + 1;
    }
    assert(pv.take(ps.len() as int) =~= pv);
    None
}

proof fn lemma_perm_lookup_prefix(ps: Seq<(Seq<char>, i32)>, k: Seq<char>, n: nat)
    requires
        n <= ps.len(),
        perm_lookup(ps.take(n as int), k) is Some,
    ensures
        perm_lookup(ps, k) == perm_lookup(ps.take(n as int), k),
    decreases ps.len() - n,
{
    if n < ps.len() {
        assert(ps.take(n + 1 as int).drop_last() =~= ps.take(n as int));
        lemma_perm_lookup_prefix(ps, k, n + 1);
    } else {
        assert(ps.take(n as int) =~= ps);
    }
}

/// The args with read-only and hidden form fields taken out; everything else passes.
pub fn filter_fields_by_permission(args: &FlowData, permissions: &[(String, i32)]) -> (r: FlowData)
    ensures
        forall|q: Seq<char>| #[trigger] r.lookup(q) == if field_passes(perm_views(permissions@), q) {
            args.lookup(q)
        } else {
            None
        },
{
    let ghost pv = perm_views(permissions@);
    let es = args.entries();
    let ghost kv = jview_entries(es@);
    proof {
        lemma_jview_entries(es@);
    }
    let mut filtered = FlowData::new();
    proof {
        assert forall|q: Seq<char>| #[trigger] filtered.lookup(q) == None::<JView> by {
            crate::json::lemma_entry_lookup_none(Seq::<(Seq<char>, JView)>::empty(), q);
        }
    }
    let mut i: usize = 0;
    while i < es.len()
        invariant
            0 <= i <= es.len(),
            pv == perm_views(permissions@),
            kv == jview_entries(es@),
            kv == args.kv(),
            kv.len() == es@.len(),
            crate::json::distinct_keys(kv),
            forall|j: int| 0 <= j < es@.len() ==> #[trigger] kv[j] == (es@[j].0@, jview(es@[j].1)),
            forall|q: Seq<char>| #[trigger] filtered.lookup(q) == if field_passes(pv, q) {
                crate::json::entry_lookup(kv.take(i as int), q)
            } else {
                None
            },
        decreases es.len() - i,
    {
        proof {
            let t0 = kv.take(i as int);
            assert(kv.take(i + 1) =~= t0.push(kv[i as int]));
            assert(crate::json::distinct_keys(t0));
            assert(forall|j: int| 0 <= j < t0.len() ==> t0[j].0 != kv[i as int].0);
            crate::json::lemma_push_lookup(t0, kv[i as int]);
        }
        let (k, v) = &es[i];
        let key = k.as_str();
        proof {
            reveal_strlit("f_");
            reveal_strlit("PERMISSION_");
        }
        let passes = if has_prefix(key, "f_") {
            let mut a = owned("PERMISSION_");
            push_str(&mut a, key);
            let cs = crate::text::chars_of(key);
            let tail = crate::text::string_of_range(&cs, 2, cs.len());
            let perm = match find_perm(permissions, a.as_str()) {
                Some(p) => p,
                None => {
                    let mut b = owned("PERMISSION_");
                    push_str(&mut b, tail.as_str());
                    match find_perm(permissions, b.as_str()) {
                        Some(p) => p,
                        None => 2,
                    }
                },
            };
            perm != 1 && perm != 3
        } else {
            true
        };
        proof {
            reveal_strlit("f_");
            reveal_strlit("PERMISSION_");
        }
        assert(passes == field_passes(pv, k@));
        if passes {
            filtered.insert(k.clone(), v.dup());
        }
        i = i + 1;
    }
    assert(kv.take(es.len() as int) =~= kv);
    filtered
}

} // verus!
