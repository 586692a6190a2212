//! The services an engine works with: its store, id generator, providers, handlers,
//! interceptors and listeners. Built once and handed to the engine.

use vstd::prelude::*;
use crate::event::ProcessEventListener;
use crate::spi::{
    ActionPermissionProvider, AssignmentHandler, DecisionHandler, ExpressionEvaluator, FlowInterceptor,
    BizDataReader, IdGenerator, OrgUserProvider, ProcessExtRepository, ProcessRepository, UserProvider,
    UserSearchProvider,
};
use crate::parser::{first_where, lemma_first_where};
use crate::text::{owned, str_eq};

verus! {

/// The services an engine works with.
pub struct ServiceContext<R, G> {
    /// The store of defines, instances and tasks.
    pub repository: R,
    /// Whether the store also answers the extension queries (designs, surrogates).
    pub ext_repository: bool,
    pub id_generator: G,
    pub user_provider: Option<Box<dyn UserProvider>>,
    pub org_user_provider: Option<Box<dyn OrgUserProvider>>,
    pub user_search_provider: Option<Box<dyn UserSearchProvider>>,
    /// Reads business rows for `processInstance/bizData`.
    pub biz_data_reader: Option<Box<dyn BizDataReader>>,
    pub expression_evaluator: Option<Box<dyn ExpressionEvaluator>>,
    pub action_permission_provider: Option<Box<dyn ActionPermissionProvider>>,
    /// Assignment handlers by registration name (one per name).
    pub assignment_handlers: Vec<(String, Box<dyn AssignmentHandler>)>,
    /// Decision handlers by name (one per name).
    pub decision_handlers: Vec<(String, Box<dyn DecisionHandler>)>,
    /// Interceptors, in ascending order of their `order` at registration.
    pub interceptors: Vec<Box<dyn FlowInterceptor>>,
    /// Interceptor orders, as read at registration (same positions as `interceptors`).
    pub interceptor_orders: Vec<i32>,
    pub event_listeners: Vec<Box<dyn ProcessEventListener>>,
    /// Whether active surrogates are added to new tasks' actors (on unless switched off).
    pub surrogate_auto_apply: bool,
}

/// The names handlers are registered under, in order.
pub open spec fn handler_names<T>(hs: Seq<(String, T)>) -> Seq<Seq<char>> {
    hs.map_values(|p: (String, T)| p.0@)
}

pub open spec fn name_is(n: Seq<char>) -> spec_fn(Seq<char>) -> bool {
    |x: Seq<char>| x == n
}

/// Where the handler registered under `n` sits (`-1` when none is).
pub open spec fn slot_of<T>(hs: Seq<(String, T)>, n: Seq<char>) -> int {
    first_where(handler_names(hs), name_is(n))
}

/// A registration of `h` under `n`: it takes the place of the handler registered under `n`,
/// or, without one, joins the end; every other registration stays.
pub open spec fn registered<T>(old_hs: Seq<(String, T)>, new_hs: Seq<(String, T)>, n: Seq<char>, h: T) -> bool {
    &&& registered_names(old_hs, new_hs, n)
    &&& new_hs[slot_of(new_hs, n)].1 == h
}

/// The places of a registration under `n`, whatever handler it registers.
pub open spec fn registered_names<T>(old_hs: Seq<(String, T)>, new_hs: Seq<(String, T)>, n: Seq<char>) -> bool {
    let i = slot_of(old_hs, n);
    if i >= 0 {
        &&& new_hs.len() == old_hs.len()
        &&& new_hs[i].0@ == n
        &&& slot_of(new_hs, n) == i
        &&& forall|j: int| 0 <= j < old_hs.len() && j != i ==> new_hs[j] == old_hs[j]
    } else {
        &&& new_hs.len() == old_hs.len() + 1
        &&& new_hs.last().0@ == n
        &&& slot_of(new_hs, n) == old_hs.len()
        &&& forall|j: int| 0 <= j < old_hs.len() ==> new_hs[j] == old_hs[j]
    }
}

/// Register `h` under `n` in a list of named handlers (see `registered`).
fn register_named<T>(hs: &mut Vec<(String, T)>, name: &str, h: T)
    ensures
        registered(old(hs)@, final(hs)@, name@, h),
{
    let ghost before = hs@;
    proof {
        lemma_first_where(handler_names(before), name_is(name@));
    }
    let mut i: usize = 0;
    while i < hs.len()
        invariant
            hs@ == before,
            before == old(hs)@,
            0 <= i <= hs.len(),
            forall|j: int| 0 <= j < i ==> hs@[j].0@ != name@,
        decreases hs.len() - i,
    {
        if str_eq(hs[i].0.as_str(), name) {
            proof {
                assert forall|j: int| 0 <= j < i implies !name_is(name@)(#[trigger] handler_names(before)[j]) by {}
                crate::parser::lemma_first_where_unique(handler_names(before), name_is(name@), i as int);
            }
            let key = hs[i].0.clone();
            assert(key@ == name@);
            assert(slot_of(before, name@) == i as int);
            hs.set(i, (key, h));
            assert(hs@[i as int].0@ == name@);
            assert(handler_names(hs@) =~= handler_names(before));
            return;
        }
        i = i + 1;
    }
    proof {
        if slot_of(before, name@) >= 0 {
            let k = slot_of(before, name@);
            assert(handler_names(before)[k] == before[k].0@);
        }
    }
    hs.push((owned(name), h));
    proof {
        assert(handler_names(hs@) =~= handler_names(before).push(name@));
        assert forall|j: int| 0 <= j < before.len() implies !name_is(name@)(#[trigger] handler_names(hs@)[j]) by {
            assert(handler_names(hs@)[j] == before[j].0@);
        }
        crate::parser::lemma_first_where_unique(handler_names(hs@), name_is(name@), before.len() as int);
    }
}

/// A registration keeps every name registered before, and registers its own.
pub proof fn lemma_registered_names<T>(old_hs: Seq<(String, T)>, new_hs: Seq<(String, T)>, n: Seq<char>, a: Seq<char>)
    requires
        registered_names(old_hs, new_hs, n),
    ensures
        slot_of(new_hs, n) >= 0,
        slot_of(old_hs, a) >= 0 ==> slot_of(new_hs, a) >= 0,
{
    lemma_first_where(handler_names(old_hs), name_is(n));
    lemma_first_where(handler_names(old_hs), name_is(a));
    lemma_first_where(handler_names(new_hs), name_is(n));
    lemma_first_where(handler_names(new_hs), name_is(a));
    let i = slot_of(old_hs, n);
    let w = if i >= 0 { i } else { old_hs.len() as int };
    assert(handler_names(new_hs)[w] == n);
    if slot_of(old_hs, a) >= 0 {
        let j = slot_of(old_hs, a);
        assert(handler_names(old_hs)[j] == a);
        if a == n {
            assert(handler_names(new_hs)[w] == a);
        } else {
            if i >= 0 {
                assert(j != i);
            }
            assert(new_hs[j] == old_hs[j]);
            assert(handler_names(new_hs)[j] == a);
        }
    }
}

pub open spec fn sorted_orders(v: Seq<i32>) -> bool {
    forall|i: int, j: int| 0 <= i <= j < v.len() ==> v[i] <= v[j]
}

impl<R: ProcessRepository + ProcessExtRepository, G: IdGenerator> ServiceContext<R, G> {
    /// A context over a store and an id generator, with nothing else registered and the
    /// surrogate switch on.
    pub fn new(repository: R, id_generator: G) -> (r: Self)
        ensures
            r.repository == repository,
            r.id_generator == id_generator,
            !r.ext_repository,
            r.user_provider is None,
            r.org_user_provider is None,
            r.user_search_provider is None,
            r.biz_data_reader is None,
            r.expression_evaluator is None,
            r.action_permission_provider is None,
            r.interceptor_orders@.len() == 0,
            r.surrogate_auto_apply,
    {
        ServiceContext {
            repository,
            ext_repository: false,
            id_generator,
            user_provider: None,
            org_user_provider: None,
            user_search_provider: None,
            biz_data_reader: None,
            expression_evaluator: None,
            action_permission_provider: None,
            assignment_handlers: Vec::new(),
            decision_handlers: Vec::new(),
            interceptors: Vec::new(),
            interceptor_orders: Vec::new(),
            event_listeners: Vec::new(),
            surrogate_auto_apply: true,
        }
    }

    /// Let the store answer the extension queries too.
    pub fn with_ext_repository(self) -> (r: Self)
        ensures
            r == (ServiceContext { ext_repository: true, ..self }),
    {
        ServiceContext { ext_repository: true, ..self }
    }

    /// Switch the automatic surrogate application on or off.
    pub fn with_surrogate_auto_apply(self, on: bool) -> (r: Self)
        ensures
            r == (ServiceContext { surrogate_auto_apply: on, ..self }),
    {
        ServiceContext { surrogate_auto_apply: on, ..self }
    }

    pub fn with_user_provider(self, up: Box<dyn UserProvider>) -> (r: Self)
        ensures
            r == (ServiceContext { user_provider: Some(up), ..self }),
    {
        ServiceContext { user_provider: Some(up), ..self }
    }

    pub fn with_org_user_provider(self, oup: Box<dyn OrgUserProvider>) -> (r: Self)
        ensures
            r == (ServiceContext { org_user_provider: Some(oup), ..self }),
    {
        ServiceContext { org_user_provider: Some(oup), ..self }
    }

    pub fn with_user_search_provider(self, usp: Box<dyn UserSearchProvider>) -> (r: Self)
        ensures
            r == (ServiceContext { user_search_provider: Some(usp), ..self }),
    {
        ServiceContext { user_search_provider: Some(usp), ..self }
    }

    pub fn with_biz_data_reader(self, reader: Box<dyn BizDataReader>) -> (r: Self)
        ensures
            r == (ServiceContext { biz_data_reader: Some(reader), ..self }),
    {
        ServiceContext { biz_data_reader: Some(reader), ..self }
    }

    pub fn with_expression_evaluator(self, eval: Box<dyn ExpressionEvaluator>) -> (r: Self)
        ensures
            r == (ServiceContext { expression_evaluator: Some(eval), ..self }),
    {
        ServiceContext { expression_evaluator: Some(eval), ..self }
    }

    pub fn with_action_permission_provider(self, app: Box<dyn ActionPermissionProvider>) -> (r: Self)
        ensures
            r == (ServiceContext { action_permission_provider: Some(app), ..self }),
    {
        ServiceContext { action_permission_provider: Some(app), ..self }
    }

    /// Register an assignment handler under `name`, replacing one registered under it before.
    pub fn register_assignment_handler(&mut self, name: &str, handler: Box<dyn AssignmentHandler>)
        ensures
            registered(old(self).assignment_handlers@, final(self).assignment_handlers@, name@, handler),
            registered_names(old(self).assignment_handlers@, final(self).assignment_handlers@, name@),
            *final(self) == (ServiceContext { assignment_handlers: final(self).assignment_handlers, ..*old(self) }),
    {
        register_named(&mut self.assignment_handlers, name, handler);
    }

    /// Register a decision handler under `name`, replacing one registered under it before.
    pub fn register_decision_handler(&mut self, name: &str, handler: Box<dyn DecisionHandler>)
        ensures
            registered(old(self).decision_handlers@, final(self).decision_handlers@, name@, handler),
            *final(self) == (ServiceContext { decision_handlers: final(self).decision_handlers, ..*old(self) }),
    {
        register_named(&mut self.decision_handlers, name, handler);
    }

    /// Register an interceptor after every one whose order is not greater than its own (so the
    /// list stays sorted by order, ties in registration order).
    pub fn register_interceptor(&mut self, interceptor: Box<dyn FlowInterceptor>)
        requires
            sorted_orders(old(self).interceptor_orders@),
        ensures
            sorted_orders(final(self).interceptor_orders@),
            exists|k: int, o: i32| 0 <= k <= old(self).interceptor_orders@.len()
                && #[trigger] final(self).interceptor_orders@ == old(self).interceptor_orders@.insert(k, o)
                && (forall|j: int| 0 <= j < k ==> old(self).interceptor_orders@[j] <= o)
                && (forall|j: int| k <= j < old(self).interceptor_orders@.len() ==> o < old(self).interceptor_orders@[j]),
    {
        let o = interceptor.order();
        let n = self.interceptor_orders.len();
        let mut k: usize = 0;
        while k < n && self.interceptor_orders[k] <= o
            invariant
                k <= n,
                n == self.interceptor_orders.len(),
                forall|j: int| 0 <= j < k ==> self.interceptor_orders@[j] <= o,
            decreases n - k,
        {
            k = k + 1;
        }
        proof {
            assert forall|j: int| k <= j < n implies o < self.interceptor_orders@[j] by {
                assert(self.interceptor_orders@[k as int] > o);
                assert(self.interceptor_orders@[k as int] <= self.interceptor_orders@[j]);
            }
        }
        let ghost before = self.interceptor_orders@;
        if k <= self.interceptors.len() {
            self.interceptors.insert(k, interceptor);
        } else {
            self.interceptors.push(interceptor);
        }
        self.interceptor_orders.insert(k, o);
        assert(self.interceptor_orders@ == before.insert(k as int, o));
        proof {
            let a = self.interceptor_orders@;
            assert forall|i: int, j: int| 0 <= i <= j < a.len() implies a[i] <= a[j] by {
                if i < k && j < k {
                    assert(a[i] == before[i] && a[j] == before[j]);
                } else if i < k && j == k {
                    assert(a[i] == before[i]);
                } else if i < k {
                    assert(a[i] == before[i] && a[j] == before[j - 1]);
                } else if i == k && j > k {
                    assert(a[j] == before[j - 1]);
                } else if i > k {
                    assert(a[i] == before[i - 1] && a[j] == before[j - 1]);
                }
            }
        }
    }

    pub fn register_event_listener(&mut self, listener: Box<dyn ProcessEventListener>) {
        self.event_listeners.push(listener);
    }

    /// The assignment handler registered under `name`.
    pub fn find_assignment_handler(&self, name: &str) -> (r: Option<&Box<dyn AssignmentHandler>>)
        ensures
            ({
                let k = slot_of(self.assignment_handlers@, name@);
                &&& r is Some <==> k >= 0
                &&& r matches Some(h) ==> *h == self.assignment_handlers@[k].1
            }),
    {
        let ghost hs = self.assignment_handlers@;
        proof {
            lemma_first_where(handler_names(hs), name_is(name@));
        }
        let mut i: usize = 0;
        while i < self.assignment_handlers.len()
            invariant
                hs == self.assignment_handlers@,
                0 <= i <= hs.len(),
                forall|j: int| 0 <= j < i ==> hs[j].0@ != name@,
            decreases self.assignment_handlers.len() - i,
        {
            if str_eq(self.assignment_handlers[i].0.as_str(), name) {
                proof {
                    assert forall|j: int| 0 <= j < i implies !name_is(name@)(#[trigger] handler_names(hs)[j]) by {}
                    crate::parser::lemma_first_where_unique(handler_names(hs), name_is(name@), i as int);
                }
                return Some(&self.assignment_handlers[i].1);
            }
            i = i + 1;
        }
        proof {
            if slot_of(hs, name@) >= 0 {
                let k = slot_of(hs, name@);
                assert(handler_names(hs)[k] == hs[k].0@);
            }
        }
        None
    }

    pub fn get_repository(&self) -> (r: &R)
        ensures
            *r == self.repository,
    {
        &self.repository
    }
}

} // verus!
