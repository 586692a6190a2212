//! Metadata registries: the engine's enum dictionaries and the handler catalogue.

use vstd::prelude::*;
use crate::model::contains_str;
use crate::text::{owned, sort_strings, sorted_text, str_eq, views};

verus! {

// ═══════════════════════ enum dictionaries ═══════════════════════

#[derive(Debug, Clone)]
pub struct DictItem {
    pub value: String,
    pub label: String,
}

pub open spec fn item_views(s: Seq<DictItem>) -> Seq<(Seq<char>, Seq<char>)> {
    s.map_values(|d: DictItem| (d.value@, d.label@))
}

/// The seven `wf_*` dictionaries, each as its `(value, label)` pairs in order.
pub open spec fn builtin_dicts() -> Seq<(Seq<char>, Seq<(Seq<char>, Seq<char>)>)> {
    seq![
        ("wf_process_define_state"@, seq![("0"@, "禁用"@), ("1"@, "启用"@)]),
        ("wf_process_instance_state"@, seq![
            ("10"@, "进行中"@),
            ("20"@, "已完成"@),
            ("30"@, "已撤回"@),
            ("40"@, "强行终止"@),
            ("45"@, "已拒绝"@),
            ("50"@, "挂起"@),
            ("99"@, "已废弃"@),
        ]),
        ("wf_process_submit_type"@, seq![
            ("0"@, "发起申请"@),
            ("1"@, "同意申请"@),
            ("2"@, "拒绝申请"@),
            ("3"@, "退回上一步"@),
            ("4"@, "跳转"@),
            ("5"@, "重新提交"@),
            ("6"@, "退回发起人"@),
            ("7"@, "转办"@),
            ("20"@, "会签拒绝"@),
        ]),
        ("wf_process_task_state"@, seq![
            ("10"@, "进行中"@),
            ("20"@, "已完成"@),
            ("30"@, "已撤回"@),
            ("40"@, "强行终止"@),
            ("50"@, "挂起"@),
            ("99"@, "已废弃"@),
        ]),
        ("wf_process_task_type"@, seq![("0"@, "主办"@), ("1"@, "协办"@), ("2"@, "记录"@)]),
        ("wf_process_task_perform_type"@, seq![("0"@, "普通参与"@), ("1"@, "会签参与"@)]),
        ("wf_countersign_type"@, seq![("0"@, "并行会签"@), ("1"@, "串行会签"@)]),
    ]
}

/// Registry of the engine's enum dictionaries.
pub struct EnumDictRegistry {
    dicts: Vec<(String, Vec<DictItem>)>,
}

fn item(value: &str, label: &str) -> (r: DictItem)
    ensures
        r.value@ == value@,
        r.label@ == label@,
{
    DictItem { value: owned(value), label: owned(label) }
}

/// The first entry with `key`, or `-1`.
pub open spec fn dict_index(d: Seq<(Seq<char>, Seq<(Seq<char>, Seq<char>)>)>, key: Seq<char>) -> int
    decreases d.len(),
{
    if d.len() == 0 {
        -1
    } else {
        let r = dict_index(d.drop_last(), key);
        if r >= 0 {
            r
        } else if d.last().0 == key {
            d.len() - 1
        } else {
            -1
        }
    }
}

impl EnumDictRegistry {
    pub closed spec fn entries(&self) -> Seq<(Seq<char>, Seq<(Seq<char>, Seq<char>)>)> {
        self.dicts@.map_values(|p: (String, Vec<DictItem>)| (p.0@, item_views(p.1@)))
    }

    /// The registry of the seven built-in dictionaries.
    pub fn new() -> (r: EnumDictRegistry)
        ensures
            r.entries() == builtin_dicts(),
    {
        let mut dicts: Vec<(String, Vec<DictItem>)> = Vec::new();
        dicts.push((owned("wf_process_define_state"), vec![item("0", "禁用"), item("1", "启用")]));
        dicts.push((owned("wf_process_instance_state"), vec![
            item("10", "进行中"),
            item("20", "已完成"),
            item("30", "已撤回"),
            item("40", "强行终止"),
            item("45", "已拒绝"),
            item("50", "挂起"),
            item("99", "已废弃"),
        ]));
        dicts.push((owned("wf_process_submit_type"), vec![
            item("0", "发起申请"),
            item("1", "同意申请"),
            item("2", "拒绝申请"),
            item("3", "退回上一步"),
            item("4", "跳转"),
            item("5", "重新提交"),
            item("6", "退回发起人"),
            item("7", "转办"),
            item("20", "会签拒绝"),
        ]));
        dicts.push((owned("wf_process_task_state"), vec![
            item("10", "进行中"),
            item("20", "已完成"),
            item("30", "已撤回"),
            item("40", "强行终止"),
            item("50", "挂起"),
            item("99", "已废弃"),
        ]));
        dicts.push((owned("wf_process_task_type"), vec![item("0", "主办"), item("1", "协办"), item("2", "记录")]));
        dicts.push((owned("wf_process_task_perform_type"), vec![item("0", "普通参与"), item("1", "会签参与")]));
        dicts.push((owned("wf_countersign_type"), vec![item("0", "并行会签"), item("1", "串行会签")]));
        let r = EnumDictRegistry { dicts };
        assert(r.entries() =~= builtin_dicts()) by {
            assert forall|i: int| 0 <= i < 7 implies r.entries()[i] == builtin_dicts()[i] by {
                assert(item_views(r.dicts@[i].1@) =~= builtin_dicts()[i].1);
            }
        }
        r
    }

    /// Every dictionary key, sorted.
    pub fn list_dict_keys(&self) -> (r: Vec<String>)
        ensures
            sorted_text(views(r@)),
            views(r@).to_multiset() == self.entries().map_values(|p: (Seq<char>, Seq<(Seq<char>, Seq<char>)>)| p.0).to_multiset(),
    {
        let mut keys: Vec<String> = Vec::new();
        let mut i: usize = 0;
        while i < self.dicts.len()
            invariant
                0 <= i <= self.dicts.len(),
                views(keys@) == self.entries().map_values(|p: (Seq<char>, Seq<(Seq<char>, Seq<char>)>)| p.0).take(i as int),
            decreases self.dicts.len() - i,
        {
            let ghost before = keys@;
            keys.push(self.dicts[i].0.clone());
            assert(views(keys@) =~= views(before).push(self.dicts@[i as int].0@));
            assert(self.entries().map_values(|p: (Seq<char>, Seq<(Seq<char>, Seq<char>)>)| p.0).take(i + 1)
                =~= self.entries().map_values(|p: (Seq<char>, Seq<(Seq<char>, Seq<char>)>)| p.0).take(i as int).push(self.dicts@[i as int].0@));
            i = i + 1;
        }
        assert(self.entries().map_values(|p: (Seq<char>, Seq<(Seq<char>, Seq<char>)>)| p.0).take(self.dicts.len() as int)
            =~= self.entries().map_values(|p: (Seq<char>, Seq<(Seq<char>, Seq<char>)>)| p.0));
        sort_strings(keys.as_slice())
    }

    /// The items of dictionary `key`.
    pub fn get_dict(&self, key: &str) -> (r: Option<&Vec<DictItem>>)
        ensures
            match r {
                Some(items) => dict_index(self.entries(), key@) >= 0
                    && item_views(items@) == self.entries()[dict_index(self.entries(), key@)].1,
                None => dict_index(self.entries(), key@) == -1,
            },
    {
        let mut i: usize = 0;
        while i < self.dicts.len()
            invariant
                0 <= i <= self.dicts.len(),
                dict_index(self.entries().take(i as int), key@) == -1,
            decreases self.dicts.len() - i,
        {
            assert(self.entries().take(i + 1).drop_last() =~= self.entries().take(i as int));
            if str_eq(self.dicts[i].0.as_str(), key) {
                proof {
                    lemma_dict_index_prefix(self.entries(), key@, (i + 1) as nat);
                }
                return Some(&self.dicts[i].1);
            }
            i = i + 1;
        }
        assert(self.entries().take(self.dicts.len() as int) =~= self.entries());
        None
    }
}

proof fn lemma_dict_index_prefix(d: Seq<(Seq<char>, Seq<(Seq<char>, Seq<char>)>)>, key: Seq<char>, n: nat)
    requires
        n <= d.len(),
        dict_index(d.take(n as int), key) >= 0,
    ensures
        dict_index(d, key) == dict_index(d.take(n as int), key),
    decreases d.len() - n,
{
    if n < d.len() {
        assert(d.take(n + 1 as int).drop_last() =~= d.take(n as int));
        lemma_dict_index_prefix(d, key, n + 1);
    } else {
        assert(d.take(n as int) =~= d);
    }
}

// ═══════════════════════ handler catalogue ═══════════════════════

#[derive(Debug, Clone)]
pub struct HandlerMeta {
    /// Kind of handler, such as `AssignmentHandler`.
    pub handler_type: String,
    /// Registration name of the implementation.
    pub class_name: String,
    pub display_name: String,
    pub order: i32,
    pub group: String,
}

pub struct HandlerMetaView {
    pub handler_type: Seq<char>,
    pub class_name: Seq<char>,
    pub display_name: Seq<char>,
    pub order: i32,
    pub group: Seq<char>,
}

impl View for HandlerMeta {
    type V = HandlerMetaView;

    open spec fn view(&self) -> HandlerMetaView {
        HandlerMetaView {
            handler_type: self.handler_type@,
            class_name: self.class_name@,
            display_name: self.display_name@,
            order: self.order,
            group: self.group@,
        }
    }
}

pub open spec fn meta(handler_type: Seq<char>, class_name: Seq<char>, display_name: Seq<char>, order: i32) -> HandlerMetaView {
    HandlerMetaView { handler_type, class_name, display_name, order, group: "built-in"@ }
}

/// The built-in handlers: seven assignment handlers and the default permission provider.
pub open spec fn builtin_handlers() -> Seq<HandlerMetaView> {
    let ah = "AssignmentHandler"@;
    seq![
        meta(ah, "com.mldong.jeeflow.interceptor.impl.OperatorAssignmentHandler"@, "流程发起人"@, -9999i32),
        meta(ah, "com.mldong.jeeflow.interceptor.impl.OrgUserAssignmentHandlers$ApplicantDeptLeaderAssignmentHandler"@, "发起人所属部门经理"@, 10i32),
        meta(ah, "com.mldong.jeeflow.interceptor.impl.OrgUserAssignmentHandlers$ApplicantDeptMainLeaderAssignmentHandler"@, "发起人所属部门分管领导"@, 20),
        meta(ah, "com.mldong.jeeflow.interceptor.impl.OrgUserAssignmentHandlers$DeptLeaderAssignmentHandler"@, "当前用户所属部门经理"@, 30),
        meta(ah, "com.mldong.jeeflow.interceptor.impl.OrgUserAssignmentHandlers$DeptMainLeaderAssignmentHandler"@, "当前用户所属部门分管领导"@, 40),
        meta(ah, "com.mldong.jeeflow.interceptor.impl.FormFieldAssigneeHandler"@, "根据表单字段值分配参与者"@, 50),
        meta(ah, "com.mldong.jeeflow.interceptor.impl.OrgUserAssignmentHandlers$TaskRoleAssigneeHandler"@, "根据任务节点唯一编码关联角色分配参与者"@, 60),
        meta("ActionPermissionProvider"@, "com.mldong.jeeflow.spi.impl.DefaultActionPermissionProvider"@, "默认权限码提供者"@, 0),
    ]
}

pub open spec fn meta_views(s: Seq<HandlerMeta>) -> Seq<HandlerMetaView> {
    s.map_values(|h: HandlerMeta| h@)
}

pub open spec fn meta_ref_views(s: Seq<&HandlerMeta>) -> Seq<HandlerMetaView> {
    s.map_values(|h: &HandlerMeta| h@)
}

/// Where a stable sort by `order` puts an element of order `k` into the sorted `s`: after every
/// element whose order is at most `k`.
pub open spec fn insert_pos(s: Seq<HandlerMetaView>, k: i32) -> int
    decreases s.len(),
{
    if s.len() == 0 {
        0
    } else if s.last().order <= k {
        s.len() as int
    } else {
        insert_pos(s.drop_last(), k)
    }
}

/// `s` stably sorted by `order` (what `sort_by_key(|h| h.order)` gives).
pub open spec fn sorted_by_order(s: Seq<HandlerMetaView>) -> Seq<HandlerMetaView>
    decreases s.len(),
{
    if s.len() == 0 {
        Seq::empty()
    } else {
        let t = sorted_by_order(s.drop_last());
        t.insert(insert_pos(t, s.last().order), s.last())
    }
}

/// The handlers of `handler_type` (and of `group`, when given), in registration order.
pub open spec fn handlers_of(s: Seq<HandlerMetaView>, handler_type: Seq<char>, group: Option<Seq<char>>) -> Seq<HandlerMetaView>
    decreases s.len(),
{
    if s.len() == 0 {
        Seq::empty()
    } else {
        let prev = handlers_of(s.drop_last(), handler_type, group);
        let h = s.last();
        if h.handler_type == handler_type && match group {
            Some(g) => h.group == g,
            None => true,
        } {
            prev.push(h)
        } else {
            prev
        }
    }
}

/// Registry of handler metadata.
pub struct HandlerRegistry {
    handlers: Vec<HandlerMeta>,
}

fn built_in(handler_type: &str, class_name: &str, display_name: &str, order: i32) -> (r: HandlerMeta)
    ensures
        r@ == meta(handler_type@, class_name@, display_name@, order),
{
    HandlerMeta {
        handler_type: owned(handler_type),
        class_name: owned(class_name),
        display_name: owned(display_name),
        order,
        group: owned("built-in"),
    }
}

impl HandlerMeta {
    pub fn dup(&self) -> (r: HandlerMeta)
        ensures
            r@ == self@,
    {
        HandlerMeta {
            handler_type: self.handler_type.clone(),
            class_name: self.class_name.clone(),
            display_name: self.display_name.clone(),
            order: self.order,
            group: self.group.clone(),
        }
    }
}

impl HandlerRegistry {
    pub closed spec fn metas(&self) -> Seq<HandlerMetaView> {
        meta_views(self.handlers@)
    }

    /// The registry with the built-in handlers.
    pub fn new() -> (r: HandlerRegistry)
        ensures
            r.metas() == builtin_handlers(),
    {
        let mut reg = HandlerRegistry { handlers: Vec::new() };
        reg.register_built_in();
        reg
    }

    fn register_built_in(&mut self)
        ensures
            final(self).metas() == old(self).metas() + builtin_handlers(),
    {
        let ghost start = self.handlers@;
        let ah = "AssignmentHandler";
        self.handlers.push(built_in(ah, "com.mldong.jeeflow.interceptor.impl.OperatorAssignmentHandler", "流程发起人", -9999));
        self.handlers.push(built_in(
            ah,
            "com.mldong.jeeflow.interceptor.impl.OrgUserAssignmentHandlers$ApplicantDeptLeaderAssignmentHandler",
            "发起人所属部门经理",
            10,
        ));
        self.handlers.push(built_in(
            ah,
            "com.mldong.jeeflow.interceptor.impl.OrgUserAssignmentHandlers$ApplicantDeptMainLeaderAssignmentHandler",
            "发起人所属部门分管领导",
            20,
        ));
        self.handlers.push(built_in(
            ah,
            "com.mldong.jeeflow.interceptor.impl.OrgUserAssignmentHandlers$DeptLeaderAssignmentHandler",
            "当前用户所属部门经理",
            30,
        ));
        self.handlers.push(built_in(
            ah,
            "com.mldong.jeeflow.interceptor.impl.OrgUserAssignmentHandlers$DeptMainLeaderAssignmentHandler",
            "当前用户所属部门分管领导",
            40,
        ));
        self.handlers.push(built_in(ah, "com.mldong.jeeflow.interceptor.impl.FormFieldAssigneeHandler", "根据表单字段值分配参与者", 50));
        self.handlers.push(built_in(
            ah,
            "com.mldong.jeeflow.interceptor.impl.OrgUserAssignmentHandlers$TaskRoleAssigneeHandler",
            "根据任务节点唯一编码关联角色分配参与者",
            60,
        ));
        self.handlers.push(built_in(
            "ActionPermissionProvider",
            "com.mldong.jeeflow.spi.impl.DefaultActionPermissionProvider",
            "默认权限码提供者",
            0,
        ));
        assert(meta_views(self.handlers@) =~= meta_views(start) + builtin_handlers()) by {
            assert forall|i: int| 0 <= i < 8 implies meta_views(self.handlers@)[start.len() + i] == builtin_handlers()[i] by {}
        }
    }

    /// Add one handler at the end.
    pub fn register(&mut self, meta: HandlerMeta)
        ensures
            final(self).metas() == old(self).metas().push(meta@),
    {
        let ghost before = self.handlers@;
        self.handlers.push(meta);
        assert(meta_views(self.handlers@) =~= meta_views(before).push(meta@));
    }

    /// Add handlers at the end, in order.
    pub fn register_all(&mut self, metas: Vec<HandlerMeta>)
        ensures
            final(self).metas() == old(self).metas() + meta_views(metas@),
    {
        let mut i: usize = 0;
        while i < metas.len()
            invariant
                0 <= i <= metas.len(),
                self.metas() == old(self).metas() + meta_views(metas@).take(i as int),
            decreases metas.len() - i,
        {
            let ghost before = self.handlers@;
            self.handlers.push(metas[i].dup());
            assert(meta_views(self.handlers@) =~= meta_views(before).push(metas@[i as int]@));
            assert(meta_views(metas@).take(i + 1) =~= meta_views(metas@).take(i as int).push(metas@[i as int]@));
            i = i + 1;
        }
        assert(meta_views(metas@).take(metas.len() as int) =~= meta_views(metas@));
    }

    fn select(&self, handler_type: &str, group: Option<&str>) -> (r: Vec<&HandlerMeta>)
        ensures
            meta_ref_views(r@) == sorted_by_order(handlers_of(
                self.metas(),
                handler_type@,
                match group {
                    Some(g) => Some(g@),
                    None => None,
                },
            )),
    {
        let ghost g = match group {
            Some(g) => Some(g@),
            None => None::<Seq<char>>,
        };
        let mut out: Vec<&HandlerMeta> = Vec::new();
        let mut i: usize = 0;
        while i < self.handlers.len()
            invariant
                0 <= i <= self.handlers.len(),
                g == match group {
                    Some(g) => Some(g@),
                    None => None::<Seq<char>>,
                },
                meta_ref_views(out@) == sorted_by_order(handlers_of(self.metas().take(i as int), handler_type@, g)),
            decreases self.handlers.len() - i,
        {
            let h = &self.handlers[i];
            assert(self.metas().take(i + 1).drop_last() =~= self.metas().take(i as int));
            assert(self.metas().take(i + 1).last() == h@);
            let keep = str_eq(h.handler_type.as_str(), handler_type) && match group {
                Some(gr) => str_eq(h.group.as_str(), gr),
                None => true,
            };
            if keep {
                let mut p: usize = out.len();
                let ghost cur = meta_ref_views(out@);
                assert(cur.take(p as int) =~= cur);
                while p > 0 && out[p - 1].order > h.order
                    invariant
                        0 <= p <= out.len(),
                        cur == meta_ref_views(out@),
                        insert_pos(cur, h.order) == insert_pos(cur.take(p as int), h.order),
                    decreases p,
                {
                    assert(cur.take(p as int).last() == out@[p - 1]@);
                    assert(cur.take(p as int).drop_last() =~= cur.take(p - 1));
                    p = p - 1;
                }
                proof {
                    if p > 0 {
                        assert(cur.take(p as int).last() == out@[p - 1]@);
                    }
                    assert(insert_pos(cur.take(p as int), h.order) == p);
                }
                out.insert(p, h);
                assert(meta_ref_views(out@) =~= cur.insert(p as int, h@));
                let ghost prev = handlers_of(self.metas().take(i as int), handler_type@, g);
                assert(handlers_of(self.metas().take(i + 1), handler_type@, g) == prev.push(h@));
                assert(prev.push(h@).drop_last() =~= prev);
            }
            i = i + 1;
        }
        assert(self.metas().take(self.handlers.len() as int) =~= self.metas());
        out
    }

    /// The handlers of a type, stably sorted by `order`.
    pub fn list_handlers(&self, handler_type: &str) -> (r: Vec<&HandlerMeta>)
        ensures
            meta_ref_views(r@) == sorted_by_order(handlers_of(self.metas(), handler_type@, None)),
    {
        self.select(handler_type, None)
    }

    /// The handlers of a type and group, stably sorted by `order`.
    pub fn list_handlers_group(&self, handler_type: &str, group: &str) -> (r: Vec<&HandlerMeta>)
        ensures
            meta_ref_views(r@) == sorted_by_order(handlers_of(self.metas(), handler_type@, Some(group@))),
    {
        self.select(handler_type, Some(group))
    }

    /// Every handler type, once each, sorted.
    pub fn list_handler_types(&self) -> (r: Vec<String>)
        ensures
            sorted_text(views(r@)),
            views(r@).no_duplicates(),
            views(r@).to_set() == self.metas().map_values(|h: HandlerMetaView| h.handler_type).to_set(),
    {
        let ghost types = self.metas().map_values(|h: HandlerMetaView| h.handler_type);
        let mut distinct: Vec<String> = Vec::new();
        let mut i: usize = 0;
        while i < self.handlers.len()
            invariant
                0 <= i <= self.handlers.len(),
                types == self.metas().map_values(|h: HandlerMetaView| h.handler_type),
                views(distinct@).no_duplicates(),
                views(distinct@).to_set() == types.take(i as int).to_set(),
            decreases self.handlers.len() - i,
        {
            let t = self.handlers[i].handler_type.as_str();
            assert(types[i as int] == t@);
            assert(types.take(i + 1) =~= types.take(i as int).push(t@));
            proof {
                types.take(i as int).lemma_push_to_set_commute(t@);
            }
            if !contains_str(distinct.as_slice(), t) {
                let ghost before = views(distinct@);
                distinct.push(owned(t));
                assert(views(distinct@) =~= before.push(t@));
                proof {
                    before.lemma_push_to_set_commute(t@);
                }
                assert(views(distinct@).to_set() =~= types.take(i + 1).to_set());
            } else {
                assert(views(distinct@).to_set().contains(t@));
                assert(views(distinct@).to_set() =~= types.take(i + 1).to_set());
            }
            i = i + 1;
        }
        assert(types.take(self.handlers.len() as int) =~= types);
        let r = sort_strings(distinct.as_slice());
        proof {
            assert(views(r@).to_multiset() == views(distinct@).to_multiset());
            views(distinct@).lemma_multiset_has_no_duplicates();
            views(r@).lemma_multiset_has_no_duplicates_conv();
            assert forall|x: Seq<char>| views(r@).to_set().contains(x) <==> views(distinct@).to_set().contains(x) by {
                broadcast use vstd::seq_lib::group_to_multiset_ensures;
                assert(views(r@).contains(x) <==> views(r@).to_multiset().count(x) > 0);
                assert(views(distinct@).contains(x) <==> views(distinct@).to_multiset().count(x) > 0);
            }
            assert(views(r@).to_set() =~= views(distinct@).to_set());
        }
        r
    }

    /// Every registered handler, in registration order.
    pub fn all_handlers(&self) -> (r: &[HandlerMeta])
        ensures
            meta_views(r@) == self.metas(),
    {
        self.handlers.as_slice()
    }
}

/// The stable sort by order gives a list sorted by order holding the same handlers.
pub proof fn law_sorted_by_order(s: Seq<HandlerMetaView>)
    ensures
        sorted_by_order(s).len() == s.len(),
        forall|i: int, j: int| 0 <= i < j < s.len() ==> #[trigger] sorted_by_order(s)[i].order <= #[trigger] sorted_by_order(s)[j].order,
        sorted_by_order(s).to_multiset() == s.to_multiset(),
    decreases s.len(),
{
    broadcast use vstd::seq_lib::group_to_multiset_ensures;
    if s.len() > 0 {
        law_sorted_by_order(s.drop_last());
        let t = sorted_by_order(s.drop_last());
        let x = s.last();
        let p = insert_pos(t, x.order);
        lemma_insert_pos(t, x.order);
        let u = t.insert(p, x);
        assert forall|i: int, j: int| 0 <= i < j < u.len() implies #[trigger] u[i].order <= #[trigger] u[j].order by {
            if j < p {
                assert(u[i] == t[i] && u[j] == t[j]);
            } else if j == p {
                assert(u[i] == t[i]);
            } else if i == p {
                assert(u[j] == t[j - 1]);
            } else if i < p {
                assert(u[i] == t[i] && u[j] == t[j - 1]);
            } else {
                assert(u[i] == t[i - 1] && u[j] == t[j - 1]);
            }
        }
        vstd::seq_lib::to_multiset_insert(t, p, x);
        assert(s =~= s.drop_last().push(x));
        vstd::seq_lib::to_multiset_build(s.drop_last(), x);
    }
}

proof fn lemma_insert_pos(t: Seq<HandlerMetaView>, k: i32)
    requires
        forall|i: int, j: int| 0 <= i < j < t.len() ==> #[trigger] t[i].order <= #[trigger] t[j].order,
    ensures
        0 <= insert_pos(t, k) <= t.len(),
        forall|i: int| 0 <= i < insert_pos(t, k) ==> #[trigger] t[i].order <= k,
        forall|i: int| insert_pos(t, k) <= i < t.len() ==> #[trigger] t[i].order > k,
    decreases t.len(),
{
    if t.len() > 0 {
        if t.last().order <= k {
            assert forall|i: int| 0 <= i < t.len() implies #[trigger] t[i].order <= k by {
                if i < t.len() - 1 {
                    assert(t[i].order <= t[t.len() - 1].order);
                }
            }
        } else {
            let d = t.drop_last();
            assert forall|i: int, j: int| 0 <= i < j < d.len() implies #[trigger] d[i].order <= #[trigger] d[j].order by {
                assert(d[i] == t[i] && d[j] == t[j]);
            }
            lemma_insert_pos(d, k);
            assert forall|i: int| 0 <= i < insert_pos(t, k) implies #[trigger] t[i].order <= k by {
                assert(d[i] == t[i]);
            }
            assert forall|i: int| insert_pos(t, k) <= i < t.len() implies #[trigger] t[i].order > k by {
                if i < t.len() - 1 {
                    assert(d[i] == t[i]);
                }
            }
        }
    }
}

} // verus!
