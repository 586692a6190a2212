//! The facade: one entry point that dispatches the named actions of the process, task, design
//! and surrogate screens to the engine and the stores, and answers in the response envelope.

use vstd::prelude::*;
use crate::actions::{
    arg_actor_ids, arg_i64, arg_i64_or, arg_id, arg_ids, arg_str, arg_str_or, enabled_define_by_name,
    filter_rows, latest_define_index, next_define_version, re_paginate,
};
use crate::context::ServiceContext;
use crate::error::{error_message, JeeflowError, JeeflowResult};
use crate::executor::JeeflowEngineImpl;
use crate::facade::parse_m_params;
use crate::json::{jview, FlowData, JsonValue, JView};
use crate::model::{DefineRow, PageQuery, PageResult, ProcessDefine, QueryFilter};
use crate::parser::ModelParser;
use crate::spi::{IdGenerator, ProcessExtRepository, ProcessRepository};
use crate::text::{owned, str_eq};
use crate::vo::{
    define_row_to_json, error_response, kv, num, opt_i32, opt_text, page_to_json, parse_graph,
    stringify_ids, success_response, to_camel_json,
};

verus! {

/// A business error with `msg`.
fn biz(msg: &str) -> (r: JeeflowError)
    ensures
        r matches JeeflowError::Business(m) && m@ == msg@,
{
    JeeflowError::Business(owned(msg))
}

/// The error for page arguments whose arithmetic leaves the integer range.
fn out_of_range() -> (r: JeeflowError)
    ensures
        r matches JeeflowError::Business(m) && m@ == out_of_range_msg(),
{
    biz("分页参数越界")
}

/// The id under `key`, or the error `msg` when it is not given.
fn need_id1(args: &FlowData, key: &str, msg: &str) -> (r: JeeflowResult<i64>)
    ensures
        match crate::actions::arg_id_spec(*args, seq![key@]) {
            Ok(Some(n)) => r == Ok::<i64, JeeflowError>(n),
            Ok(None) => r matches Err(JeeflowError::Business(m)) && m@ == msg@,
            Err(m) => r matches Err(JeeflowError::Business(x)) && x@ == m,
        },
{
    assert(seq![key@].drop_first() =~= Seq::<Seq<char>>::empty());
    assert(crate::actions::arg_id_spec(*args, Seq::<Seq<char>>::empty()) == Ok::<Option<i64>, Seq<char>>(None));
    assert(seq![key@][0] == key@);
    match arg_i64(args, key) {
        Ok(Some(n)) => Ok(n),
        Ok(None) => Err(biz(msg)),
        Err(e) => Err(e),
    }
}

/// The id under `k1`, else under `k2`, or the error `msg` when neither is given.
fn need_id2(args: &FlowData, k1: &str, k2: &str, msg: &str) -> (r: JeeflowResult<i64>)
    ensures
        match crate::actions::arg_id_spec(*args, seq![k1@, k2@]) {
            Ok(Some(n)) => r == Ok::<i64, JeeflowError>(n),
            Ok(None) => r matches Err(JeeflowError::Business(m)) && m@ == msg@,
            Err(m) => r matches Err(JeeflowError::Business(x)) && x@ == m,
        },
{
    assert(seq![k1@, k2@].drop_first() =~= seq![k2@]);
    match arg_i64(args, k1) {
        Ok(Some(n)) => Ok(n),
        Ok(None) => need_id1(args, k2, msg),
        Err(e) => Err(e),
    }
}

/// The id under `k1`, `k2` or `k3` (the first given), or the error `msg` when none is.
fn need_id3(args: &FlowData, k1: &str, k2: &str, k3: &str, msg: &str) -> (r: JeeflowResult<i64>)
    ensures
        match crate::actions::arg_id_spec(*args, seq![k1@, k2@, k3@]) {
            Ok(Some(n)) => r == Ok::<i64, JeeflowError>(n),
            Ok(None) => r matches Err(JeeflowError::Business(m)) && m@ == msg@,
            Err(m) => r matches Err(JeeflowError::Business(x)) && x@ == m,
        },
{
    assert(seq![k1@, k2@, k3@].drop_first() =~= seq![k2@, k3@]);
    match arg_i64(args, k1) {
        Ok(Some(n)) => Ok(n),
        Ok(None) => need_id2(args, k2, k3, msg),
        Err(e) => Err(e),
    }
}

/// `{}`.
fn empty_object() -> (r: JsonValue)
    ensures
        jview(r) == JView::Object(Seq::empty()),
{
    let v: Vec<(String, JsonValue)> = Vec::new();
    proof {
        crate::json::lemma_jview_entries(v@);
    }
    JsonValue::object(v)
}

/// `{key: n}`.
fn one_number(key: &str, n: i64) -> (r: JsonValue)
    ensures
        jview(r) == JView::Object(seq![(key@, JView::Number(n as int, 0))]),
{
    let v = vec![kv(key, num(n))];
    proof {
        crate::json::lemma_jview_entries(v@);
    }
    assert(crate::json::jview_entries(v@) =~= seq![(key@, JView::Number(n as int, 0))]);
    JsonValue::object(v)
}

pub open spec fn out_of_range_msg() -> Seq<char> {
    "分页参数越界"@
}

/// Whether `n` rows can be paged by these arguments: the offset and the page arithmetic stay
/// within `i64`, and a non-empty result has a positive page size.
pub open spec fn envelope_ok(n: int, page_num: i64, page_size: i64) -> bool {
    &&& page_size >= 0 || page_num == 1
    &&& i64::MIN <= (page_num - 1) * page_size <= i64::MAX
    &&& n <= i64::MAX
    &&& n != 0 ==> (page_size != 0 && n + page_size <= i64::MAX)
}

/// Filter the rows of a fetched page, page them again by the caller's page arguments and wrap
/// them in the paging envelope.
pub fn page_envelope(rows: Vec<JsonValue>, filters: &[QueryFilter], page_num: i64, page_size: i64) -> (r: JeeflowResult<JsonValue>)
    ensures
        r matches Ok(v) ==> ({
            let kept = crate::actions::rows_passing(crate::json::jview_list(rows@), filters@);
            jview(v) == crate::vo::page_view(
                page_num,
                page_size,
                kept.len() as i64,
                crate::model::total_pages(kept.len() as int, page_size as int) as i64,
                crate::actions::page_slice(kept, page_num, page_size),
            )
        }),
        r is Ok <==> envelope_ok(
            crate::actions::rows_passing(crate::json::jview_list(rows@), filters@).len() as int,
            page_num,
            page_size,
        ),
        r matches Err(e) ==> (e matches JeeflowError::Business(m) && m@ == out_of_range_msg()),
{
    let kept = filter_rows(rows, filters);
    let ghost kv = crate::json::jview_list(kept@);
    proof {
        crate::json::lemma_jview_list(kept@);
    }
    if !(page_size >= 0 || page_num == 1) {
        return Err(out_of_range());
    }
    let a: i128 = page_num as i128 - 1;
    let b: i128 = page_size as i128;
    assert(a * b <= 0x4000_0000_0000_0000_8000_0000_0000_0000 && a * b >= -0x4000_0000_0000_0000_8000_0000_0000_0000) by (nonlinear_arith)
        requires
            -0x8000_0000_0000_0001 <= a <= 0x7fff_ffff_ffff_fffe,
            -0x8000_0000_0000_0000 <= b <= 0x7fff_ffff_ffff_ffff,
    ;
    let wide: i128 = a * b;
    if wide < i64::MIN as i128 || wide > i64::MAX as i128 {
        return Err(out_of_range());
    }
    if kept.len() as u128 > i64::MAX as u128 {
        return Err(out_of_range());
    }
    let (page_rows, total) = re_paginate(kept, page_num, page_size);
    proof {
        crate::json::lemma_jview_list(page_rows@);
        assert(crate::json::jview_list(page_rows@) =~= crate::actions::page_slice(kv, page_num, page_size));
    }
    if total != 0 {
        if page_size == 0 || total as i128 + page_size as i128 > i64::MAX as i128 {
            return Err(out_of_range());
        }
    }
    let page = PageResult::new(page_num, page_size, total, page_rows);
    Ok(page_to_json(page))
}

/// The facade over an engine.
pub struct JeeflowFacade<R, G> {
    pub engine: JeeflowEngineImpl<R, G>,
    /// The actions asked of `flow` so far, with their arguments, in order.
    pub requests: Ghost<Seq<(Seq<char>, FlowData)>>,
}

/// The arguments a start-and-execute works the apply task with: submit type 0, and the
/// initiator's chosen next operators (`f_nextNodeOperator`, a text) handed on as
/// `tf_nextNodeOperator`.
pub open spec fn apply_step_args(d: FlowData, args: FlowData) -> bool {
    &&& d.lookup("submitType"@) == Some(JView::Number(0, 0))
    &&& args.lookup("f_nextNodeOperator"@) matches Some(JView::Str(x)) ==> d.lookup("tf_nextNodeOperator"@)
        == Some(JView::Str(x))
}

/// How many of the requests in `log` asked for `action`.
pub open spec fn count_of(log: Seq<(Seq<char>, FlowData)>, action: Seq<char>) -> nat
    decreases log.len(),
{
    if log.len() == 0 {
        0
    } else {
        count_of(log.drop_last(), action) + if log.last().0 == action { 1nat } else { 0nat }
    }
}

/// One more request counts once more exactly when it asks for `action`.
pub proof fn lemma_count_push(log: Seq<(Seq<char>, FlowData)>, x: (Seq<char>, FlowData), action: Seq<char>)
    ensures
        count_of(log.push(x), action) == count_of(log, action) + if x.0 == action { 1nat } else { 0nat },
{
    assert(log.push(x).drop_last() =~= log);
}

/// The actions the facade answers.
pub open spec fn known_action(a: Seq<char>) -> bool {
    ||| a == "processDefine/page"@ || a == "processDefine/detail"@ || a == "processDefine/startAndExecute"@
    ||| a == "processDefine/deploy"@ || a == "processDefine/redeploy"@ || a == "processDefine/remove"@
    ||| a == "processDefine/upAndDown"@ || a == "processDefine/getLastByName"@
    ||| a == "processInstance/page"@ || a == "processInstance/detail"@ || a == "processInstance/startAndExecute"@
    ||| a == "processInstance/withdraw"@ || a == "processInstance/highLight"@ || a == "processInstance/approvalRecord"@
    ||| a == "processInstance/getAssigneeTextData"@ || a == "processInstance/bizData"@
    ||| a == "processInstance/createCCInstance"@ || a == "processInstance/updateCCStatus"@
    ||| a == "processInstance/ccList"@
    ||| a == "processTask/todoList"@ || a == "processTask/doneList"@ || a == "processTask/execute"@
    ||| a == "processTask/detail"@ || a == "processTask/jumpAbleTaskNameList"@ || a == "processTask/candidatePage"@
    ||| a == "processTask/surrogate"@ || a == "processTask/addCandidate"@ || a == "processTask/latest"@
    ||| a == "processDesign/page"@ || a == "processDesign/detail"@ || a == "processDesign/save"@
    ||| a == "processDesign/update"@ || a == "processDesign/updateDefine"@ || a == "processDesign/remove"@
    ||| a == "processDesign/deploy"@ || a == "processDesign/redeploy"@ || a == "processDesign/listByType"@
    ||| a == "processSurrogate/page"@ || a == "processSurrogate/save"@ || a == "processSurrogate/update"@
    ||| a == "processSurrogate/detail"@ || a == "processSurrogate/remove"@
}

/// The output conventions: keys camel-cased (see `camel_of`), ids written as text (see
/// `ids_of`), then time fields written `yyyy-MM-dd HH:mm:ss` with `now` for `NOW()` (see
/// `times_of`).
pub fn transform_output(val: &JsonValue, now: &str) -> (r: JsonValue)
    ensures
        exists|c: JsonValue, i: JsonValue| jview(c) == crate::vo::camel_of(*val, true) && jview(i) == crate::vo::ids_of(c)
            && jview(r) == crate::vo::times_of(i, now@),
{
    let c = to_camel_json(val);
    let i = stringify_ids(&c);
    let r = crate::vo::format_time_fields(&i, now);
    assert(jview(c) == crate::vo::camel_of(*val, true) && jview(i) == crate::vo::ids_of(c)
        && jview(r) == crate::vo::times_of(i, now@));
    r
}

/// `x` is a result's data in the output conventions (see `transform_output`).
pub open spec fn output_of(d: JsonValue, now: Seq<char>, x: JView) -> bool {
    exists|c: JsonValue, i: JsonValue| #![trigger jview(c), jview(i)] jview(c) == crate::vo::camel_of(d, true)
        && jview(i) == crate::vo::ids_of(c) && x == crate::vo::times_of(i, now)
}

/// The answer to a handler's result: `{code: 0, msg: 成功, data}` with the data in the output
/// conventions, or `{code: 99999999, msg}` with the error's message.
pub open spec fn answered(res: JeeflowResult<JsonValue>, now: Seq<char>, v: JView) -> bool {
    match res {
        Ok(d) => exists|x: JView| #[trigger] output_of(d, now, x) && v == JView::Object(seq![
            ("code"@, JView::Number(0, 0)),
            ("msg"@, JView::Str("成功"@)),
            ("data"@, x),
        ]),
        Err(e) => v == JView::Object(seq![
            ("code"@, JView::Number(99999999, 0)),
            ("msg"@, JView::Str(crate::error::error_message(e))),
        ]),
    }
}

/// The envelope of a handler's result, with `now` for `NOW()` (see `answered`).
pub fn answer_of(res: JeeflowResult<JsonValue>, now: &str) -> (r: JsonValue)
    ensures
        answered(res, now@, jview(r)),
        is_envelope(jview(r)),
{
    match res {
        Ok(data) => {
            let out = transform_output(&data, now);
            let ghost d = jview(out);
            assert(output_of(data, now@, d));
            let r = success_response(out);
            assert(jview(r) == JView::Object(seq![
                ("code"@, JView::Number(0, 0)),
                ("msg"@, JView::Str("成功"@)),
                ("data"@, d),
            ]));
            r
        },
        Err(e) => {
            let m = e.message();
            let r = error_response(m.as_str());
            assert(jview(r) == JView::Object(seq![
                ("code"@, JView::Number(99999999, 0)),
                ("msg"@, JView::Str(m@)),
            ]));
            r
        },
    }
}

/// The success envelope of a result's data, or the error envelope of its message.
pub open spec fn is_envelope(v: JView) -> bool {
    ||| exists|d: JView| v == JView::Object(seq![
            ("code"@, JView::Number(0, 0)),
            ("msg"@, JView::Str("成功"@)),
            ("data"@, d),
        ])
    ||| exists|m: Seq<char>| v == JView::Object(seq![
            ("code"@, JView::Number(99999999, 0)),
            ("msg"@, JView::Str(m)),
        ])
}

/// Whether an id argument is missing or illegal: the error an action answers then.
pub open spec fn id_arg_error(args: FlowData, keys: Seq<Seq<char>>, missing: Seq<char>) -> Option<Seq<char>> {
    match crate::actions::arg_id_spec(args, keys) {
        Ok(Some(_)) => None,
        Ok(None) => Some(missing),
        Err(m) => Some(m),
    }
}

/// The error a paging action answers for an illegal `pageNum` or `pageSize`.
pub open spec fn page_args_error(args: FlowData) -> Option<Seq<char>> {
    match crate::actions::arg_i64_spec(args.lookup("pageNum"@)) {
        Err(m) => Some(m),
        _ => match crate::actions::arg_i64_spec(args.lookup("pageSize"@)) {
            Err(m) => Some(m),
            _ => None,
        },
    }
}

/// The error `processDefine/upAndDown` answers before it writes: an illegal `opType` or
/// `state`, neither given, an illegal id list, or no id.
pub open spec fn up_and_down_error(args: FlowData) -> Option<Seq<char>> {
    match crate::actions::arg_i64_spec(args.lookup("opType"@)) {
        Err(m) => Some(m),
        Ok(op) => match crate::actions::arg_i64_spec(args.lookup("state"@)) {
            Err(m) => Some(m),
            Ok(st) => if op is None && st is None {
                Some("缺少state/opType参数"@)
            } else {
                match crate::actions::arg_ids_spec(args) {
                    Err(m) => Some(m),
                    Ok(ids) => if ids.len() == 0 { Some("缺少id参数"@) } else { None },
                }
            },
        },
    }
}

pub open spec fn fails_with(r: JeeflowResult<JsonValue>, m: Seq<char>) -> bool {
    r matches Err(JeeflowError::Business(x)) && x@ == m
}

/// The keys the fallback content of a deploy leaves out.
pub open spec fn content_skip_key(k: Seq<char>) -> bool {
    k == "processDesignId"@ || k == "processDefineId"@ || k == "operator"@ || k == "id"@
        || k == "pageNum"@ || k == "pageSize"@
}

pub open spec fn content_rest(es: Seq<(Seq<char>, JView)>) -> Seq<(Seq<char>, JView)>
    decreases es.len(),
{
    if es.len() == 0 {
        Seq::empty()
    } else if content_skip_key(es.last().0) {
        content_rest(es.drop_last())
    } else {
        content_rest(es.drop_last()).push(es.last())
    }
}

/// The text a deploy takes as its model: `content` as text, or any other non-null `content`
/// as its JSON text; without one, the other arguments (but ids, operator and paging) as an
/// object, when there are any.
pub open spec fn content_text(args: FlowData) -> Option<Seq<char>> {
    match args.lookup("content"@) {
        Some(JView::Str(t)) => Some(t),
        Some(JView::Null) | None => {
            let rest = content_rest(args.kv());
            if rest.len() == 0 { None } else { Some(crate::json::json_text(JView::Object(rest))) }
        },
        Some(v) => Some(crate::json::json_text(v)),
    }
}

/// The bytes of a text.
fn text_bytes(s: &str) -> (r: Vec<u8>)
    ensures
        r@ == vstd::utf8::encode_utf8(s@),
{
    let b = s.as_bytes();
    let mut out: Vec<u8> = Vec::new();
    let mut i: usize = 0;
    while i < b.len()
        invariant
            0 <= i <= b.len(),
            out@ == b@.take(i as int),
        decreases b.len() - i,
    {
        out.push(b[i]);
        i = i + 1;
        assert(out@ =~= b@.take(i as int));
    }
    assert(b@.take(b.len() as int) =~= b@);
    out
}

fn content_skip(k: &str) -> (r: bool)
    ensures
        r == content_skip_key(k@),
{
    str_eq(k, "processDesignId") || str_eq(k, "processDefineId") || str_eq(k, "operator") || str_eq(k, "id")
        || str_eq(k, "pageNum") || str_eq(k, "pageSize")
}

/// The content bytes of a deploy (see `content_text`).
pub fn content_bytes(args: &FlowData) -> (r: Option<Vec<u8>>)
    ensures
        match content_text(*args) {
            Some(t) => r matches Some(b) && b@ == vstd::utf8::encode_utf8(t),
            None => r is None,
        },
{
    match args.get("content") {
        Some(JsonValue::Str(s)) => Some(text_bytes(s.as_str())),
        Some(JsonValue::Null) | None => {
            let es = args.entries();
            let mut rest: Vec<(String, JsonValue)> = Vec::new();
            let mut i: usize = 0;
            while i < es.len()
                invariant
                    0 <= i <= es.len(),
                    crate::json::jview_entries(rest@) == content_rest(crate::json::jview_entries(es@.take(i as int))),
                decreases es.len() - i,
            {
                proof {
                    assert(es@.take(i + 1) =~= es@.take(i as int).push(es@[i as int]));
                    crate::json::lemma_jview_entries_push(es@.take(i as int), es@[i as int]);
                    assert(crate::json::jview_entries(es@.take(i + 1)).drop_last() =~= crate::json::jview_entries(es@.take(i as int)));
                }
                if !content_skip(es[i].0.as_str()) {
                    let k = es[i].0.clone();
                    let x = es[i].1.dup();
                    let ghost before = rest@;
                    rest.push((k, x));
                    proof {
                        crate::json::lemma_jview_entries_push(before, (k, x));
                    }
                }
                i = i + 1;
            }
            assert(es@.take(es.len() as int) =~= es@);
            proof {
                crate::json::lemma_jview_entries(rest@);
            }
            if rest.len() == 0 {
                None
            } else {
                let obj = JsonValue::Object(rest);
                let t = obj.to_json_string();
                Some(text_bytes(t.as_str()))
            }
        },
        Some(v) => {
            let t = v.to_json_string();
            Some(text_bytes(t.as_str()))
        },
    }
}

impl<R: ProcessRepository + ProcessExtRepository, G: IdGenerator> JeeflowFacade<R, G> {
    /// A facade over an engine on `ctx`.
    pub fn new(ctx: ServiceContext<R, G>) -> (r: Self)
        ensures
            r.engine.ctx == ctx,
            r.requests@.len() == 0,
    {
        JeeflowFacade { engine: JeeflowEngineImpl::new(ctx), requests: Ghost(Seq::empty()) }
    }

    pub fn engine(&self) -> (r: &JeeflowEngineImpl<R, G>)
        ensures
            *r == self.engine,
    {
        &self.engine
    }

    /// The store.
    pub fn repo(&self) -> (r: &R)
        ensures
            *r == self.engine.ctx.repository,
    {
        &self.engine.ctx.repository
    }

    /// The store, when it answers the extension queries too.
    pub fn ext_repo(&self) -> (r: Option<&R>)
        ensures
            r == (if self.engine.ctx.ext_repository { Some(&self.engine.ctx.repository) } else { None::<&R> }),
    {
        if self.engine.ctx.ext_repository {
            Some(&self.engine.ctx.repository)
        } else {
            None
        }
    }

    /// Every define.
    fn all_defines(&self) -> (r: JeeflowResult<Vec<DefineRow>>) {
        let q = PageQuery::new(1, i64::MAX / 4);
        if !self.engine.ctx.repository.define_page_fits(&q) {
            return Err(out_of_range());
        }
        let page = self.engine.ctx.repository.page_defines(&q)?;
        Ok(page.rows)
    }

    fn need_ext(&self) -> (r: JeeflowResult<()>)
        ensures
            r is Ok <==> self.engine.ctx.ext_repository,
            r is Err ==> r matches Err(JeeflowError::Internal(_)),
    {
        if self.engine.ctx.ext_repository {
            Ok(())
        } else {
            Err(JeeflowError::Internal(owned("ExtRepository not registered")))
        }
    }

    /// Store a deployed define: the next version of its name (0 for the first), enabled.
    fn save_deployed_define(&mut self, model: &crate::parser::ProcessModel, bytes: &Vec<u8>, operator: &str) -> (r: JeeflowResult<i64>) {
        let rows = self.all_defines()?;
        let mut i: usize = 0;
        while i < rows.len()
            invariant
                0 <= i <= rows.len(),
                forall|k: int| 0 <= k < i && rows@[k].name@ == model.name@ ==> rows@[k].version < i32::MAX,
            decreases rows.len() - i,
        {
            if str_eq(rows[i].name.as_str(), model.name.as_str()) && rows[i].version == i32::MAX {
                return Err(biz("流程定义版本越界"));
            }
            i = i + 1;
        }
        let version = next_define_version(rows.as_slice(), model.name.as_str());
        let mut define = ProcessDefine {
            id: 0,
            name: model.name.clone(),
            display_name: model.display_name.clone(),
            define_type: model.model_type.clone(),
            state: 1,
            content: bytes.clone(),
            version,
            create_time: None,
            create_user: Some(owned(operator)),
            update_time: None,
            update_user: Some(owned(operator)),
        };
        self.engine.ctx.repository.save_define(&mut define)?;
        Ok(define.id)
    }

    fn process_define_page(&self, args: &FlowData) -> (r: JeeflowResult<JsonValue>)
        ensures
            page_args_error(*args) matches Some(m) ==> fails_with(r, m),
    {
        let page_num = arg_i64_or(args, "pageNum", 1)?;
        let page_size = arg_i64_or(args, "pageSize", 20)?;
        let filters = parse_m_params(args);
        let query = PageQuery::new(page_num, page_size);
        if !self.engine.ctx.repository.define_page_fits(&query) {
            return Err(out_of_range());
        }
        let page = self.engine.ctx.repository.page_defines(&query)?;
        let mut rows: Vec<JsonValue> = Vec::new();
        let mut i: usize = 0;
        while i < page.rows.len()
            decreases page.rows.len() - i,
        {
            rows.push(define_row_to_json(&page.rows[i]));
            i = i + 1;
        }
        page_envelope(rows, filters.as_slice(), page_num, page_size)
    }

    fn process_define_detail(&self, args: &FlowData) -> (r: JeeflowResult<JsonValue>)
        ensures
            id_arg_error(*args, seq!["id"@], "缺少id参数"@) matches Some(m) ==> fails_with(r, m),
    {
        let id = need_id1(args, "id", "缺少id参数")?;
        let define = match self.engine.ctx.repository.find_define_by_id(id)? {
            Some(d) => d,
            None => {
                return Err(JeeflowError::DefineNotFound(id));
            },
        };
        let graph = match parse_graph(define.content_str().as_str()) {
            Some(g) => g,
            None => JsonValue::Null,
        };
        let v = vec![
            kv("id", num(define.id)),
            kv("name", JsonValue::Str(define.name)),
            kv("display_name", JsonValue::Str(define.display_name)),
            kv("type", JsonValue::Str(define.define_type)),
            kv("state", num(define.state as i64)),
            kv("version", num(define.version as i64)),
            kv("json_object", graph),
        ];
        Ok(JsonValue::Object(v))
    }

    fn process_define_start_and_execute(&mut self, args: &FlowData) -> (r: JeeflowResult<JsonValue>)
        ensures
            crate::actions::arg_i64_spec(args.lookup("processDefineId"@)) matches Err(m) ==> fails_with(r, m),
            old(self).engine.steps@.len() <= final(self).engine.steps@.len(),
            forall|k: int| old(self).engine.steps@.len() <= k < final(self).engine.steps@.len()
                ==> apply_step_args((#[trigger] final(self).engine.steps@[k]).2, *args),
    {
        proof {
            reveal_strlit("f_nextNodeOperator");
            reveal_strlit("tf_nextNodeOperator");
            reveal_strlit("submitType");
            assert("f_nextNodeOperator"@.len() == 18 && "tf_nextNodeOperator"@.len() == 19 && "submitType"@.len() == 10);
        }
        let first = arg_i64(args, "processDefineId")?;
        let second = arg_i64(args, "id")?;
        let define_id = match first {
            Some(id) => id,
            None => match second {
                Some(id) => id,
                None => match arg_str(args, "name") {
                    Some(define_name) => {
                        let query = PageQuery::new(1, 1000);
                        if !self.engine.ctx.repository.define_page_fits(&query) {
                            return Err(out_of_range());
                        }
                        let page = self.engine.ctx.repository.page_defines(&query)?;
                        match enabled_define_by_name(page.rows.as_slice(), define_name.as_str()) {
                            Some(id) => id,
                            None => {
                                let mut m = owned("流程定义不存在或未启用: ");
                                crate::text::push_str(&mut m, define_name.as_str());
                                return Err(JeeflowError::Business(m));
                            },
                        }
                    },
                    None => {
                        return Err(biz("缺少processDefineId参数"));
                    },
                },
            },
        };
        let operator = arg_str_or(args, "operator", "user1");
        let mut flow_data = args_to_flow_data(args);
        let instance = self.engine.start_async(define_id, operator.as_str(), &flow_data)?;
        let tasks = self.engine.ctx.repository.find_doing_tasks(instance.instance_id, &[])?;
        let ghost n0 = self.engine.steps@.len();
        let mut i: usize = 0;
        while i < tasks.len()
            invariant
                !(crate::actions::arg_i64_spec(args.lookup("processDefineId"@)) is Err),
                n0 == old(self).engine.steps@.len(),
                n0 <= self.engine.steps@.len(),
                forall|k: int| n0 <= k < self.engine.steps@.len() ==> apply_step_args((#[trigger] self.engine.steps@[k]).2, *args),
                flow_data.lookup("f_nextNodeOperator"@) == match args.lookup("f_nextNodeOperator"@) {
                    Some(v) => flow_arg(v),
                    None => None,
                },
                "f_nextNodeOperator"@ != "tf_nextNodeOperator"@ && "f_nextNodeOperator"@ != "submitType"@
                    && "tf_nextNodeOperator"@ != "submitType"@,
            decreases tasks.len() - i,
        {
            let task = &tasks[i];
            let actor = vec![operator.clone()];
            let _ = self.engine.ctx.repository.add_task_actor(task.task_id, actor.as_slice());
            flow_data.insert_i64("submitType", 0);
            let next_op = match flow_data.get_str("f_nextNodeOperator") {
                Some(v) => Some(owned(v)),
                None => None,
            };
            match next_op {
                Some(v) => flow_data.insert_str("tf_nextNodeOperator", v.as_str()),
                None => {},
            }
            assert(apply_step_args(flow_data, *args));
            let ghost s0 = self.engine.steps@;
            let _ = self.engine.execute_task_async(task.task_id, operator.as_str(), &flow_data)?;
            assert forall|k: int| n0 <= k < self.engine.steps@.len() implies apply_step_args(
                (#[trigger] self.engine.steps@[k]).2,
                *args,
            ) by {
                if k < s0.len() {
                    assert(self.engine.steps@[k] == s0[k]);
                }
            }
            i = i + 1;
        }
        Ok(one_number("process_instance_id", instance.instance_id))
    }

    fn process_define_deploy(&mut self, args: &FlowData) -> (r: JeeflowResult<JsonValue>)
        ensures
            content_text(*args) is None ==> fails_with(r, "content 缺失"@),
    {
        let bytes = match content_bytes(args) {
            Some(b) => b,
            None => {
                return Err(biz("content 缺失"));
            },
        };
        let content = crate::model::utf8_lossy(bytes.as_slice());
        let model = ModelParser::parse(content.as_str())?;
        let operator = arg_str_or(args, "operator", "system");
        let define_id = self.save_deployed_define(&model, &bytes, operator.as_str())?;
        Ok(one_number("process_define_id", define_id))
    }

    fn process_define_redeploy(&mut self, args: &FlowData) -> (r: JeeflowResult<JsonValue>)
        ensures
            id_arg_error(*args, seq!["processDefineId"@, "id"@], "缺少processDefineId参数"@) matches Some(m) ==> fails_with(r, m),
    {
        let define_id = need_id2(args, "processDefineId", "id", "缺少processDefineId参数")?;
        let bytes = match content_bytes(args) {
            Some(b) => b,
            None => {
                return Err(biz("content 缺失"));
            },
        };
        let content = crate::model::utf8_lossy(bytes.as_slice());
        let model = ModelParser::parse(content.as_str())?;
        let operator = arg_str_or(args, "operator", "system");
        let updated = match self.engine.ctx.repository.find_define_by_id(define_id)? {
            Some(old) => ProcessDefine {
                id: define_id,
                name: model.name,
                display_name: model.display_name,
                define_type: model.model_type,
                state: old.state,
                content: bytes,
                version: old.version,
                create_time: old.create_time,
                create_user: old.create_user,
                update_time: None,
                update_user: Some(operator),
            },
            None => ProcessDefine {
                id: define_id,
                name: model.name,
                display_name: model.display_name,
                define_type: model.model_type,
                state: 1,
                content: bytes,
                version: 0,
                create_time: None,
                create_user: None,
                update_time: None,
                update_user: Some(operator),
            },
        };
        self.engine.ctx.repository.update_define(&updated)?;
        Ok(empty_object())
    }

    fn process_define_remove(&mut self, args: &FlowData) -> (r: JeeflowResult<JsonValue>)
        ensures
            crate::actions::arg_ids_spec(*args) matches Ok(ids) && ids.len() == 0 ==> fails_with(r, "缺少id参数"@),
            crate::actions::arg_ids_spec(*args) matches Err(m) ==> fails_with(r, m),
    {
        let ids = arg_ids(args)?;
        if ids.len() == 0 {
            return Err(biz("缺少id参数"));
        }
        let mut i: usize = 0;
        while i < ids.len()
            invariant
                crate::actions::arg_ids_spec(*args) == Ok::<Seq<i64>, Seq<char>>(ids@),
                ids@.len() > 0,
            decreases ids.len() - i,
        {
            self.engine.ctx.repository.remove_define(ids[i])?;
            i = i + 1;
        }
        Ok(empty_object())
    }

    fn process_define_up_and_down(&mut self, args: &FlowData) -> (r: JeeflowResult<JsonValue>)
        ensures
            up_and_down_error(*args) matches Some(m) ==> fails_with(r, m),
            up_and_down_error(*args) is None && r is Ok ==> jview(r->Ok_0) == JView::Object(Seq::empty()),
    {
        let op_type = arg_i64(args, "opType")?;
        let state_arg = arg_i64(args, "state")?;
        let state = match op_type {
            Some(v) => v,
            None => match state_arg {
                Some(v) => v,
                None => {
                    return Err(biz("缺少state/opType参数"));
                },
            },
        };
        let ids = arg_ids(args)?;
        if ids.len() == 0 {
            return Err(biz("缺少id参数"));
        }
        let st: i32 = state as i32;
        assert(up_and_down_error(*args) is None);
        let mut i: usize = 0;
        while i < ids.len()
            invariant
                up_and_down_error(*args) is None,
            decreases ids.len() - i,
        {
            self.engine.ctx.repository.update_define_state(ids[i], st)?;
            i = i + 1;
        }
        Ok(empty_object())
    }

    fn process_define_get_last_by_name(&self, args: &FlowData) -> (r: JeeflowResult<JsonValue>)
        ensures
            args.lookup("processDefineName"@) is None && args.lookup("name"@) is None
                ==> fails_with(r, "缺少processDefineName参数"@),
    {
        let name = match arg_str(args, "processDefineName") {
            Some(n) => n,
            None => match arg_str(args, "name") {
                Some(n) => n,
                None => {
                    return Err(biz("缺少processDefineName参数"));
                },
            },
        };
        let rows = self.all_defines()?;
        match latest_define_index(rows.as_slice(), name.as_str()) {
            Some(k) => {
                let d = &rows[k];
                let v = vec![
                    kv("id", num(d.id)),
                    kv("name", JsonValue::string(d.name.as_str())),
                    kv("display_name", JsonValue::string(d.display_name.as_str())),
                    kv("type", JsonValue::string(d.define_type.as_str())),
                    kv("state", num(d.state as i64)),
                    kv("version", num(d.version as i64)),
                ];
                Ok(JsonValue::Object(v))
            },
            None => {
                let mut m = owned("流程定义不存在: ");
                crate::text::push_str(&mut m, name.as_str());
                Err(JeeflowError::Business(m))
            },
        }
    }
}

/// Set `k` of an object's entries: the first entry with that key takes `v`, else `(k, v)` is
/// appended.
pub fn obj_insert(es: &mut Vec<(String, JsonValue)>, k: &str, v: JsonValue)
    ensures
        crate::json::entry_lookup(crate::json::jview_entries(final(es)@), k@) == Some(jview(v)),
{
    let mut i: usize = 0;
    while i < es.len()
        invariant
            0 <= i <= es.len(),
            forall|j: int| 0 <= j < i ==> es@[j].0@ != k@,
        decreases es.len() - i,
    {
        if str_eq(es[i].0.as_str(), k) {
            let ghost old_es = es@;
            let ghost vv = jview(v);
            es.set(i, (owned(k), v));
            proof {
                crate::json::lemma_jview_entries(es@);
                assert forall|j: int| 0 <= j < i implies crate::json::jview_entries(es@)[j].0 != k@ by {
                    assert(es@[j] == old_es[j]);
                }
                crate::json::lemma_entry_lookup_first(crate::json::jview_entries(es@), k@, i as int);
            }
            return;
        }
        i = i + 1;
    }
    let ghost before = es@;
    es.push((owned(k), v));
    proof {
        crate::json::lemma_jview_entries(es@);
        assert forall|j: int| 0 <= j < before.len() implies crate::json::jview_entries(es@)[j].0 != k@ by {
            assert(es@[j] == before[j]);
        }
        crate::json::lemma_entry_lookup_first(crate::json::jview_entries(es@), k@, before.len() as int);
    }
}

/// The names of tasks, each once, in order of first appearance, leaving out those in `skip`.
pub open spec fn unique_names_spec(tasks: Seq<crate::model::ProcessTask>, skip: Seq<Seq<char>>) -> Seq<Seq<char>>
    decreases tasks.len(),
{
    if tasks.len() == 0 {
        Seq::empty()
    } else {
        let u = unique_names_spec(tasks.drop_last(), skip);
        let x = tasks.last().task_name@;
        if skip.contains(x) || u.contains(x) {
            u
        } else {
            u.push(x)
        }
    }
}

/// The names of tasks, each once, in order of first appearance.
fn unique_names(tasks: &Vec<crate::model::ProcessTask>, skip: &Vec<String>) -> (r: Vec<String>)
    ensures
        crate::text::views(r@) == unique_names_spec(tasks@, crate::text::views(skip@)),
        forall|j: int| 0 <= j < r@.len() ==> !crate::text::views(skip@).contains(#[trigger] r@[j]@),
{
    let mut out: Vec<String> = Vec::new();
    let mut i: usize = 0;
    assert(crate::text::views(out@) =~= Seq::<Seq<char>>::empty());
    while i < tasks.len()
        invariant
            0 <= i <= tasks.len(),
            crate::text::views(out@) == unique_names_spec(tasks@.take(i as int), crate::text::views(skip@)),
            forall|j: int| 0 <= j < out@.len() ==> !crate::text::views(skip@).contains(#[trigger] out@[j]@),
        decreases tasks.len() - i,
    {
        let n = &tasks[i].task_name;
        assert(tasks@.take(i + 1).drop_last() =~= tasks@.take(i as int));
        if !crate::model::contains_str(skip.as_slice(), n.as_str()) && !crate::model::contains_str(out.as_slice(), n.as_str()) {
            let ghost before = out@;
            out.push(n.clone());
            assert(crate::text::views(out@) =~= crate::text::views(before).push(n@));
        }
        i = i + 1;
    }
    assert(tasks@.take(tasks@.len() as int) =~= tasks@);
    out
}

/// A text field, trimmed, where it is not blank.
pub open spec fn nonblank_field(v: JView, k: Seq<char>) -> Option<Seq<char>> {
    match crate::parser::jstr(v, k) {
        Some(t) => if crate::text::trim(t).len() > 0 { Some(crate::text::trim(t)) } else { None },
        None => None,
    }
}

pub open spec fn rel_table_name_spec(content: Seq<char>) -> Option<Seq<char>> {
    match crate::vo::graph_of(content) {
        None => None,
        Some(m) => match nonblank_field(m, "relTableName"@) {
            Some(t) => Some(t),
            None => nonblank_field(m, "name"@),
        },
    }
}

/// The table a define's business rows live in: its `relTableName`, else its `name` (trimmed,
/// when not blank).
pub fn resolve_rel_table_name(content: &str) -> (r: Option<String>)
    ensures
        crate::text::trim(content@).len() == 0 ==> r is None,
        crate::model::opt_view(r) == rel_table_name_spec(content@),
{
    let meta = match parse_graph(content) {
        Some(m) => m,
        None => {
            return None;
        },
    };
    match meta.get_str("relTableName") {
        Some(t) => {
            let tt = crate::text::trim_str(t);
            if crate::text::chars_of(tt.as_str()).len() > 0 {
                return Some(tt);
            }
        },
        None => {},
    }
    match meta.get_str("name") {
        Some(t) => {
            let tt = crate::text::trim_str(t);
            if crate::text::chars_of(tt.as_str()).len() > 0 {
                Some(tt)
            } else {
                None
            }
        },
        None => None,
    }
}

/// The progress of each node the tasks went through: its members (the node's operator list,
/// else the tasks' actors), each marked done or active, and the countersign type of a
/// countersign node.
pub fn build_node_progress(model: &crate::parser::ProcessModel, tasks: &Vec<crate::model::ProcessTask>) -> (r: JsonValue)
    ensures
        jview(r) is Object,
{
    let none: Vec<String> = Vec::new();
    let names = unique_names(tasks, &none);
    let mut progress: Vec<(String, JsonValue)> = Vec::new();
    let mut ni: usize = 0;
    while ni < names.len()
        decreases names.len() - ni,
    {
        let name = &names[ni];
        // the tasks of this node
        let mut first: Option<usize> = None;
        let mut k: usize = 0;
        while k < tasks.len()
            invariant
                0 <= k <= tasks.len(),
                first matches Some(f) ==> f < tasks.len(),
            decreases tasks.len() - k,
        {
            if first.is_none() && str_eq(tasks[k].task_name.as_str(), name.as_str()) {
                first = Some(k);
            }
            k = k + 1;
        }
        let f = match first {
            Some(f) => f,
            None => {
                ni = ni + 1;
                continue;
            },
        };
        let mut members: Vec<String> = Vec::new();
        let mut key = owned("operatorList_");
        crate::text::push_str(&mut key, name.as_str());
        match tasks[f].variables.get_str(key.as_str()) {
            Some(list) => {
                members = crate::text::split_csv(list);
            },
            None => {},
        }
        if members.len() == 0 {
            let mut k: usize = 0;
            while k < tasks.len()
                decreases tasks.len() - k,
            {
                let tk = &tasks[k];
                if str_eq(tk.task_name.as_str(), name.as_str()) {
                    let mut a: usize = 0;
                    while a < tk.actor_ids.len()
                        decreases tk.actor_ids.len() - a,
                    {
                        let actor = &tk.actor_ids[a];
                        if !crate::model::contains_str(members.as_slice(), actor.as_str()) {
                            members.push(actor.clone());
                        }
                        a = a + 1;
                    }
                }
                k = k + 1;
            }
        }
        if members.len() == 0 {
            ni = ni + 1;
            continue;
        }
        let mut done_set: Vec<String> = Vec::new();
        let mut active_actor: Option<String> = None;
        let mut k: usize = 0;
        while k < tasks.len()
            decreases tasks.len() - k,
        {
            let t = &tasks[k];
            if str_eq(t.task_name.as_str(), name.as_str()) {
                if t.task_state == crate::model::TASK_FINISHED {
                    let mut a: usize = 0;
                    while a < t.actor_ids.len()
                        decreases t.actor_ids.len() - a,
                    {
                        done_set.push(t.actor_ids[a].clone());
                        a = a + 1;
                    }
                }
                if active_actor.is_none() && t.task_state == crate::model::TASK_DOING && t.actor_ids.len() > 0 {
                    active_actor = Some(t.actor_ids[0].clone());
                }
            }
            k = k + 1;
        }
        let node = model.get_node(name.as_str());
        let cs_type = match node {
            Some(n) => n.prop_str("countersignType"),
            None => None,
        };
        let is_cs = cs_type.is_some() || match node {
            Some(n) => n.perform_type() == 1,
            None => false,
        };
        let mut members_out: Vec<JsonValue> = Vec::new();
        let mut m: usize = 0;
        while m < members.len()
            decreases members.len() - m,
        {
            let uid = &members[m];
            let mut entry = vec![kv("id", JsonValue::Str(uid.clone())), kv("name", JsonValue::string(""))];
            if crate::model::contains_str(done_set.as_slice(), uid.as_str()) {
                entry.push(kv("done", JsonValue::Bool(true)));
            } else {
                let is_active = match &active_actor {
                    Some(a) => str_eq(a.as_str(), uid.as_str()),
                    None => false,
                };
                if is_active {
                    entry.push(kv("active", JsonValue::Bool(true)));
                }
            }
            members_out.push(JsonValue::Object(entry));
            m = m + 1;
        }
        let mut item = vec![kv("members", JsonValue::Array(members_out))];
        if is_cs {
            let t = match cs_type {
                Some(t) => t,
                None => owned("PARALLEL"),
            };
            item.push(kv("type", JsonValue::Str(t)));
        }
        obj_insert(&mut progress, name.as_str(), JsonValue::Object(item));
        ni = ni + 1;
    }
    JsonValue::Object(progress)
}

/// The doing task names, each once, in order.
fn active_names(doing: &Vec<crate::model::ProcessTask>) -> (r: Vec<String>) {
    let none: Vec<String> = Vec::new();
    unique_names(doing, &none)
}

impl<R: ProcessRepository + ProcessExtRepository, G: IdGenerator> JeeflowFacade<R, G> {
    fn process_instance_page(&self, args: &FlowData, cc: bool) -> (r: JeeflowResult<JsonValue>)
        ensures
            page_args_error(*args) matches Some(m) ==> fails_with(r, m),
    {
        let page_num = arg_i64_or(args, "pageNum", 1)?;
        let page_size = arg_i64_or(args, "pageSize", 20)?;
        let filters = parse_m_params(args);
        let mut query = PageQuery::new(page_num, page_size);
        query.operator = arg_str(args, "operator");
        let fits = if cc {
            self.engine.ctx.repository.cc_page_fits(&query)
        } else {
            self.engine.ctx.repository.instance_page_fits(&query)
        };
        if !fits {
            return Err(out_of_range());
        }
        let page = if cc {
            self.engine.ctx.repository.page_cc_instances(&query)?
        } else {
            self.engine.ctx.repository.page_instances(&query)?
        };
        let mut rows: Vec<JsonValue> = Vec::new();
        let mut i: usize = 0;
        while i < page.rows.len()
            decreases page.rows.len() - i,
        {
            rows.push(crate::vo::instance_row_to_json(&page.rows[i]));
            i = i + 1;
        }
        page_envelope(rows, filters.as_slice(), page_num, page_size)
    }

    fn process_instance_detail(&self, args: &FlowData) -> (r: JeeflowResult<JsonValue>)
        ensures
            id_arg_error(*args, seq!["processInstanceId"@, "id"@], "缺少id参数"@) matches Some(m) ==> fails_with(r, m),
    {
        let id = need_id2(args, "processInstanceId", "id", "缺少id参数")?;
        let inst = match self.engine.ctx.repository.find_instance_by_id(id)? {
            Some(i) => i,
            None => {
                return Err(JeeflowError::InstanceNotFound(id));
            },
        };
        let def0 = self.engine.ctx.repository.find_define_by_id(inst.define_id)?;
        let json_object = match &def0 {
            Some(d) => parse_graph(d.content_str().as_str()),
            None => None,
        };
        let first_node = match &json_object {
            Some(g) => crate::vo::first_task_node_id(g),
            None => None,
        };
        let mut tasks_out: Vec<JsonValue> = Vec::new();
        let mut active: Vec<JsonValue> = Vec::new();
        let mut i: usize = 0;
        while i < inst.tasks.len()
            decreases inst.tasks.len() - i,
        {
            let t = &inst.tasks[i];
            let doing = t.task_state == crate::model::TASK_DOING;
            let is_first = doing && match &first_node {
                Some(n) => str_eq(n.as_str(), t.task_name.as_str()),
                None => false,
            };
            let mut ext = match crate::vo::flow_data_to_object(&t.variables) {
                JsonValue::Object(es) => es,
                _ => Vec::new(),
            };
            obj_insert(&mut ext, "isFirstTaskNode", JsonValue::Bool(is_first));
            let mut vo = match crate::vo::task_vo(t) {
                JsonValue::Object(es) => es,
                _ => Vec::new(),
            };
            obj_insert(&mut vo, "ext", JsonValue::Object(ext));
            let v = JsonValue::Object(vo);
            if doing {
                active.push(v.dup());
            }
            tasks_out.push(v);
            i = i + 1;
        }
        let (display_name, name, version) = match &def0 {
            Some(d) => (JsonValue::string(d.display_name.as_str()), JsonValue::string(d.name.as_str()), num(d.version as i64)),
            None => (JsonValue::Null, JsonValue::Null, JsonValue::Null),
        };
        let graph = match json_object {
            Some(g) => g,
            None => JsonValue::Null,
        };
        let v = vec![
            kv("id", num(inst.instance_id)),
            kv("parent_id", crate::vo::opt_i64(inst.parent_id)),
            kv("process_define_id", num(inst.define_id)),
            kv("state", num(inst.state as i64)),
            kv("parent_node_name", opt_text(&inst.parent_node_name)),
            kv("business_no", opt_text(&inst.business_no)),
            kv("operator", JsonValue::string(inst.operator.as_str())),
            kv("variables", crate::vo::flow_data_to_object(&inst.variables)),
            kv("form_data", crate::vo::form_data_of_flow(&inst.variables, "f_")),
            kv("create_time", opt_text(&inst.create_time)),
            kv("create_user", opt_text(&inst.create_user)),
            kv("display_name", display_name),
            kv("name", name),
            kv("version", version),
            kv("json_object", graph),
            kv("tasks", JsonValue::Array(tasks_out)),
            kv("active_task_list", JsonValue::Array(active)),
        ];
        Ok(JsonValue::Object(v))
    }

    fn process_instance_withdraw(&mut self, args: &FlowData) -> (r: JeeflowResult<JsonValue>)
        ensures
            id_arg_error(*args, seq!["processInstanceId"@, "id"@], "缺少id参数"@) matches Some(m) ==> fails_with(r, m),
    {
        let id = need_id2(args, "processInstanceId", "id", "缺少id参数")?;
        let mut inst = match self.engine.ctx.repository.find_instance_by_id(id)? {
            Some(i) => i,
            None => {
                return Err(JeeflowError::InstanceNotFound(id));
            },
        };
        inst.withdraw();
        self.engine.ctx.repository.update_instance(&inst)?;
        let mut i: usize = 0;
        while i < inst.tasks.len()
            invariant
                id_arg_error(*args, seq!["processInstanceId"@, "id"@], "缺少id参数"@) is None,
            decreases inst.tasks.len() - i,
        {
            if inst.tasks[i].task_state == crate::model::TASK_DOING {
                let mut t = inst.tasks[i].dup();
                t.withdraw();
                self.engine.ctx.repository.update_task(&t)?;
            }
            i = i + 1;
        }
        let v = vec![kv("id", num(id)), kv("state", num(inst.state as i64))];
        Ok(JsonValue::Object(v))
    }

    fn process_instance_high_light(&self, args: &FlowData) -> (r: JeeflowResult<JsonValue>)
        ensures
            id_arg_error(*args, seq!["processInstanceId"@, "id"@], "缺少id参数"@) matches Some(m) ==> fails_with(r, m),
    {
        let id = need_id2(args, "processInstanceId", "id", "缺少id参数")?;
        let inst = match self.engine.ctx.repository.find_instance_by_id(id)? {
            Some(i) => i,
            None => {
                return Err(JeeflowError::InstanceNotFound(id));
            },
        };
        let doing = self.engine.ctx.repository.find_doing_tasks(id, &[])?;
        let active = active_names(&doing);
        let history_tasks = self.engine.ctx.repository.find_history_tasks(id)?;
        let mut history = unique_names(&history_tasks, &active);
        let mut edges: Vec<String> = Vec::new();
        let mut node_progress = JsonValue::Object(Vec::new());
        match self.engine.ctx.repository.find_define_by_id(inst.define_id)? {
            Some(def) => match ModelParser::parse(def.content_str().as_str()) {
                Ok(model) => {
                    node_progress = build_node_progress(&model, &history_tasks);
                    match model.get_start() {
                        Some(start) => {
                            let mut visited: Vec<String> = Vec::new();
                            crate::facade::collect_high_light_path(
                                &model,
                                start.id.as_str(),
                                active.as_slice(),
                                &mut history,
                                &mut edges,
                                &mut visited,
                            );
                        },
                        None => {},
                    }
                },
                Err(_) => {},
            },
            None => {},
        }
        let v = vec![
            kv("activeNodeNames", crate::vo::strings_to_json(&active)),
            kv("historyNodeNames", crate::vo::strings_to_json(&history)),
            kv("historyEdgeNames", crate::vo::strings_to_json(&edges)),
            kv("nodeProgress", node_progress),
        ];
        Ok(JsonValue::Object(v))
    }

    fn process_instance_approval_record(&self, args: &FlowData) -> (r: JeeflowResult<JsonValue>)
        ensures
            id_arg_error(*args, seq!["processInstanceId"@, "id"@], "缺少id参数"@) matches Some(m) ==> fails_with(r, m),
    {
        let id = need_id2(args, "processInstanceId", "id", "缺少id参数")?;
        let inst = match self.engine.ctx.repository.find_instance_by_id(id)? {
            Some(i) => i,
            None => {
                return Err(JeeflowError::InstanceNotFound(id));
            },
        };
        let tasks = self.engine.ctx.repository.find_history_tasks(id)?;
        let mut records: Vec<JsonValue> = Vec::new();
        let mut i: usize = 0;
        while i < tasks.len()
            decreases tasks.len() - i,
        {
            let t = &tasks[i];
            let ext = if t.variables.len() == 0 {
                crate::vo::flow_data_to_object(&inst.variables)
            } else {
                crate::vo::flow_data_to_object(&t.variables)
            };
            let v = vec![
                kv("task_name", JsonValue::string(t.task_name.as_str())),
                kv("display_name", JsonValue::string(t.display_name.as_str())),
                kv("task_type", num(t.task_type as i64)),
                kv("perform_type", num(t.perform_type as i64)),
                kv("task_state", num(t.task_state as i64)),
                kv("operator", opt_text(&t.actor_id)),
                kv("finish_time", opt_text(&t.finish_time)),
                kv("variable", crate::vo::flow_data_to_object(&t.variables)),
                kv("ext", ext),
            ];
            records.push(JsonValue::Object(v));
            i = i + 1;
        }
        Ok(JsonValue::Array(records))
    }

    fn process_instance_get_assignee_text_data(&self, args: &FlowData) -> (r: JeeflowResult<JsonValue>)
        ensures
            id_arg_error(*args, seq!["processInstanceId"@, "id"@], "缺少id参数"@) matches Some(m) ==> fails_with(r, m),
    {
        let id = need_id2(args, "processInstanceId", "id", "缺少id参数")?;
        let include_node_name = match args.get("includeNodeName") {
            Some(v) => match v.as_bool() {
                Some(b) => b,
                None => true,
            },
            None => true,
        };
        let doing = self.engine.ctx.repository.find_doing_tasks(id, &[])?;
        let mut rows: Vec<JsonValue> = Vec::new();
        let mut i: usize = 0;
        while i < doing.len()
            invariant
                id_arg_error(*args, seq!["processInstanceId"@, "id"@], "缺少id参数"@) is None,
            decreases doing.len() - i,
        {
            let t = &doing[i];
            let actors = self.engine.ctx.repository.find_task_actors(t.task_id)?;
            let mut a: usize = 0;
            while a < actors.len()
                decreases actors.len() - a,
            {
                let label = crate::actions::assignee_label(t.display_name.as_str(), actors[a].as_str(), include_node_name);
                let v = vec![kv("value", JsonValue::Str(actors[a].clone())), kv("label", JsonValue::Str(label))];
                rows.push(JsonValue::Object(v));
                a = a + 1;
            }
            i = i + 1;
        }
        Ok(JsonValue::Array(rows))
    }

    fn process_instance_biz_data(&self, args: &FlowData) -> (r: JeeflowResult<JsonValue>)
        ensures
            id_arg_error(*args, seq!["processInstanceId"@, "id"@], "processInstanceId 缺失"@) matches Some(m) ==> fails_with(r, m),
    {
        let id = need_id2(args, "processInstanceId", "id", "processInstanceId 缺失")?;
        let inst = match self.engine.ctx.repository.find_instance_by_id(id)? {
            Some(i) => i,
            None => {
                return Err(JeeflowError::InstanceNotFound(id));
            },
        };
        let define = match self.engine.ctx.repository.find_define_by_id(inst.define_id)? {
            Some(d) => d,
            None => {
                return Err(JeeflowError::DefineNotFound(inst.define_id));
            },
        };
        let table_name = match resolve_rel_table_name(define.content_str().as_str()) {
            Some(t) => t,
            None => {
                return Err(biz("流程定义未配置 relTableName"));
            },
        };
        let reader = match &self.engine.ctx.biz_data_reader {
            Some(r) => r,
            None => {
                return Err(biz("业务数据读取器未注册（ServiceContext.with_biz_data_reader(...)，需集成层注入 SqlxBizDataReader）"));
            },
        };
        match reader.read_by_process_instance(table_name.as_str(), id)? {
            Some(row) => Ok(crate::vo::flow_data_to_object(&row)),
            None => Ok(JsonValue::Null),
        }
    }

    fn process_instance_create_cc(&mut self, args: &FlowData) -> (r: JeeflowResult<JsonValue>)
        ensures
            id_arg_error(*args, seq!["processInstanceId"@, "id"@], "缺少processInstanceId参数"@) matches Some(m) ==> fails_with(r, m),
            id_arg_error(*args, seq!["processInstanceId"@, "id"@], "缺少processInstanceId参数"@) is None
                && crate::actions::arg_actor_ids_spec(*args).len() == 0 ==> fails_with(r, "actorIds 缺失"@),
    {
        let id = need_id2(args, "processInstanceId", "id", "缺少processInstanceId参数")?;
        let operator = arg_str_or(args, "operator", "user1");
        let actors = arg_actor_ids(args);
        if actors.len() == 0 {
            return Err(biz("actorIds 缺失"));
        }
        self.engine.ctx.repository.create_cc_instance(id, operator.as_str(), actors.as_slice())?;
        Ok(empty_object())
    }

    fn process_instance_update_cc_status(&mut self, args: &FlowData) -> (r: JeeflowResult<JsonValue>)
        ensures
            id_arg_error(*args, seq!["processInstanceId"@, "id"@], "缺少processInstanceId参数"@) matches Some(m) ==> fails_with(r, m),
    {
        let id = need_id2(args, "processInstanceId", "id", "缺少processInstanceId参数")?;
        let operator = arg_str_or(args, "operator", "user1");
        self.engine.ctx.repository.update_cc_status(id, operator.as_str())?;
        Ok(empty_object())
    }
}

/// A candidate row: the actor and its real name (the actor when blank), with the user id,
/// user name and department name a looked-up user record holds.
pub fn candidate_row(actor_id: &str, real_name: &str, extra: Option<&JsonValue>) -> (r: JsonValue)
    ensures
        jview(r) is Object,
{
    let shown = if crate::text::chars_of(real_name).len() == 0 { actor_id } else { real_name };
    let mut row = vec![kv("id", JsonValue::string(actor_id)), kv("realName", JsonValue::string(shown))];
    match extra {
        Some(JsonValue::Object(_)) => {
            let src = extra.unwrap();
            let pairs: [(&str, &str, &str); 3] = [("userId", "userId", "user_id"), ("userName", "userName", "user_name"), ("deptName", "deptName", "dept_name")];
            let mut i: usize = 0;
            while i < 3
                decreases 3 - i,
            {
                let (out_key, a, b) = pairs[i];
                let v = match src.get(a) {
                    Some(v) => Some(v),
                    None => src.get(b),
                };
                match v {
                    Some(v) => obj_insert(&mut row, out_key, v.dup()),
                    None => {},
                }
                i = i + 1;
            }
        },
        _ => {},
    }
    JsonValue::Object(row)
}

/// The text of a search row's field: a text as it is, an integer as its digits.
fn id_text_of_value(v: &JsonValue) -> (r: Option<String>)
    ensures
        crate::model::opt_view(r) == match jview(*v) {
            JView::Str(t) => Some(t),
            JView::Number(m, s) => if s == 0 && i64::MIN <= m <= i64::MAX {
                Some(crate::text::int_text(m))
            } else {
                None::<Seq<char>>
            },
            _ => None::<Seq<char>>,
        },
{
    match v {
        JsonValue::Str(s) => Some(s.clone()),
        JsonValue::Number(n) => {
            if n.scale == 0 && n.mantissa >= i64::MIN as i128 && n.mantissa <= i64::MAX as i128 {
                Some(crate::text::i64_text(n.mantissa as i64))
            } else {
                None
            }
        },
        _ => None,
    }
}

impl<R: ProcessRepository + ProcessExtRepository, G: IdGenerator> JeeflowFacade<R, G> {
    fn process_task_list(&self, args: &FlowData, done: bool) -> (r: JeeflowResult<JsonValue>)
        ensures
            page_args_error(*args) matches Some(m) ==> fails_with(r, m),
    {
        let page_num = arg_i64_or(args, "pageNum", 1)?;
        let page_size = arg_i64_or(args, "pageSize", 20)?;
        let filters = parse_m_params(args);
        let mut query = PageQuery::new(page_num, page_size);
        query.operator = if done {
            arg_str(args, "operator")
        } else {
            match arg_str(args, "operator") {
                Some(o) => Some(o),
                None => arg_str(args, "userId"),
            }
        };
        let fits = if done {
            self.engine.ctx.repository.done_page_fits(&query)
        } else {
            self.engine.ctx.repository.todo_page_fits(&query)
        };
        if !fits {
            return Err(out_of_range());
        }
        let page = if done {
            self.engine.ctx.repository.page_done_tasks(&query)?
        } else {
            self.engine.ctx.repository.page_todo_tasks(&query)?
        };
        let mut rows: Vec<JsonValue> = Vec::new();
        let mut i: usize = 0;
        while i < page.rows.len()
            decreases page.rows.len() - i,
        {
            rows.push(crate::vo::task_row_to_json(&page.rows[i]));
            i = i + 1;
        }
        page_envelope(rows, filters.as_slice(), page_num, page_size)
    }

    fn process_task_execute(&mut self, args: &FlowData) -> (r: JeeflowResult<JsonValue>)
        ensures
            crate::actions::arg_i64_spec(args.lookup("processTaskId"@)) == Ok::<Option<i64>, Seq<char>>(None)
                && crate::actions::arg_i64_spec(args.lookup("id"@)) == Ok::<Option<i64>, Seq<char>>(None)
                ==> fails_with(r, "缺少processTaskId参数"@),
    {
        let first = arg_i64(args, "processTaskId")?;
        let second = arg_i64(args, "id")?;
        let task_id = match first {
            Some(n) => n,
            None => match second {
                Some(n) => n,
                None => {
                    return Err(biz("缺少processTaskId参数"));
                },
            },
        };
        let operator = arg_str_or(args, "operator", "user1");
        let submit_type = arg_i64_or(args, "submitType", 1)?;
        let mut flow_data = args_to_flow_data(args);
        flow_data.insert_i64("submitType", submit_type);
        let new_tasks = if submit_type == 2 {
            self.engine.execute_and_jump_to_end_async(task_id, operator.as_str(), &flow_data)?;
            Vec::new()
        } else if submit_type == 3 {
            self.engine.execute_and_jump_async(task_id, operator.as_str(), &flow_data, None)?
        } else if submit_type == 4 {
            let task_name = arg_str(args, "taskName");
            match &task_name {
                Some(t) => self.engine.execute_and_jump_async(task_id, operator.as_str(), &flow_data, Some(t.as_str()))?,
                None => self.engine.execute_and_jump_async(task_id, operator.as_str(), &flow_data, None)?,
            }
        } else if submit_type == 6 {
            self.engine.execute_and_jump_to_first_async(task_id, operator.as_str(), &flow_data)?;
            Vec::new()
        } else if submit_type == 20 {
            flow_data.insert_i64("countersignDisagreeFlag", 1);
            self.engine.execute_task_async(task_id, operator.as_str(), &flow_data)?
        } else {
            self.engine.execute_task_async(task_id, operator.as_str(), &flow_data)?
        };
        let mut ids: Vec<JsonValue> = Vec::new();
        let mut i: usize = 0;
        while i < new_tasks.len()
            decreases new_tasks.len() - i,
        {
            ids.push(num(new_tasks[i].task_id));
            i = i + 1;
        }
        let v = vec![kv("task_ids", JsonValue::Array(ids))];
        Ok(JsonValue::Object(v))
    }

    fn process_task_detail(&self, args: &FlowData) -> (r: JeeflowResult<JsonValue>)
        ensures
            id_arg_error(*args, seq!["processTaskId"@, "id"@], "缺少id参数"@) matches Some(m) ==> fails_with(r, m),
    {
        let id = need_id2(args, "processTaskId", "id", "缺少id参数")?;
        let operator = arg_str_or(args, "operator", "user1");
        let task = match self.engine.ctx.repository.find_task_by_id(id)? {
            Some(t) => t,
            None => {
                return Err(JeeflowError::TaskNotFound(id));
            },
        };
        let actors = self.engine.ctx.repository.find_task_actors(id)?;
        let mut vo = match crate::vo::task_vo(&task) {
            JsonValue::Object(es) => es,
            _ => Vec::new(),
        };
        obj_insert(&mut vo, "task_actor_id_list", crate::vo::strings_to_json(&actors));
        obj_insert(&mut vo, "executable", JsonValue::Bool(task.is_allowed(operator.as_str())));
        let doing = task.task_state == crate::model::TASK_DOING;
        let mut t_ext = match crate::vo::flow_data_to_object(&task.variables) {
            JsonValue::Object(es) => es,
            _ => Vec::new(),
        };
        obj_insert(&mut t_ext, "isFirstTaskNode", JsonValue::Bool(false));
        match self.engine.ctx.repository.find_instance_by_id(task.process_instance_id)? {
            Some(inst) => match self.engine.ctx.repository.find_define_by_id(inst.define_id)? {
                Some(def) => {
                    let content = def.content_str();
                    let json_object = parse_graph(content.as_str());
                    let graph = match &json_object {
                        Some(g) => g.dup(),
                        None => JsonValue::Null,
                    };
                    obj_insert(&mut vo, "json_object", graph);
                    let is_first = doing && match &json_object {
                        Some(g) => match crate::vo::first_task_node_id(g) {
                            Some(n) => str_eq(n.as_str(), task.task_name.as_str()),
                            None => false,
                        },
                        None => false,
                    };
                    obj_insert(&mut t_ext, "isFirstTaskNode", JsonValue::Bool(is_first));
                    match ModelParser::parse(content.as_str()) {
                        Ok(model) => {
                            let nodes = model.get_nodes_by_type(crate::parser::NodeType::Task);
                            let mut k: usize = 0;
                            while k < nodes.len()
                                decreases nodes.len() - k,
                            {
                                let node = nodes[k];
                                if str_eq(node.id.as_str(), task.task_name.as_str()) {
                                    let ext_prop = match node.properties.get("ext") {
                                        Some(v) => v.dup(),
                                        None => JsonValue::Null,
                                    };
                                    let form = match node.form_key() {
                                        Some(f) => JsonValue::Str(f),
                                        None => JsonValue::Null,
                                    };
                                    let tm = vec![
                                        kv("name", JsonValue::string(node.id.as_str())),
                                        kv("display_name", JsonValue::string(node.display_name.as_str())),
                                        kv("type", JsonValue::string("task")),
                                        kv("form", form),
                                        kv("ext", ext_prop),
                                    ];
                                    obj_insert(&mut vo, "task_model", JsonValue::Object(tm));
                                    break;
                                }
                                k = k + 1;
                            }
                        },
                        Err(_) => {},
                    }
                },
                None => {},
            },
            None => {},
        }
        obj_insert(&mut vo, "ext", JsonValue::Object(t_ext));
        Ok(JsonValue::Object(vo))
    }

    fn process_task_jump_able_task_name_list(&self, args: &FlowData) -> (r: JeeflowResult<JsonValue>)
        ensures
            id_arg_error(*args, seq!["processInstanceId"@, "id"@], "缺少processInstanceId参数"@) matches Some(m) ==> fails_with(r, m),
    {
        let instance_id = need_id2(args, "processInstanceId", "id", "缺少processInstanceId参数")?;
        let done = self.engine.ctx.repository.find_done_tasks(instance_id, &[])?;
        let targets = crate::actions::jump_able_task_names(done.as_slice());
        let mut rows: Vec<JsonValue> = Vec::new();
        let mut i: usize = 0;
        while i < targets.len()
            decreases targets.len() - i,
        {
            let v = vec![
                kv("label", JsonValue::Str(targets[i].0.clone())),
                kv("value", JsonValue::Str(targets[i].1.clone())),
            ];
            rows.push(JsonValue::Object(v));
            i = i + 1;
        }
        Ok(JsonValue::Array(rows))
    }

    fn process_task_candidate_page(&self, args: &FlowData) -> (r: JeeflowResult<JsonValue>)
        ensures
            id_arg_error(*args, seq!["processTaskId"@, "id"@], "processTaskId 缺失"@) matches Some(m) ==> fails_with(r, m),
    {
        let task_id = need_id2(args, "processTaskId", "id", "processTaskId 缺失")?;
        let task = match self.engine.ctx.repository.find_task_by_id(task_id)? {
            Some(t) => t,
            None => {
                return Err(JeeflowError::TaskNotFound(task_id));
            },
        };
        let inst = match self.engine.ctx.repository.find_instance_by_id(task.process_instance_id)? {
            Some(i) => i,
            None => {
                return Err(JeeflowError::InstanceNotFound(task.process_instance_id));
            },
        };
        let def = match self.engine.ctx.repository.find_define_by_id(inst.define_id)? {
            Some(d) => d,
            None => {
                return Err(JeeflowError::DefineNotFound(inst.define_id));
            },
        };
        let page_num = arg_i64_or(args, "pageNum", 1)?;
        let page_size = arg_i64_or(args, "pageSize", 10)?;
        let static_actors = match ModelParser::parse(def.content_str().as_str()) {
            Ok(model) => crate::facade::collect_static_candidate_actors(&model, task.task_name.as_str()),
            Err(_) => Vec::new(),
        };
        if static_actors.len() > 0 {
            let mut rows: Vec<JsonValue> = Vec::new();
            let mut i: usize = 0;
            while i < static_actors.len()
                decreases static_actors.len() - i,
            {
                let actor = &static_actors[i];
                let mut real_name = actor.clone();
                let mut extra: Option<JsonValue> = None;
                match &self.engine.ctx.user_search_provider {
                    Some(usp) => match usp.find_by_id(actor.as_str()) {
                        Ok(Some(u)) => {
                            let map = crate::vo::flow_data_to_object(&u);
                            let rn = match map.get("realName") {
                                Some(v) => Some(v),
                                None => map.get("real_name"),
                            };
                            match rn {
                                Some(JsonValue::Str(t)) => {
                                    real_name = t.clone();
                                },
                                _ => {},
                            }
                            extra = Some(map);
                        },
                        _ => {},
                    },
                    None => {},
                }
                if extra.is_none() {
                    match &self.engine.ctx.user_provider {
                        Some(up) => match up.get_user(actor.as_str()) {
                            Ok(Some(info)) => {
                                real_name = info.real_name.clone();
                                let v = vec![
                                    kv("userId", JsonValue::Str(info.user_id)),
                                    kv("realName", JsonValue::Str(info.real_name)),
                                    kv("deptName", JsonValue::Str(info.dept_name)),
                                ];
                                extra = Some(JsonValue::Object(v));
                            },
                            _ => {},
                        },
                        None => {},
                    }
                }
                let row = match &extra {
                    Some(e) => candidate_row(actor.as_str(), real_name.as_str(), Some(e)),
                    None => candidate_row(actor.as_str(), real_name.as_str(), None),
                };
                rows.push(row);
                i = i + 1;
            }
            if rows.len() as u128 > i64::MAX as u128 - 10 {
                return Err(out_of_range());
            }
            let n = rows.len() as i64;
            let page = PageResult::new(1, 10, n, rows);
            return Ok(page_to_json(page));
        }
        let usp = match &self.engine.ctx.user_search_provider {
            Some(u) => u,
            None => {
                return Err(biz("未配置 IUserSearchProvider（用户搜索钩子）"));
            },
        };
        let mut query = PageQuery::new(page_num, page_size);
        query.operator = arg_str(args, "operator");
        let page = usp.page(&query)?;
        let mut rows: Vec<JsonValue> = Vec::new();
        let mut i: usize = 0;
        while i < page.rows.len()
            decreases page.rows.len() - i,
        {
            let map = crate::vo::flow_data_to_object(&page.rows[i]);
            let idv = match map.get("id") {
                Some(v) => Some(v),
                None => match map.get("userId") {
                    Some(v) => Some(v),
                    None => map.get("user_id"),
                },
            };
            let id = match idv {
                Some(v) => match id_text_of_value(v) {
                    Some(t) => t,
                    None => String::new(),
                },
                None => String::new(),
            };
            let rv = match map.get("realName") {
                Some(v) => Some(v),
                None => map.get("real_name"),
            };
            let real_text = match rv {
                Some(JsonValue::Str(t)) => t.clone(),
                _ => id.clone(),
            };
            rows.push(candidate_row(id.as_str(), real_text.as_str(), Some(&map)));
            i = i + 1;
        }
        let rc = page.record_count;
        let ps = page.page_size;
        if rc != 0 {
            if ps == 0 || (rc as i128) + (ps as i128) > i64::MAX as i128 || (rc as i128) + (ps as i128) - 1 < i64::MIN as i128
                || ((rc as i128) + (ps as i128) - 1 == i64::MIN as i128 && ps == -1) {
                return Err(out_of_range());
            }
        }
        let result = PageResult::new(page.page_num, ps, rc, rows);
        Ok(page_to_json(result))
    }

    fn process_task_surrogate(&mut self, args: &FlowData) -> (r: JeeflowResult<JsonValue>)
        ensures
            id_arg_error(*args, seq!["processTaskId"@, "id"@], "processTaskId/actorIds 缺失"@) matches Some(m) ==> fails_with(r, m),
            id_arg_error(*args, seq!["processTaskId"@, "id"@], "processTaskId/actorIds 缺失"@) is None
                && crate::actions::arg_actor_ids_spec(*args).len() == 0 ==> fails_with(r, "processTaskId/actorIds 缺失"@),
    {
        let task_id = need_id2(args, "processTaskId", "id", "processTaskId/actorIds 缺失")?;
        let actors = arg_actor_ids(args);
        if actors.len() == 0 {
            return Err(biz("processTaskId/actorIds 缺失"));
        }
        self.engine.ctx.repository.add_task_actor(task_id, actors.as_slice())?;
        Ok(empty_object())
    }

    fn process_task_latest(&self, args: &FlowData) -> (r: JeeflowResult<JsonValue>)
        ensures
            id_arg_error(*args, seq!["processInstanceId"@, "instanceId"@, "id"@], "缺少processInstanceId参数"@) matches Some(m) ==> fails_with(r, m),
    {
        let instance_id = need_id3(args, "processInstanceId", "instanceId", "id", "缺少processInstanceId参数")?;
        let tasks = self.engine.ctx.repository.find_doing_tasks(instance_id, &[])?;
        if tasks.len() > 0 {
            Ok(crate::vo::task_vo(&tasks[0]))
        } else {
            Ok(JsonValue::Null)
        }
    }
}

/// Whether two byte strings are equal.
fn bytes_eq(a: &Vec<u8>, b: &Vec<u8>) -> (r: bool)
    ensures
        r == (a@ == b@),
{
    if a.len() != b.len() {
        return false;
    }
    let mut i: usize = 0;
    while i < a.len()
        invariant
            0 <= i <= a.len(),
            a.len() == b.len(),
            forall|j: int| 0 <= j < i ==> a@[j] == b@[j],
        decreases a.len() - i,
    {
        if a[i] != b[i] {
            return false;
        }
        i = i + 1;
    }
    assert(a@ =~= b@);
    true
}

/// Set `k` of an object's entries to `v` unless the key is already there.
pub fn obj_insert_absent(es: &mut Vec<(String, JsonValue)>, k: &str, v: JsonValue)
    ensures
        crate::json::entry_lookup(crate::json::jview_entries(final(es)@), k@) is Some,
        crate::json::entry_lookup(crate::json::jview_entries(old(es)@), k@) is Some ==> final(es)@ == old(es)@,
{
    let mut i: usize = 0;
    while i < es.len()
        invariant
            0 <= i <= es.len(),
            forall|j: int| 0 <= j < i ==> es@[j].0@ != k@,
        decreases es.len() - i,
    {
        if str_eq(es[i].0.as_str(), k) {
            proof {
                crate::json::lemma_jview_entries(es@);
                crate::json::lemma_entry_lookup_first(crate::json::jview_entries(es@), k@, i as int);
            }
            return;
        }
        i = i + 1;
    }
    proof {
        crate::json::lemma_jview_entries(es@);
        crate::json::lemma_entry_lookup_none(crate::json::jview_entries(es@), k@);
    }
    obj_insert(es, k, v);
}

/// The index of the first define of `name` with the greatest version.
fn first_latest_index(rows: &Vec<DefineRow>, name: &str) -> (r: Option<usize>)
    ensures
        r matches Some(i) ==> i < rows@.len() && rows@[i as int].name@ == name@,
        r is None <==> forall|j: int| 0 <= j < rows@.len() ==> rows@[j].name@ != name@,
        r matches Some(i) ==> forall|j: int| 0 <= j < rows@.len() && rows@[j].name@ == name@ ==> (
            rows@[j].version <= rows@[i as int].version && (j < i ==> rows@[j].version < rows@[i as int].version)),
{
    let mut best: Option<usize> = None;
    let mut i: usize = 0;
    while i < rows.len()
        invariant
            0 <= i <= rows.len(),
            best matches Some(b) ==> b < i && rows@[b as int].name@ == name@,
            best is None <==> forall|j: int| 0 <= j < i ==> rows@[j].name@ != name@,
            best matches Some(b) ==> forall|j: int| 0 <= j < i && rows@[j].name@ == name@ ==> (
                rows@[j].version <= rows@[b as int].version && (j < b ==> rows@[j].version < rows@[b as int].version)),
        decreases rows.len() - i,
    {
        if str_eq(rows[i].name.as_str(), name) {
            match best {
                Some(b) => {
                    if rows[b].version < rows[i].version {
                        best = Some(i);
                    }
                },
                None => {
                    best = Some(i);
                },
            }
        }
        i = i + 1;
    }
    best
}

impl<R: ProcessRepository + ProcessExtRepository, G: IdGenerator> JeeflowFacade<R, G> {
    fn process_design_page(&self, args: &FlowData) -> (r: JeeflowResult<JsonValue>)
        ensures
            !self.engine.ctx.ext_repository ==> r matches Err(JeeflowError::Internal(_)),
    {
        self.need_ext()?;
        let page_num = arg_i64_or(args, "pageNum", 1)?;
        let page_size = arg_i64_or(args, "pageSize", 20)?;
        let filters = parse_m_params(args);
        let query = PageQuery::new(page_num, page_size);
        if !self.engine.ctx.repository.design_page_fits(&query) {
            return Err(out_of_range());
        }
        let page = self.engine.ctx.repository.page_designs(&query)?;
        let mut rows: Vec<JsonValue> = Vec::new();
        let mut i: usize = 0;
        while i < page.rows.len()
            invariant
                self.engine.ctx.ext_repository,
            decreases page.rows.len() - i,
        {
            rows.push(crate::vo::design_to_json(&page.rows[i]));
            i = i + 1;
        }
        page_envelope(rows, filters.as_slice(), page_num, page_size)
    }

    fn process_design_detail(&self, args: &FlowData) -> (r: JeeflowResult<JsonValue>)
        ensures
            !self.engine.ctx.ext_repository ==> r matches Err(JeeflowError::Internal(_)),
            self.engine.ctx.ext_repository ==> (id_arg_error(*args, seq!["processDesignId"@, "id"@], "缺少id参数"@) matches Some(m) ==> fails_with(r, m)),
    {
        self.need_ext()?;
        let id = need_id2(args, "processDesignId", "id", "缺少id参数")?;
        let design = match self.engine.ctx.repository.find_design_by_id(id)? {
            Some(d) => d,
            None => {
                return Err(biz("流程设计不存在"));
            },
        };
        let his_list = self.engine.ctx.repository.list_design_his(id)?;
        let parsed = if his_list.len() > 0 {
            let text = crate::model::utf8_lossy(his_list[0].content.as_slice());
            parse_graph(text.as_str())
        } else {
            None
        };
        let json_object = match parsed {
            Some(JsonValue::Object(mut es)) => {
                obj_insert_absent(&mut es, "name", JsonValue::string(design.name.as_str()));
                obj_insert_absent(&mut es, "displayName", JsonValue::string(design.display_name.as_str()));
                obj_insert_absent(&mut es, "type", JsonValue::string(design.design_type.as_str()));
                obj_insert_absent(&mut es, "processDesignId", num(design.id));
                JsonValue::Object(es)
            },
            Some(other) => other,
            None => {
                let mut es: Vec<(String, JsonValue)> = Vec::new();
                es.push(kv("name", JsonValue::string(design.name.as_str())));
                es.push(kv("displayName", JsonValue::string(design.display_name.as_str())));
                es.push(kv("type", JsonValue::string(design.design_type.as_str())));
                es.push(kv("processDesignId", num(design.id)));
                JsonValue::Object(es)
            },
        };
        let mut his: Vec<JsonValue> = Vec::new();
        let mut i: usize = 0;
        while i < his_list.len()
            invariant
                self.engine.ctx.ext_repository,
            decreases his_list.len() - i,
        {
            his.push(crate::vo::design_his_to_json(&his_list[i]));
            i = i + 1;
        }
        let mut data = match crate::vo::design_to_json(&design) {
            JsonValue::Object(es) => es,
            _ => Vec::new(),
        };
        obj_insert(&mut data, "json_object", json_object);
        obj_insert(&mut data, "his", JsonValue::Array(his));
        Ok(JsonValue::Object(data))
    }

    fn process_design_save(&mut self, args: &FlowData) -> (r: JeeflowResult<JsonValue>)
        ensures
            !old(self).engine.ctx.ext_repository ==> r matches Err(JeeflowError::Internal(_)),
    {
        self.need_ext()?;
        let operator = arg_str_or(args, "operator", "user1");
        let id_opt = arg_id(args, &["processDesignId", "id"])?;
        let design_type = match arg_str(args, "type") {
            Some(t) => t,
            None => match arg_str(args, "designType") {
                Some(t) => t,
                None => owned("approval"),
            },
        };
        let content = content_bytes(args);
        let design_id = match id_opt {
            Some(id) => {
                let mut design = match self.engine.ctx.repository.find_design_by_id(id)? {
                    Some(d) => d,
                    None => {
                        return Err(biz("流程设计不存在"));
                    },
                };
                match arg_str(args, "displayName") {
                    Some(v) => {
                        design.display_name = v;
                    },
                    None => {},
                }
                if args.contains_key("type") || args.contains_key("designType") {
                    design.design_type = design_type;
                }
                match arg_str(args, "icon") {
                    Some(v) => {
                        design.icon = Some(v);
                    },
                    None => {},
                }
                match arg_str(args, "remark") {
                    Some(v) => {
                        design.remark = Some(v);
                    },
                    None => {},
                }
                design.update_user = Some(operator.clone());
                if content.is_some() {
                    design.is_deployed = 0;
                }
                self.engine.ctx.repository.update_design(&design)?;
                design.id
            },
            None => {
                let mut design = crate::model::ProcessDesign {
                    id: 0,
                    name: arg_str_or(args, "name", ""),
                    display_name: arg_str_or(args, "displayName", ""),
                    design_type,
                    icon: arg_str(args, "icon"),
                    is_deployed: 0,
                    remark: arg_str(args, "remark"),
                    create_time: None,
                    create_user: Some(operator.clone()),
                    update_time: None,
                    update_user: Some(operator.clone()),
                };
                self.engine.ctx.repository.save_design(&mut design)?;
                design.id
            },
        };
        match content {
            Some(bytes) => {
                let mut his = crate::model::ProcessDesignHis {
                    id: 0,
                    process_design_id: design_id,
                    content: bytes,
                    create_time: None,
                    create_user: Some(operator),
                };
                self.engine.ctx.repository.save_design_his(&mut his)?;
            },
            None => {},
        }
        Ok(one_number("id", design_id))
    }

    fn process_design_update(&mut self, args: &FlowData) -> (r: JeeflowResult<JsonValue>)
        ensures
            !old(self).engine.ctx.ext_repository ==> r matches Err(JeeflowError::Internal(_)),
            old(self).engine.ctx.ext_repository ==> (id_arg_error(*args, seq!["processDesignId"@, "id"@], "缺少id参数"@) matches Some(m) ==> fails_with(r, m)),
    {
        self.need_ext()?;
        let id = need_id2(args, "processDesignId", "id", "缺少id参数")?;
        let mut design = match self.engine.ctx.repository.find_design_by_id(id)? {
            Some(d) => d,
            None => {
                return Err(biz("流程设计不存在"));
            },
        };
        match arg_str(args, "name") {
            Some(v) => {
                design.name = v;
            },
            None => {},
        }
        match arg_str(args, "displayName") {
            Some(v) => {
                design.display_name = v;
            },
            None => {},
        }
        let t = match arg_str(args, "type") {
            Some(v) => Some(v),
            None => arg_str(args, "designType"),
        };
        match t {
            Some(v) => {
                design.design_type = v;
            },
            None => {},
        }
        match arg_str(args, "icon") {
            Some(v) => {
                design.icon = Some(v);
            },
            None => {},
        }
        match arg_str(args, "remark") {
            Some(v) => {
                design.remark = Some(v);
            },
            None => {},
        }
        design.update_user = Some(arg_str_or(args, "operator", "system"));
        self.engine.ctx.repository.update_design(&design)?;
        Ok(empty_object())
    }

    fn process_design_update_define(&mut self, args: &FlowData) -> (r: JeeflowResult<JsonValue>)
        ensures
            !old(self).engine.ctx.ext_repository ==> r matches Err(JeeflowError::Internal(_)),
            old(self).engine.ctx.ext_repository ==> (id_arg_error(*args, seq!["processDesignId"@, "id"@], "缺少processDesignId参数"@) matches Some(m) ==> fails_with(r, m)),
    {
        self.need_ext()?;
        let design_id = need_id2(args, "processDesignId", "id", "缺少processDesignId参数")?;
        let mut design = match self.engine.ctx.repository.find_design_by_id(design_id)? {
            Some(d) => d,
            None => {
                return Err(biz("流程设计不存在"));
            },
        };
        let bytes = match content_bytes(args) {
            Some(b) => b,
            None => {
                return Err(biz("content 缺失"));
            },
        };
        let his_list = self.engine.ctx.repository.list_design_his(design_id)?;
        let same = his_list.len() > 0 && bytes_eq(&his_list[0].content, &bytes);
        if !same {
            let mut his = crate::model::ProcessDesignHis {
                id: 0,
                process_design_id: design_id,
                content: bytes.clone(),
                create_time: None,
                create_user: Some(arg_str_or(args, "operator", "system")),
            };
            self.engine.ctx.repository.save_design_his(&mut his)?;
        }
        let text = crate::model::utf8_lossy(bytes.as_slice());
        match ModelParser::parse(text.as_str()) {
            Ok(model) => {
                design.name = model.name;
                design.display_name = model.display_name;
                design.design_type = model.model_type;
            },
            Err(_) => {},
        }
        design.is_deployed = 0;
        design.update_user = Some(arg_str_or(args, "operator", "system"));
        self.engine.ctx.repository.update_design(&design)?;
        Ok(empty_object())
    }

    fn process_design_remove(&mut self, args: &FlowData) -> (r: JeeflowResult<JsonValue>)
        ensures
            !old(self).engine.ctx.ext_repository ==> r matches Err(JeeflowError::Internal(_)),
    {
        self.need_ext()?;
        let listed = arg_ids(args)?;
        let ids = if listed.len() == 0 {
            match arg_id(args, &["processDesignId", "id"])? {
                Some(id) => vec![id],
                None => {
                    return Err(biz("缺少id参数"));
                },
            }
        } else {
            listed
        };
        let mut i: usize = 0;
        while i < ids.len()
            invariant
                old(self).engine.ctx.ext_repository,
            decreases ids.len() - i,
        {
            self.engine.ctx.repository.remove_design(ids[i])?;
            i = i + 1;
        }
        Ok(empty_object())
    }

    /// The newest history content of a design, or the error a publish of an empty design gives.
    fn newest_content(&self, design_id: i64) -> (r: JeeflowResult<Vec<u8>>) {
        let his_list = self.engine.ctx.repository.list_design_his(design_id)?;
        if his_list.len() == 0 {
            return Err(biz("流程设计没有内容，无法发布"));
        }
        Ok(his_list[0].content.clone())
    }

    fn process_design_deploy(&mut self, args: &FlowData) -> (r: JeeflowResult<JsonValue>)
        ensures
            !old(self).engine.ctx.ext_repository ==> r matches Err(JeeflowError::Internal(_)),
            old(self).engine.ctx.ext_repository ==> (id_arg_error(*args, seq!["processDesignId"@, "id"@], "缺少id参数"@) matches Some(m) ==> fails_with(r, m)),
    {
        self.need_ext()?;
        let id = need_id2(args, "processDesignId", "id", "缺少id参数")?;
        let design = match self.engine.ctx.repository.find_design_by_id(id)? {
            Some(d) => d,
            None => {
                return Err(biz("流程设计不存在"));
            },
        };
        let bytes = self.newest_content(id)?;
        let text = crate::model::utf8_lossy(bytes.as_slice());
        let model = ModelParser::parse(text.as_str())?;
        let operator = arg_str_or(args, "operator", "system");
        let define_id = self.save_deployed_define(&model, &bytes, operator.as_str())?;
        let mut updated = design;
        updated.is_deployed = 1;
        updated.update_user = Some(operator);
        self.engine.ctx.repository.update_design(&updated)?;
        Ok(one_number("process_define_id", define_id))
    }

    fn process_design_redeploy(&mut self, args: &FlowData) -> (r: JeeflowResult<JsonValue>)
        ensures
            !old(self).engine.ctx.ext_repository ==> r matches Err(JeeflowError::Internal(_)),
            old(self).engine.ctx.ext_repository ==> (id_arg_error(*args, seq!["processDesignId"@, "id"@], "缺少id参数"@) matches Some(m) ==> fails_with(r, m)),
    {
        self.need_ext()?;
        let id = need_id2(args, "processDesignId", "id", "缺少id参数")?;
        let design = match self.engine.ctx.repository.find_design_by_id(id)? {
            Some(d) => d,
            None => {
                return Err(biz("流程设计不存在"));
            },
        };
        let bytes = self.newest_content(id)?;
        let text = crate::model::utf8_lossy(bytes.as_slice());
        let model = ModelParser::parse(text.as_str())?;
        let operator = arg_str_or(args, "operator", "system");
        let rows = self.all_defines()?;
        let define_id = match latest_define_index(rows.as_slice(), model.name.as_str()) {
            Some(k) => {
                let last = &rows[k];
                let old = match self.engine.ctx.repository.find_define_by_id(last.id)? {
                    Some(d) => d,
                    None => ProcessDefine {
                        id: last.id,
                        name: last.name.clone(),
                        display_name: last.display_name.clone(),
                        define_type: last.define_type.clone(),
                        state: last.state,
                        content: bytes.clone(),
                        version: last.version,
                        create_time: crate::model::clone_opt(&last.create_time),
                        create_user: crate::model::clone_opt(&last.create_user),
                        update_time: None,
                        update_user: None,
                    },
                };
                let updated = ProcessDefine {
                    name: model.name.clone(),
                    display_name: model.display_name.clone(),
                    define_type: model.model_type.clone(),
                    content: bytes,
                    update_user: Some(operator.clone()),
                    ..old
                };
                self.engine.ctx.repository.update_define(&updated)?;
                last.id
            },
            None => self.save_deployed_define(&model, &bytes, operator.as_str())?,
        };
        let mut updated = design;
        updated.is_deployed = 1;
        updated.update_user = Some(operator);
        self.engine.ctx.repository.update_design(&updated)?;
        Ok(one_number("process_define_id", define_id))
    }

    fn process_design_list_by_type(&self, args: &FlowData) -> (r: JeeflowResult<JsonValue>)
        ensures
            !self.engine.ctx.ext_repository ==> r matches Err(JeeflowError::Internal(_)),
    {
        self.need_ext()?;
        let type_filter = match arg_str(args, "type") {
            Some(t) => Some(t),
            None => arg_str(args, "designType"),
        };
        let q = PageQuery::new(1, i64::MAX / 4);
        if !self.engine.ctx.repository.design_page_fits(&q) {
            return Err(out_of_range());
        }
        let page = self.engine.ctx.repository.page_designs(&q)?;
        let defines = self.all_defines()?;
        let mut groups: Vec<(String, JsonValue)> = Vec::new();
        let mut i: usize = 0;
        while i < page.rows.len()
            invariant
                self.engine.ctx.ext_repository,
            decreases page.rows.len() - i,
        {
            let d = &page.rows[i];
            let keep = match &type_filter {
                Some(tf) => str_eq(d.design_type.as_str(), tf.as_str()),
                None => true,
            };
            if keep {
                let latest = first_latest_index(&defines, d.name.as_str());
                let his = self.engine.ctx.repository.list_design_his(d.id)?;
                let json_object = if his.len() > 0 {
                    let text = crate::model::utf8_lossy(his[0].content.as_slice());
                    match parse_graph(text.as_str()) {
                        Some(g) => g,
                        None => JsonValue::Null,
                    }
                } else {
                    JsonValue::Null
                };
                let (define_id, define_state) = match latest {
                    Some(k) => (num(defines[k].id), num(defines[k].state as i64)),
                    None => (JsonValue::Null, JsonValue::Null),
                };
                let item = vec![
                    kv("process_design_id", num(d.id)),
                    kv("name", JsonValue::string(d.name.as_str())),
                    kv("display_name", JsonValue::string(d.display_name.as_str())),
                    kv("icon", opt_text(&d.icon)),
                    kv("remark", opt_text(&d.remark)),
                    kv("process_define_id", define_id),
                    kv("process_define_state", define_state),
                    kv("json_object", json_object),
                ];
                // append to the group of its type
                let mut g: usize = 0;
                let mut found = false;
                while g < groups.len()
                    invariant
                        0 <= g <= groups.len(),
                        self.engine.ctx.ext_repository,
                    decreases groups.len() - g,
                {
                    if str_eq(groups[g].0.as_str(), d.design_type.as_str()) {
                        found = true;
                        break;
                    }
                    g = g + 1;
                }
                if found && g < groups.len() {
                    let (k, arr) = groups.remove(g);
                    let items = match arr {
                        JsonValue::Array(mut a) => {
                            a.push(JsonValue::Object(item));
                            a
                        },
                        _ => vec![JsonValue::Object(item)],
                    };
                    groups.insert(g, (k, JsonValue::Array(items)));
                } else {
                    groups.push((d.design_type.clone(), JsonValue::Array(vec![JsonValue::Object(item)])));
                }
            }
            i = i + 1;
        }
        Ok(JsonValue::Object(groups))
    }

    fn process_surrogate_page(&self, args: &FlowData) -> (r: JeeflowResult<JsonValue>)
        ensures
            !self.engine.ctx.ext_repository ==> r matches Err(JeeflowError::Internal(_)),
    {
        self.need_ext()?;
        let page_num = arg_i64_or(args, "pageNum", 1)?;
        let page_size = arg_i64_or(args, "pageSize", 20)?;
        let query = PageQuery::new(page_num, page_size);
        if !self.engine.ctx.repository.surrogate_page_fits(&query) {
            return Err(out_of_range());
        }
        let page = self.engine.ctx.repository.page_surrogates(&query)?;
        let mut rows: Vec<JsonValue> = Vec::new();
        let mut i: usize = 0;
        while i < page.rows.len()
            invariant
                self.engine.ctx.ext_repository,
            decreases page.rows.len() - i,
        {
            rows.push(crate::vo::surrogate_to_json(&page.rows[i]));
            i = i + 1;
        }
        let rc = page.record_count;
        let ps = page.page_size;
        if rc != 0 {
            if ps == 0 || (rc as i128) + (ps as i128) > i64::MAX as i128 || (rc as i128) + (ps as i128) - 1 < i64::MIN as i128
                || ((rc as i128) + (ps as i128) - 1 == i64::MIN as i128 && ps == -1) {
                return Err(out_of_range());
            }
        }
        let result = PageResult::new(page.page_num, ps, rc, rows);
        Ok(page_to_json(result))
    }

    fn process_surrogate_save(&mut self, args: &FlowData) -> (r: JeeflowResult<JsonValue>)
        ensures
            !old(self).engine.ctx.ext_repository ==> r matches Err(JeeflowError::Internal(_)),
    {
        self.need_ext()?;
        let mut sg = crate::model::ProcessSurrogate {
            id: 0,
            process_name: arg_str_or(args, "processName", ""),
            operator: arg_str_or(args, "operator", ""),
            surrogate: arg_str_or(args, "surrogate", ""),
            start_time: arg_str(args, "startTime"),
            end_time: arg_str(args, "endTime"),
            enabled: 1,
            create_time: None,
            create_user: arg_str(args, "createUser"),
            update_time: None,
            update_user: None,
        };
        self.engine.ctx.repository.save_surrogate(&mut sg)?;
        Ok(one_number("id", sg.id))
    }

    /// The surrogate an update or detail names, or the error for a missing or unknown one.
    fn find_surrogate(&self, args: &FlowData) -> (r: JeeflowResult<crate::model::ProcessSurrogate>)
        ensures
            crate::actions::arg_i64_spec(args.lookup("id"@)) == Ok::<Option<i64>, Seq<char>>(None) ==> (r matches Err(JeeflowError::Business(m)) && m@ == "缺少id参数"@),
            crate::actions::arg_i64_spec(args.lookup("id"@)) matches Err(m) ==> (r matches Err(JeeflowError::Business(x)) && x@ == m),
    {
        let id = match arg_i64(args, "id")? {
            Some(n) => n,
            None => {
                return Err(biz("缺少id参数"));
            },
        };
        match self.engine.ctx.repository.find_surrogate_by_id(id)? {
            Some(sg) => Ok(sg),
            None => {
                let mut m = owned("委托不存在: ");
                crate::text::push_str(&mut m, crate::text::i64_text(id).as_str());
                Err(JeeflowError::Business(m))
            },
        }
    }

    fn process_surrogate_update(&mut self, args: &FlowData) -> (r: JeeflowResult<JsonValue>)
        ensures
            !old(self).engine.ctx.ext_repository ==> r matches Err(JeeflowError::Internal(_)),
            old(self).engine.ctx.ext_repository && crate::actions::arg_i64_spec(args.lookup("id"@)) == Ok::<Option<i64>, Seq<char>>(None)
                ==> fails_with(r, "缺少id参数"@),
    {
        self.need_ext()?;
        let sg = self.find_surrogate(args)?;
        let id = sg.id;
        let surrogate = match arg_str(args, "surrogate") {
            Some(v) => v,
            None => sg.surrogate,
        };
        let start_time = match arg_str(args, "startTime") {
            Some(v) => Some(v),
            None => sg.start_time,
        };
        let end_time = match arg_str(args, "endTime") {
            Some(v) => Some(v),
            None => sg.end_time,
        };
        let enabled = match arg_i64(args, "enabled")? {
            Some(v) => v as i32,
            None => sg.enabled,
        };
        let updated = crate::model::ProcessSurrogate {
            id,
            process_name: sg.process_name,
            operator: sg.operator,
            surrogate,
            start_time,
            end_time,
            enabled,
            create_time: sg.create_time,
            create_user: sg.create_user,
            update_time: sg.update_time,
            update_user: arg_str(args, "updateUser"),
        };
        self.engine.ctx.repository.update_surrogate(&updated)?;
        Ok(one_number("id", id))
    }

    fn process_surrogate_detail(&self, args: &FlowData) -> (r: JeeflowResult<JsonValue>)
        ensures
            !self.engine.ctx.ext_repository ==> r matches Err(JeeflowError::Internal(_)),
            self.engine.ctx.ext_repository && crate::actions::arg_i64_spec(args.lookup("id"@)) == Ok::<Option<i64>, Seq<char>>(None)
                ==> fails_with(r, "缺少id参数"@),
    {
        self.need_ext()?;
        let sg = self.find_surrogate(args)?;
        Ok(crate::vo::surrogate_to_json(&sg))
    }

    fn process_surrogate_remove(&mut self, args: &FlowData) -> (r: JeeflowResult<JsonValue>)
        ensures
            !old(self).engine.ctx.ext_repository ==> r matches Err(JeeflowError::Internal(_)),
            old(self).engine.ctx.ext_repository ==> (crate::actions::arg_ids_spec(*args) matches Ok(ids) && ids.len() == 0
                ==> fails_with(r, "缺少id参数"@)),
    {
        self.need_ext()?;
        let ids = arg_ids(args)?;
        if ids.len() == 0 {
            return Err(biz("缺少id参数"));
        }
        let mut i: usize = 0;
        while i < ids.len()
            invariant
                old(self).engine.ctx.ext_repository,
                crate::actions::arg_ids_spec(*args) == Ok::<Seq<i64>, Seq<char>>(ids@),
                ids@.len() > 0,
            decreases ids.len() - i,
        {
            self.engine.ctx.repository.remove_surrogate(ids[i])?;
            i = i + 1;
        }
        Ok(empty_object())
    }
}

/// The error an action answers for a missing or illegal id argument, before it reads any
/// store: the id keys it looks under, in order, and its message for a missing one (the
/// design actions only when the store answers the extension queries).
/// The error an action answers for a missing or illegal id argument, before it reads any
/// store: the id keys it looks under, in order, and its message for a missing one (the
/// design actions only when the store answers the extension queries).
pub open spec fn arg_error(action: Seq<char>, args: FlowData, ext: bool) -> Option<Seq<char>> {
    let inst = seq!["processInstanceId"@, "id"@];
    let task = seq!["processTaskId"@, "id"@];
    let design = seq!["processDesignId"@, "id"@];
    if action == "processDefine/page"@ {
        None
    } else if action == "processDefine/detail"@ {
        id_arg_error(args, seq!["id"@], "缺少id参数"@)
    } else if action == "processDefine/startAndExecute"@ {
        None
    } else if action == "processDefine/deploy"@ {
        None
    } else if action == "processDefine/redeploy"@ {
        id_arg_error(args, seq!["processDefineId"@, "id"@], "缺少processDefineId参数"@)
    } else if action == "processDefine/remove"@ {
        None
    } else if action == "processDefine/upAndDown"@ {
        None
    } else if action == "processDefine/getLastByName"@ {
        None
    } else if action == "processInstance/page"@ {
        None
    } else if action == "processInstance/detail"@ {
        id_arg_error(args, inst, "缺少id参数"@)
    } else if action == "processInstance/startAndExecute"@ {
        None
    } else if action == "processInstance/withdraw"@ {
        id_arg_error(args, inst, "缺少id参数"@)
    } else if action == "processInstance/highLight"@ {
        id_arg_error(args, inst, "缺少id参数"@)
    } else if action == "processInstance/approvalRecord"@ {
        id_arg_error(args, inst, "缺少id参数"@)
    } else if action == "processInstance/getAssigneeTextData"@ {
        id_arg_error(args, inst, "缺少id参数"@)
    } else if action == "processInstance/bizData"@ {
        id_arg_error(args, inst, "processInstanceId 缺失"@)
    } else if action == "processInstance/createCCInstance"@ {
        id_arg_error(args, inst, "缺少processInstanceId参数"@)
    } else if action == "processInstance/updateCCStatus"@ {
        id_arg_error(args, inst, "缺少processInstanceId参数"@)
    } else if action == "processInstance/ccList"@ {
        None
    } else if action == "processTask/todoList"@ {
        None
    } else if action == "processTask/doneList"@ {
        None
    } else if action == "processTask/execute"@ {
        None
    } else if action == "processTask/detail"@ {
        id_arg_error(args, task, "缺少id参数"@)
    } else if action == "processTask/jumpAbleTaskNameList"@ {
        id_arg_error(args, inst, "缺少processInstanceId参数"@)
    } else if action == "processTask/candidatePage"@ {
        id_arg_error(args, task, "processTaskId 缺失"@)
    } else if action == "processTask/surrogate"@ {
        id_arg_error(args, task, "processTaskId/actorIds 缺失"@)
    } else if action == "processTask/addCandidate"@ {
        id_arg_error(args, task, "processTaskId/actorIds 缺失"@)
    } else if action == "processTask/latest"@ {
        id_arg_error(args, seq!["processInstanceId"@, "instanceId"@, "id"@], "缺少processInstanceId参数"@)
    } else if action == "processDesign/page"@ {
        None
    } else if action == "processDesign/detail"@ {
        if ext { id_arg_error(args, design, "缺少id参数"@) } else { None }
    } else if action == "processDesign/save"@ {
        None
    } else if action == "processDesign/update"@ {
        if ext { id_arg_error(args, design, "缺少id参数"@) } else { None }
    } else if action == "processDesign/updateDefine"@ {
        if ext { id_arg_error(args, design, "缺少processDesignId参数"@) } else { None }
    } else if action == "processDesign/remove"@ {
        None
    } else if action == "processDesign/deploy"@ {
        if ext { id_arg_error(args, design, "缺少id参数"@) } else { None }
    } else if action == "processDesign/redeploy"@ {
        if ext { id_arg_error(args, design, "缺少id参数"@) } else { None }
    } else if action == "processDesign/listByType"@ {
        None
    } else if action == "processSurrogate/page"@ {
        None
    } else if action == "processSurrogate/save"@ {
        None
    } else if action == "processSurrogate/update"@ {
        None
    } else if action == "processSurrogate/detail"@ {
        None
    } else if action == "processSurrogate/remove"@ {
        None
    } else {
        None
    }
}

impl<R: ProcessRepository + ProcessExtRepository, G: IdGenerator> JeeflowFacade<R, G> {
    /// Run the action named `action`.
    fn dispatch(&mut self, action: &str, args: &FlowData) -> (r: JeeflowResult<JsonValue>)
        ensures
            !known_action(action@) ==> (r matches Err(JeeflowError::UnknownAction(a)) && a@ == action@),
            arg_error(action@, *args, old(self).engine.ctx.ext_repository) matches Some(m) ==> fails_with(r, m),
    {
        if str_eq(action, "processDefine/page") {
            self.process_define_page(args)
        } else if str_eq(action, "processDefine/detail") {
            self.process_define_detail(args)
        } else if str_eq(action, "processDefine/startAndExecute") {
            self.process_define_start_and_execute(args)
        } else if str_eq(action, "processDefine/deploy") {
            self.process_define_deploy(args)
        } else if str_eq(action, "processDefine/redeploy") {
            self.process_define_redeploy(args)
        } else if str_eq(action, "processDefine/remove") {
            self.process_define_remove(args)
        } else if str_eq(action, "processDefine/upAndDown") {
            self.process_define_up_and_down(args)
        } else if str_eq(action, "processDefine/getLastByName") {
            self.process_define_get_last_by_name(args)
        } else if str_eq(action, "processInstance/page") {
            self.process_instance_page(args, false)
        } else if str_eq(action, "processInstance/detail") {
            self.process_instance_detail(args)
        } else if str_eq(action, "processInstance/startAndExecute") {
            self.process_define_start_and_execute(args)
        } else if str_eq(action, "processInstance/withdraw") {
            self.process_instance_withdraw(args)
        } else if str_eq(action, "processInstance/highLight") {
            self.process_instance_high_light(args)
        } else if str_eq(action, "processInstance/approvalRecord") {
            self.process_instance_approval_record(args)
        } else if str_eq(action, "processInstance/getAssigneeTextData") {
            self.process_instance_get_assignee_text_data(args)
        } else if str_eq(action, "processInstance/bizData") {
            self.process_instance_biz_data(args)
        } else if str_eq(action, "processInstance/createCCInstance") {
            self.process_instance_create_cc(args)
        } else if str_eq(action, "processInstance/updateCCStatus") {
            self.process_instance_update_cc_status(args)
        } else if str_eq(action, "processInstance/ccList") {
            self.process_instance_page(args, true)
        } else if str_eq(action, "processTask/todoList") {
            self.process_task_list(args, false)
        } else if str_eq(action, "processTask/doneList") {
            self.process_task_list(args, true)
        } else if str_eq(action, "processTask/execute") {
            self.process_task_execute(args)
        } else if str_eq(action, "processTask/detail") {
            self.process_task_detail(args)
        } else if str_eq(action, "processTask/jumpAbleTaskNameList") {
            self.process_task_jump_able_task_name_list(args)
        } else if str_eq(action, "processTask/candidatePage") {
            self.process_task_candidate_page(args)
        } else if str_eq(action, "processTask/surrogate") {
            self.process_task_surrogate(args)
        } else if str_eq(action, "processTask/addCandidate") {
            self.process_task_surrogate(args)
        } else if str_eq(action, "processTask/latest") {
            self.process_task_latest(args)
        } else if str_eq(action, "processDesign/page") {
            self.process_design_page(args)
        } else if str_eq(action, "processDesign/detail") {
            self.process_design_detail(args)
        } else if str_eq(action, "processDesign/save") {
            self.process_design_save(args)
        } else if str_eq(action, "processDesign/update") {
            self.process_design_update(args)
        } else if str_eq(action, "processDesign/updateDefine") {
            self.process_design_update_define(args)
        } else if str_eq(action, "processDesign/remove") {
            self.process_design_remove(args)
        } else if str_eq(action, "processDesign/deploy") {
            self.process_design_deploy(args)
        } else if str_eq(action, "processDesign/redeploy") {
            self.process_design_redeploy(args)
        } else if str_eq(action, "processDesign/listByType") {
            self.process_design_list_by_type(args)
        } else if str_eq(action, "processSurrogate/page") {
            self.process_surrogate_page(args)
        } else if str_eq(action, "processSurrogate/save") {
            self.process_surrogate_save(args)
        } else if str_eq(action, "processSurrogate/update") {
            self.process_surrogate_update(args)
        } else if str_eq(action, "processSurrogate/detail") {
            self.process_surrogate_detail(args)
        } else if str_eq(action, "processSurrogate/remove") {
            self.process_surrogate_remove(args)
        } else {
            Err(JeeflowError::UnknownAction(owned(action)))
        }
    }

    /// Answer `action` with `args`: the success envelope of its data, with keys camel-cased,
    /// ids as text and time fields in the engine clock's format, or the error envelope of its
    /// message (`未知 action: …` for an action the facade does not know).
    pub fn flow(&mut self, action: &str, args: &FlowData) -> (r: JsonValue)
        ensures
            is_envelope(jview(r)),
            exists|res: JeeflowResult<JsonValue>, now: Seq<char>| #[trigger] answered(res, now, jview(r)),
            !known_action(action@) ==> jview(r) == JView::Object(seq![
                ("code"@, JView::Number(99999999, 0)),
                ("msg"@, JView::Str("未知 action: "@ + action@)),
            ]),
            arg_error(action@, *args, old(self).engine.ctx.ext_repository) matches Some(m) ==> jview(r) == JView::Object(seq![
                ("code"@, JView::Number(99999999, 0)),
                ("msg"@, JView::Str(m)),
            ]),
            final(self).requests@ == old(self).requests@.push((action@, *args)),
    {
        let ghost asked = self.requests@;
        let result = self.dispatch(action, args);
        proof {
            self.requests = Ghost(asked.push((action@, *args)));
        }
        let now = crate::clock::current_time_str();
        answer_of(result, now.as_str())
    }
}

/// How an argument enters the variables of a start or an execution: `null` is left out, a
/// number becomes its integer (0 when it has a fraction or leaves `i64`), anything else stays.
pub open spec fn flow_arg(v: JView) -> Option<JView> {
    match v {
        JView::Null => None,
        JView::Number(m, s) => Some(JView::Number(if s == 0 && i64::MIN <= m <= i64::MAX { m } else { 0 }, 0)),
        _ => Some(v),
    }
}

/// The variables an action hands the engine (see `flow_arg`).
pub fn args_to_flow_data(args: &FlowData) -> (r: FlowData)
    ensures
        forall|k: Seq<char>| #[trigger] r.lookup(k) == match args.lookup(k) {
            Some(v) => flow_arg(v),
            None => None,
        },
{
    let es = args.entries();
    proof {
        crate::json::lemma_jview_entries(es@);
    }
    let ghost kv = args.kv();
    let mut out = FlowData::new();
    let mut i: usize = 0;
    while i < es.len()
        invariant
            0 <= i <= es.len(),
            kv == args.kv(),
            kv == crate::json::jview_entries(es@),
            kv.len() == es@.len(),
            forall|j: int| 0 <= j < es@.len() ==> #[trigger] kv[j] == (es@[j].0@, jview(es@[j].1)),
            crate::json::distinct_keys(kv),
            forall|k: Seq<char>| #[trigger] out.lookup(k) == match crate::json::entry_lookup(kv.take(i as int), k) {
                Some(v) => flow_arg(v),
                None => None,
            },
        decreases es.len() - i,
    {
        let k = &es[i].0;
        let ghost before = out;
        proof {
            assert forall|q: Seq<char>| #[trigger] crate::json::entry_lookup(kv.take(i + 1), q)
                == if kv[i as int].0 == q { Some(kv[i as int].1) } else { crate::json::entry_lookup(kv.take(i as int), q) } by {
                crate::json::lemma_entry_lookup_take_step(kv, i as int, q);
            }
        }
        match &es[i].1 {
            JsonValue::Null => {
                assert(kv[i as int].1 == JView::Null);
                assert forall|q: Seq<char>| #[trigger] out.lookup(q) == match crate::json::entry_lookup(kv.take(i + 1), q) {
                    Some(v) => flow_arg(v),
                    None => None,
                } by {
                    assert(crate::json::entry_lookup(kv.take(i + 1), q)
                        == if kv[i as int].0 == q { Some(kv[i as int].1) } else { crate::json::entry_lookup(kv.take(i as int), q) });
                    if kv[i as int].0 == q {
                        assert(forall|j: int| 0 <= j < kv.take(i as int).len() ==> kv.take(i as int)[j].0 != q);
                        crate::json::lemma_entry_lookup_none(kv.take(i as int), q);
                    }
                }
            },
            JsonValue::Number(n) => {
                let m: i64 = if n.scale == 0 && n.mantissa >= i64::MIN as i128 && n.mantissa <= i64::MAX as i128 {
                    n.mantissa as i64
                } else {
                    0
                };
                out.insert_i64(k.as_str(), m);
                assert(flow_arg(kv[i as int].1) == Some(JView::Number(m as int, 0)));
                assert forall|q: Seq<char>| #[trigger] out.lookup(q) == match crate::json::entry_lookup(kv.take(i + 1), q) {
                    Some(v) => flow_arg(v),
                    None => None,
                } by {
                    assert(crate::json::entry_lookup(kv.take(i + 1), q)
                        == if kv[i as int].0 == q { Some(kv[i as int].1) } else { crate::json::entry_lookup(kv.take(i as int), q) });
                }
            },
            v => {
                let x = v.dup();
                out.insert(k.clone(), x);
                assert(flow_arg(kv[i as int].1) == Some(jview(x)));
                assert forall|q: Seq<char>| #[trigger] out.lookup(q) == match crate::json::entry_lookup(kv.take(i + 1), q) {
                    Some(v) => flow_arg(v),
                    None => None,
                } by {
                    assert(crate::json::entry_lookup(kv.take(i + 1), q)
                        == if kv[i as int].0 == q { Some(kv[i as int].1) } else { crate::json::entry_lookup(kv.take(i as int), q) });
                }
            },
        }
        i = i + 1;
    }
    proof {
        assert(kv.take(es.len() as int) =~= kv);
    }
    out
}

} // verus!
