//! Demo data: the shared flow documents stored as defines and designs, and a fixed set of
//! business instances driven through the facade as a user would (started, advanced, copied,
//! delegated).

use vstd::prelude::*;
use crate::json::{jview, FlowData, JView, JsonNumber, JsonValue};
use crate::memory::{found, has_key, law_find_after_save, lemma_find_other_after_save, MemoryRepository};
use crate::model::{ProcessDefine, ProcessDesign, ProcessDesignHis};
use crate::service::{count_of, lemma_count_push, JeeflowFacade};
use crate::spi::{IdGenerator, ProcessExtRepository, ProcessRepository};
use crate::text::{owned, str_eq};

verus! {

/// A text field of a flow document, if it is one.
fn doc_text(doc: &Option<JsonValue>, key: &str) -> (r: Option<String>)
    ensures
        crate::model::opt_view(r) == match doc {
            Some(d) => match crate::vo::obj_field(crate::json::jview(*d), key@) {
                Some(JView::Str(t)) => Some(t),
                _ => None::<Seq<char>>,
            },
            None => None::<Seq<char>>,
        },
{
    match doc {
        Some(d) => match d.get_str(key) {
            Some(t) => Some(owned(t)),
            None => None,
        },
        None => None,
    }
}

/// How many of the flow documents could be read.
pub open spec fn readable_count(files: Seq<(String, Option<Vec<u8>>)>) -> nat
    decreases files.len(),
{
    if files.len() == 0 {
        0
    } else {
        readable_count(files.drop_last()) + if files.last().1 is Some { 1nat } else { 0nat }
    }
}

/// The text field `key` of the flow document in `content`, if it reads as one.
pub open spec fn doc_field(content: Seq<u8>, key: Seq<char>) -> Option<Seq<char>> {
    match crate::json_parse::json_read(crate::model::lossy_text(content)) {
        Some(v) => match crate::vo::obj_field(v, key) {
            Some(JView::Str(t)) => Some(t),
            _ => None,
        },
        None => None,
    }
}

/// The name a flow document gives its define: its `name`, else the file stem.
pub open spec fn doc_name(stem: Seq<char>, content: Seq<u8>) -> Seq<char> {
    match doc_field(content, "name"@) {
        Some(n) => n,
        None => stem,
    }
}

/// Define `id` is stored enabled, at version 1, with this content, named by the document (its
/// `name`, else the file stem), shown by its `displayName` (else that name) and typed by its
/// `type` (else `approval`).
pub open spec fn seeded_define(repo: MemoryRepository, id: i64, stem: Seq<char>, content: Seq<u8>) -> bool {
    repo.stored_define(id) matches Some(d) && d.id == id && d.state == 1 && d.version == 1 && d.content == content
        && d.name == doc_name(stem, content)
        && d.display_name == match doc_field(content, "displayName"@) {
            Some(n) => n,
            None => doc_name(stem, content),
        }
        && d.define_type == match doc_field(content, "type"@) {
            Some(t) => t,
            None => "approval"@,
        }
}

/// Store the shared flow documents, given in file-name order as (file stem, content, `None`
/// where the file could not be read): the `i`-th readable one becomes define `i + 1` (enabled,
/// version 1) named by its `name` (else the stem), with a deployed design of the same name and
/// the content as that design's history. Answers how many defines were stored; the define of
/// an unreadable file stays as it was.
pub fn load_seed(repo: &mut MemoryRepository, files: &Vec<(String, Option<Vec<u8>>)>) -> (r: usize)
    requires
        files@.len() < i64::MAX,
    ensures
        r == readable_count(files@),
        forall|i: int| 0 <= i < files@.len() ==> match #[trigger] files@[i].1 {
            Some(c) => seeded_define(*final(repo), (i + 1) as i64, files@[i].0@, c@),
            None => final(repo).stored_define((i + 1) as i64) == old(repo).stored_define((i + 1) as i64),
        },
        forall|k: i64| (k < 1 || k > files@.len()) ==> #[trigger] final(repo).stored_define(k) == old(repo).stored_define(k),
{
    let mut stored: usize = 0;
    let mut i: usize = 0;
    while i < files.len()
        invariant
            0 <= i <= files.len(),
            files@.len() < i64::MAX,
            stored == readable_count(files@.take(i as int)),
            stored <= i,
            forall|j: int| 0 <= j < i ==> match #[trigger] files@[j].1 {
                Some(c) => seeded_define(*repo, (j + 1) as i64, files@[j].0@, c@),
                None => repo.stored_define((j + 1) as i64) == old(repo).stored_define((j + 1) as i64),
            },
            forall|k: i64| (k < 1 || k > i) ==> #[trigger] repo.stored_define(k) == old(repo).stored_define(k),
        decreases files.len() - i,
    {
        assert(files@.take(i + 1).drop_last() =~= files@.take(i as int));
        let stem = &files[i].0;
        let content = match &files[i].1 {
            Some(c) => c,
            None => {
                assert(repo.stored_define((i + 1) as i64) == old(repo).stored_define((i + 1) as i64));
                i = i + 1;
                continue;
            },
        };
        let ghost before = *repo;
        let text = crate::model::utf8_lossy(content.as_slice());
        let doc = match crate::json_parse::parse_json(text.as_str()) {
            Ok(v) => Some(v),
            Err(_) => None,
        };
        let name = match doc_text(&doc, "name") {
            Some(n) => n,
            None => stem.clone(),
        };
        let display_name = match doc_text(&doc, "displayName") {
            Some(n) => n,
            None => name.clone(),
        };
        let define_type = match doc_text(&doc, "type") {
            Some(t) => t,
            None => owned("approval"),
        };
        let now = crate::clock::current_time_str();
        let id: i64 = i as i64 + 1;
        let mut define = ProcessDefine {
            id,
            name: name.clone(),
            display_name: display_name.clone(),
            define_type: define_type.clone(),
            state: 1,
            content: content.clone(),
            version: 1,
            create_time: Some(now.clone()),
            create_user: Some(owned("system")),
            update_time: None,
            update_user: None,
        };
        let ghost table = repo.define_table();
        let _ = repo.save_define(&mut define);
        let ghost defines_now = repo.define_table();
        let mut design = ProcessDesign {
            id: 0,
            name,
            display_name,
            design_type: define_type,
            icon: Some(owned("doc")),
            is_deployed: 1,
            remark: Some(owned("v1")),
            create_time: Some(now.clone()),
            create_user: Some(owned("system")),
            update_time: None,
            update_user: None,
        };
        let _ = repo.save_design(&mut design);
        let mut his = ProcessDesignHis {
            id: 0,
            process_design_id: design.id,
            content: content.clone(),
            create_time: Some(now),
            create_user: Some(owned("system")),
        };
        let _ = repo.save_design_his(&mut his);
        assert(repo.define_table() == defines_now);
        proof {
            law_find_after_save(table, has_key::<ProcessDefine>(id), define@);
            assert(repo.stored_define(id) == Some(define@));
            assert forall|k: i64| k != id implies #[trigger] repo.stored_define(k) == before.stored_define(k) by {
                lemma_find_other_after_save(table, has_key::<ProcessDefine>(id), has_key::<ProcessDefine>(k), define@);
            }
            assert(define@.content == content@);
            assert(text@ == crate::model::lossy_text(content@));
            reveal_strlit("approval");
        }
        stored = stored + 1;
        i = i + 1;
    }
    assert(files@.take(files@.len() as int) =~= files@);
    stored
}

/// A business instance to seed: its define, starter, extra variable and carbon-copy actors.
pub struct SeedRow {
    pub define_id: i64,
    pub operator: &'static str,
    pub extra: Option<(&'static str, JsonValue)>,
    pub cc: Vec<&'static str>,
}

fn row(define_id: i64, operator: &'static str, cc: Vec<&'static str>) -> (r: SeedRow) {
    SeedRow { define_id, operator, extra: None, cc }
}

fn row_with(define_id: i64, operator: &'static str, key: &'static str, value: JsonValue, cc: Vec<&'static str>) -> (r: SeedRow) {
    SeedRow { define_id, operator, extra: Some((key, value)), cc }
}

fn amount(n: i64) -> (r: JsonValue) {
    JsonValue::Number(JsonNumber { mantissa: n as i128, scale: 0 })
}

/// The instances left in progress (state 10): some stop before a decision or a rejection, one
/// is worked two steps further.
pub fn in_progress_rows() -> (r: Vec<SeedRow>)
    ensures
        r@.len() == 16,
{
    vec![
        row(1, "user1", vec!["userA", "userB"]),
        row(2, "user1", vec![]),
        row_with(3, "userA", "amount", amount(500), vec![]),
        row(4, "manager", vec!["userC", "leader"]),
        row(5, "userB", vec![]),
        row(6, "director", vec!["manager", "boss"]),
        row(7, "userC", vec!["user1"]),
        row(1, "boss", vec![]),
        row_with(12, "user1", "deptLeader", JsonValue::string("manager"), vec![]),
        row_with(12, "userC", "deptLeader", JsonValue::string("director"), vec![]),
        row_with(12, "userB", "deptLeader", JsonValue::string("user1"), vec![]),
        row(15, "userA", vec!["boss"]),
        row(14, "leader", vec!["director", "userC"]),
        row(2, "userA", vec![]),
        row(10, "userB", vec![]),
        row(8, "user1", vec![]),
    ]
}

/// The instances driven to the end (state 20).
pub fn finished_rows() -> (r: Vec<SeedRow>)
    ensures
        r@.len() == 9,
{
    vec![
        row(1, "userA", vec!["user1", "director"]),
        row(8, "userB", vec!["boss", "manager"]),
        row(2, "manager", vec!["boss"]),
        row(10, "director", vec![]),
        row_with(12, "userC", "deptLeader", JsonValue::string("leader"), vec![]),
        row(1, "director", vec![]),
        row(5, "manager", vec![]),
        row_with(12, "userA", "deptLeader", JsonValue::string("director"), vec![]),
        row_with(12, "userB", "deptLeader", JsonValue::string("user1"), vec![]),
    ]
}

/// The surrogates: every demo user delegates to the next.
pub fn surrogate_pairs() -> (r: Vec<(&'static str, &'static str)>)
    ensures
        r@.len() == 8,
        forall|k: int| 0 <= k < 8 ==> (#[trigger] r@[k].0@, r@[k].1@) == demo_pairs()[k],
{
    vec![
        ("user1", "userA"),
        ("userA", "userB"),
        ("userB", "userC"),
        ("userC", "leader"),
        ("leader", "manager"),
        ("manager", "director"),
        ("director", "boss"),
        ("boss", "user1"),
    ]
}

/// The demo surrogates: who delegates to whom.
pub open spec fn demo_pairs() -> Seq<(Seq<char>, Seq<char>)> {
    seq![
        ("user1"@, "userA"@),
        ("userA"@, "userB"@),
        ("userB"@, "userC"@),
        ("userC"@, "leader"@),
        ("leader"@, "manager"@),
        ("manager"@, "director"@),
        ("director"@, "boss"@),
        ("boss"@, "user1"@),
    ]
}

/// A request that saves surrogate `pair` for every flow from 2026-01-01 to the end of 2027.
pub open spec fn surrogate_save(req: (Seq<char>, FlowData), pair: (Seq<char>, Seq<char>)) -> bool {
    &&& req.0 == "processSurrogate/save"@
    &&& req.1.lookup("operator"@) == Some(JView::Str(pair.0))
    &&& req.1.lookup("surrogate"@) == Some(JView::Str(pair.1))
    &&& req.1.lookup("processName"@) == Some(JView::Str(""@))
    &&& req.1.lookup("startTime"@) == Some(JView::Str("2026-01-01 00:00:00"@))
    &&& req.1.lookup("endTime"@) == Some(JView::Str("2027-12-31 23:59:59"@))
}

/// A request `advance` makes for instance `iid`: its detail, or working a task, agreeing.
pub open spec fn advance_request(req: (Seq<char>, FlowData), iid: i64) -> bool {
    ||| req.0 == "processInstance/detail"@ && req.1.lookup("id"@) == Some(JView::Number(iid as int, 0))
    ||| req.0 == "processTask/execute"@ && req.1.lookup("submitType"@) == Some(JView::Number(1, 0))
}

/// One request more, asking for `action`.
pub open spec fn one_more(before: Seq<(Seq<char>, FlowData)>, after: Seq<(Seq<char>, FlowData)>, action: Seq<char>) -> bool {
    after.len() == before.len() + 1 && after == before.push(after.last()) && after.last().0 == action
}

/// Requests after the first `n` that all ask for something else than `action` leave its count.
pub proof fn lemma_count_others(log: Seq<(Seq<char>, FlowData)>, n: int, action: Seq<char>)
    requires
        0 <= n <= log.len(),
        forall|k: int| n <= k < log.len() ==> (#[trigger] log[k]).0 != action,
    ensures
        count_of(log, action) == count_of(log.take(n), action),
    decreases log.len(),
{
    if log.len() > n {
        let l = log.drop_last();
        lemma_count_others(l, n, action);
        assert(l.take(n) =~= log.take(n));
    } else {
        assert(log.take(n) =~= log);
    }
}

/// One `advance` request more keeps the log's first `n` requests and that every later one is
/// an `advance` request.
pub proof fn lemma_log_grows(before: Seq<(Seq<char>, FlowData)>, after: Seq<(Seq<char>, FlowData)>, n: nat, iid: i64)
    requires
        n <= before.len(),
        after.len() == before.len() + 1,
        after == before.push(after.last()),
        advance_request(after.last(), iid),
        forall|k: int| n <= k < before.len() ==> advance_request(#[trigger] before[k], iid),
    ensures
        after.take(n as int) == before.take(n as int),
        forall|k: int| n <= k < after.len() ==> advance_request(#[trigger] after[k], iid),
{
    assert(after.take(n as int) =~= before.take(n as int));
    assert forall|k: int| n <= k < after.len() implies advance_request(#[trigger] after[k], iid) by {
        if k < before.len() {
            assert(after[k] == before[k]);
        }
    }
}

/// The seeding asks for the start action under its own name only.
proof fn lemma_seed_actions()
    ensures
        "processInstance/createCCInstance"@ != "processDefine/startAndExecute"@,
        "processTask/execute"@ != "processDefine/startAndExecute"@,
        "processTask/todoList"@ != "processDefine/startAndExecute"@,
        "processInstance/detail"@ != "processDefine/startAndExecute"@,
        "processSurrogate/save"@ != "processDefine/startAndExecute"@,
{
    reveal_strlit("processDefine/startAndExecute");
    reveal_strlit("processInstance/createCCInstance");
    reveal_strlit("processTask/execute");
    reveal_strlit("processTask/todoList");
    reveal_strlit("processInstance/detail");
    reveal_strlit("processSurrogate/save");
    assert("processDefine/startAndExecute"@.len() == 29);
    assert("processInstance/createCCInstance"@.len() == 32);
    assert("processTask/execute"@.len() == 19);
    assert("processTask/todoList"@.len() == 20);
    assert("processInstance/detail"@.len() == 22);
    assert("processSurrogate/save"@.len() == 21);
}

/// An answer's code (-1 when it has none).
fn code_of(resp: &JsonValue) -> (r: i64) {
    match resp.get_i64("code") {
        Some(c) => c,
        None => -1,
    }
}

/// An id or count in an answer: a number, or a text that reads as one.
fn as_int(v: Option<&JsonValue>) -> (r: Option<i64>)
    ensures
        r == int_field(match v {
            Some(x) => Some(jview(*x)),
            None => None,
        }),
{
    match v {
        Some(x) => x.as_i64(),
        None => None,
    }
}

fn data_of(resp: &JsonValue) -> (r: Option<&JsonValue>)
    ensures
        match r {
            Some(v) => crate::vo::obj_field(jview(*resp), "data"@) == Some(jview(*v)),
            None => crate::vo::obj_field(jview(*resp), "data"@) is None,
        },
{
    resp.get("data")
}

/// A whole number in an answer field.
pub open spec fn int_field(v: Option<JView>) -> Option<i64> {
    match v {
        Some(x) => crate::json::jview_as_i64(x),
        None => None,
    }
}

/// The state an instance-detail answer gives (`0` without one).
pub open spec fn detail_state(d: JView) -> i64 {
    match crate::vo::obj_field(d, "data"@) {
        Some(data) => match int_field(crate::vo::obj_field(data, "state"@)) {
            Some(s) => s,
            None => 0,
        },
        None => 0,
    }
}

/// The task rows of an instance-detail answer.
pub open spec fn detail_tasks(d: JView) -> Seq<JView> {
    match crate::vo::obj_field(d, "data"@) {
        Some(data) => match crate::vo::obj_field(data, "tasks"@) {
            Some(JView::Array(items)) => items,
            _ => Seq::empty(),
        },
        None => Seq::empty(),
    }
}

/// Who works a task row: its operator when that is not empty, else its first listed actor.
pub open spec fn row_actor(t: JView) -> Option<Seq<char>> {
    match crate::vo::obj_field(t, "operator"@) {
        Some(JView::Str(o)) if o.len() > 0 => Some(o),
        _ => match crate::vo::obj_field(t, "taskActorIdList"@) {
            Some(JView::Array(a)) => if a.len() > 0 {
                match a[0] {
                    JView::Str(x) => Some(x),
                    _ => None,
                }
            } else {
                None
            },
            _ => None,
        },
    }
}

/// The doing task rows (state 10) with an actor and an id, as (id, actor), in order.
pub open spec fn doing_rows(items: Seq<JView>) -> Seq<(i64, Seq<char>)>
    decreases items.len(),
{
    if items.len() == 0 {
        Seq::empty()
    } else {
        let rest = doing_rows(items.drop_last());
        let t = items.last();
        if int_field(crate::vo::obj_field(t, "taskState"@)) == Some(10i64) {
            match (row_actor(t), int_field(crate::vo::obj_field(t, "id"@))) {
                (Some(a), Some(id)) => rest.push((id, a)),
                _ => rest,
            }
        } else {
            rest
        }
    }
}

pub open spec fn pair_views(v: Seq<(i64, String)>) -> Seq<(i64, Seq<char>)> {
    v.map_values(|p: (i64, String)| (p.0, p.1@))
}

/// One round of working an instance forward, read off its detail answer: the state, the doing
/// rows to work, and whether to stop (the instance left state 10, or it has no task rows).
pub fn advance_step(detail: &JsonValue) -> (r: (i64, Vec<(i64, String)>, bool))
    ensures
        r.0 == detail_state(jview(*detail)),
        pair_views(r.1@) == doing_rows(detail_tasks(jview(*detail))),
        r.2 == (r.0 != 10 || detail_tasks(jview(*detail)).len() == 0),
{
    let data = data_of(detail);
    let state = match data {
        Some(d) => match as_int(d.get("state")) {
            Some(s) => s,
            None => 0,
        },
        None => 0,
    };
    let items: Option<&Vec<JsonValue>> = match data {
        Some(d) => match d.get("tasks") {
            Some(JsonValue::Array(items)) => Some(items),
            _ => None,
        },
        None => None,
    };
    let mut doing: Vec<(i64, String)> = Vec::new();
    let mut n: usize = 0;
    match items {
        Some(items) => {
            n = items.len();
            let ghost all = crate::json::jview_list(items@);
            proof {
                crate::json::lemma_jview_list(items@);
            }
            let mut k: usize = 0;
            assert(pair_views(doing@) =~= doing_rows(all.take(0)));
            while k < items.len()
                invariant
                    0 <= k <= items.len(),
                    all == crate::json::jview_list(items@),
                    all.len() == items@.len(),
                    forall|j: int| 0 <= j < items@.len() ==> #[trigger] all[j] == jview(items@[j]),
                    pair_views(doing@) == doing_rows(all.take(k as int)),
                decreases items.len() - k,
            {
                let t = &items[k];
                assert(all.take(k + 1).drop_last() =~= all.take(k as int));
                assert(all.take(k + 1).last() == jview(*t));
                if as_int(t.get("taskState")) == Some(10) {
                    let op = match t.get_str("operator") {
                        Some(o) => if crate::text::chars_of(o).len() > 0 { Some(owned(o)) } else { None },
                        None => None,
                    };
                    let actor = match op {
                        Some(a) => Some(a),
                        None => match t.get("taskActorIdList") {
                            Some(JsonValue::Array(a)) => if a.len() > 0 {
                                proof {
                                    crate::json::lemma_jview_list(a@);
                                }
                                match a[0].as_str() {
                                    Some(s) => Some(owned(s)),
                                    None => None,
                                }
                            } else {
                                None
                            },
                            _ => None,
                        },
                    };
                    assert(crate::model::opt_view(actor) == row_actor(jview(*t)));
                    match (actor, as_int(t.get("id"))) {
                        (Some(a), Some(tid)) => {
                            let ghost before = doing@;
                            doing.push((tid, a));
                            assert(pair_views(doing@) =~= pair_views(before).push((tid, a@)));
                        },
                        _ => {},
                    }
                }
                k = k + 1;
            }
            assert(all.take(items.len() as int) =~= all);
        },
        None => {},
    }
    let stop = state != 10 || n == 0;
    (state, doing, stop)
}

/// The arguments of a start: the define, the starter and the row's extra variable.
fn start_args(r: &SeedRow) -> (args: FlowData)
    ensures
        (r.extra matches Some(e) ==> e.0@ != "processDefineId"@ && e.0@ != "operator"@) ==> (
            args.lookup("processDefineId"@) == Some(JView::Number(r.define_id as int, 0))
            && args.lookup("operator"@) == Some(JView::Str(r.operator@))),
        r.extra matches Some(e) ==> args.lookup(e.0@) == Some(jview(e.1)),
{
    let mut args = FlowData::new();
    args.insert_i64("processDefineId", r.define_id);
    args.insert_str("operator", r.operator);
    proof {
        reveal_strlit("processDefineId");
        reveal_strlit("operator");
    }
    match &r.extra {
        Some((k, v)) => args.insert(owned(k), v.dup()),
        None => {},
    }
    assert("processDefineId"@.len() != "operator"@.len());
    args
}

/// The arguments of working a task as `actor`, agreeing.
pub fn execute_args(task_id: i64, actor: &str) -> (args: FlowData)
    ensures
        args.lookup("processTaskId"@) == Some(JView::Number(task_id as int, 0)),
        args.lookup("operator"@) == Some(JView::Str(actor@)),
        args.lookup("submitType"@) == Some(JView::Number(1, 0)),
{
    let mut args = FlowData::new();
    proof {
        reveal_strlit("processTaskId");
        reveal_strlit("operator");
        reveal_strlit("submitType");
    }
    args.insert_i64("processTaskId", task_id);
    args.insert_str("operator", actor);
    args.insert_i64("submitType", 1);
    assert("processTaskId"@.len() != "operator"@.len() && "processTaskId"@.len() != "submitType"@.len()
        && "operator"@.len() != "submitType"@.len());
    args
}

/// The arguments of a demo surrogate: `operator` delegates every flow to `surrogate` from
/// 2026-01-01 to the end of 2027.
pub fn surrogate_args(operator: &str, surrogate: &str) -> (args: FlowData)
    ensures
        args.lookup("operator"@) == Some(JView::Str(operator@)),
        args.lookup("surrogate"@) == Some(JView::Str(surrogate@)),
        args.lookup("processName"@) == Some(JView::Str(""@)),
        args.lookup("startTime"@) == Some(JView::Str("2026-01-01 00:00:00"@)),
        args.lookup("endTime"@) == Some(JView::Str("2027-12-31 23:59:59"@)),
{
    let mut args = FlowData::new();
    proof {
        reveal_strlit("operator");
        reveal_strlit("surrogate");
        reveal_strlit("processName");
        reveal_strlit("startTime");
        reveal_strlit("endTime");
    }
    args.insert_str("operator", operator);
    args.insert_str("surrogate", surrogate);
    args.insert_str("processName", "");
    args.insert_str("startTime", "2026-01-01 00:00:00");
    args.insert_str("endTime", "2027-12-31 23:59:59");
    assert("operator"@.len() == 8 && "surrogate"@.len() == 9 && "processName"@.len() == 11);
    assert("startTime"@.len() == 9 && "endTime"@.len() == 7);
    assert("surrogate"@[1] != "startTime"@[1]);
    args
}

impl<R: ProcessRepository + ProcessExtRepository, G: IdGenerator> JeeflowFacade<R, G> {
    /// Start and run the first step of an instance; its id, when that succeeded.
    fn seed_start(&mut self, r: &SeedRow) -> (res: Option<i64>)
        ensures
            one_more(old(self).requests@, final(self).requests@, "processDefine/startAndExecute"@),
    {
        let args = start_args(r);
        let resp = self.flow("processDefine/startAndExecute", &args);
        if code_of(&resp) != 0 {
            return None;
        }
        match data_of(&resp) {
            Some(d) => as_int(d.get("processInstanceId")),
            None => None,
        }
    }

    fn seed_cc(&mut self, iid: i64, op: &str, actors: &Vec<&'static str>)
        ensures
            one_more(old(self).requests@, final(self).requests@, "processInstance/createCCInstance"@),
    {
        let mut items: Vec<JsonValue> = Vec::new();
        let mut i: usize = 0;
        while i < actors.len()
            decreases actors.len() - i,
        {
            items.push(JsonValue::string(actors[i]));
            i = i + 1;
        }
        let mut args = FlowData::new();
        args.insert_i64("processInstanceId", iid);
        args.insert_str("operator", op);
        args.insert(owned("actorIds"), JsonValue::Array(items));
        let _ = self.flow("processInstance/createCCInstance", &args);
    }

    fn seed_execute(&mut self, task_id: i64, actor: &str) -> (r: bool)
        ensures
            one_more(old(self).requests@, final(self).requests@, "processTask/execute"@),
            final(self).requests@.last().1.lookup("processTaskId"@) == Some(JView::Number(task_id as int, 0)),
            final(self).requests@.last().1.lookup("operator"@) == Some(JView::Str(actor@)),
            final(self).requests@.last().1.lookup("submitType"@) == Some(JView::Number(1, 0)),
    {
        let args = execute_args(task_id, actor);
        let resp = self.flow("processTask/execute", &args);
        code_of(&resp) == 0
    }

    /// The instance-detail answer of `iid`.
    fn instance_state(&mut self, iid: i64) -> (r: JsonValue)
        ensures
            one_more(old(self).requests@, final(self).requests@, "processInstance/detail"@),
            advance_request(final(self).requests@.last(), iid),
    {
        let mut args = FlowData::new();
        proof {
            reveal_strlit("id");
        }
        args.insert_i64("id", iid);
        self.flow("processInstance/detail", &args)
    }

    /// Work every doing task of an instance by its own actor (agree), round after round, until
    /// the instance leaves state 10, it has no task rows, a round makes no progress, or 30
    /// rounds have passed; answers the state it ends in (as the last detail answer gives it,
    /// see `advance_step`).
    pub fn advance(&mut self, iid: i64) -> (r: i64)
        ensures
            exists|d: JView| r == #[trigger] detail_state(d),
            old(self).requests@.len() < final(self).requests@.len(),
            final(self).requests@.take(old(self).requests@.len() as int) == old(self).requests@,
            forall|k: int| old(self).requests@.len() <= k < final(self).requests@.len()
                ==> advance_request(#[trigger] final(self).requests@[k], iid),
    {
        let ghost n0 = self.requests@.len();
        assert(self.requests@.take(n0 as int) =~= old(self).requests@);
        let mut round: usize = 0;
        while round < 30
            invariant
                n0 == old(self).requests@.len(),
                n0 <= self.requests@.len(),
                self.requests@.take(n0 as int) == old(self).requests@,
                forall|k: int| n0 <= k < self.requests@.len() ==> advance_request(#[trigger] self.requests@[k], iid),
            decreases 30 - round,
        {
            let ghost l0 = self.requests@;
            let d = self.instance_state(iid);
            proof {
                lemma_log_grows(l0, self.requests@, n0, iid);
            }
            let (state, doing, stop) = advance_step(&d);
            if stop {
                return state;
            }
            let mut progress = false;
            let mut k: usize = 0;
            while k < doing.len()
                invariant
                    n0 == old(self).requests@.len(),
                    n0 < self.requests@.len(),
                    self.requests@.take(n0 as int) == old(self).requests@,
                    forall|j: int| n0 <= j < self.requests@.len() ==> advance_request(#[trigger] self.requests@[j], iid),
                decreases doing.len() - k,
            {
                let ghost l1 = self.requests@;
                let done = self.seed_execute(doing[k].0, doing[k].1.as_str());
                proof {
                    lemma_log_grows(l1, self.requests@, n0, iid);
                }
                if done {
                    progress = true;
                }
                k = k + 1;
            }
            if !progress {
                return state;
            }
            round = round + 1;
        }
        let ghost l2 = self.requests@;
        let d = self.instance_state(iid);
        proof {
            lemma_log_grows(l2, self.requests@, n0, iid);
        }
        let (state, _, _) = advance_step(&d);
        state
    }

    /// The doing todo row of `op` in instance `iid`, as its task id.
    fn todo_task_of(&mut self, op: &str, iid: i64) -> (r: Option<i64>)
        ensures
            one_more(old(self).requests@, final(self).requests@, "processTask/todoList"@),
    {
        let mut args = FlowData::new();
        args.insert_str("operator", op);
        args.insert_i64("pageNum", 1);
        args.insert_i64("pageSize", 200);
        let resp = self.flow("processTask/todoList", &args);
        let rows = match data_of(&resp) {
            Some(d) => match d.get("rows") {
                Some(JsonValue::Array(rows)) => rows.len(),
                _ => 0,
            },
            None => 0,
        };
        if rows == 0 {
            return None;
        }
        let want = crate::text::i64_text(iid);
        match data_of(&resp) {
            Some(d) => match d.get("rows") {
                Some(JsonValue::Array(rows)) => {
                    let mut k: usize = 0;
                    while k < rows.len()
                        invariant
                            one_more(old(self).requests@, self.requests@, "processTask/todoList"@),
                        decreases rows.len() - k,
                    {
                        let r = &rows[k];
                        let same = match r.get("processInstanceId") {
                            Some(JsonValue::Str(t)) => str_eq(t.as_str(), want.as_str()),
                            Some(v) => str_eq(v.to_json_string().as_str(), want.as_str()),
                            None => false,
                        };
                        if same && as_int(r.get("taskState")) == Some(10) {
                            return as_int(r.get("id"));
                        }
                        k = k + 1;
                    }
                    None
                },
                _ => None,
            },
            None => None,
        }
    }

    /// Seed the business data: the in-progress instances (one of them worked on by `leader`
    /// and `manager`), the finished ones, their carbon copies and the surrogates. Answers how
    /// many of each went through.
    pub fn seed_business(&mut self) -> (r: (usize, usize, usize))
        ensures
            r.0 <= 16 && r.1 <= 9 && r.2 <= 8,
            count_of(final(self).requests@, "processDefine/startAndExecute"@)
                == count_of(old(self).requests@, "processDefine/startAndExecute"@) + 25,
            final(self).requests@.len() >= old(self).requests@.len() + 33,
            forall|k: int| #![trigger demo_pairs()[k]] 0 <= k < 8 ==> surrogate_save(
                final(self).requests@[final(self).requests@.len() - 8 + k],
                demo_pairs()[k],
            ),
    {
        let ghost c0 = count_of(self.requests@, "processDefine/startAndExecute"@);
        let ghost n0 = self.requests@.len();
        let rows = in_progress_rows();
        let mut ok_in: usize = 0;
        let mut i: usize = 0;
        while i < rows.len()
            invariant
                0 <= i <= rows.len(),
                rows@.len() == 16,
                ok_in <= i,
                count_of(self.requests@, "processDefine/startAndExecute"@) == c0 + i,
                self.requests@.len() >= n0 + i,
            decreases rows.len() - i,
        {
            let r = &rows[i];
            let ghost l0 = self.requests@;
            let started = self.seed_start(r);
            proof {
                lemma_seed_actions();
                lemma_count_push(l0, self.requests@.last(), "processDefine/startAndExecute"@);
            }
            match started {
                Some(iid) => {
                    if r.define_id == 2 && str_eq(r.operator, "userA") {
                        let actors: [&str; 2] = ["leader", "manager"];
                        let mut a: usize = 0;
                        while a < 2
                            invariant
                                count_of(self.requests@, "processDefine/startAndExecute"@) == c0 + i + 1,
                                self.requests@.len() >= n0 + i + 1,
                            decreases 2 - a,
                        {
                            let ghost l1 = self.requests@;
                            let found = self.todo_task_of(actors[a], iid);
                            proof {
                                lemma_seed_actions();
                                lemma_count_push(l1, self.requests@.last(), "processDefine/startAndExecute"@);
                            }
                            match found {
                                Some(tid) => {
                                    let ghost l2 = self.requests@;
                                    let _ = self.seed_execute(tid, actors[a]);
                                    proof {
                                        lemma_count_push(l2, self.requests@.last(), "processDefine/startAndExecute"@);
                                    }
                                },
                                None => {},
                            }
                            a = a + 1;
                        }
                    }
                    if r.cc.len() > 0 {
                        let ghost l3 = self.requests@;
                        self.seed_cc(iid, r.operator, &r.cc);
                        proof {
                            lemma_count_push(l3, self.requests@.last(), "processDefine/startAndExecute"@);
                        }
                    }
                    ok_in = ok_in + 1;
                },
                None => {},
            }
            i = i + 1;
        }
        let rows = finished_rows();
        let mut ok_fin: usize = 0;
        let mut i: usize = 0;
        while i < rows.len()
            invariant
                0 <= i <= rows.len(),
                rows@.len() == 9,
                ok_fin <= i,
                count_of(self.requests@, "processDefine/startAndExecute"@) == c0 + 16 + i,
                self.requests@.len() >= n0 + 16 + i,
            decreases rows.len() - i,
        {
            let r = &rows[i];
            let ghost l0 = self.requests@;
            let started = self.seed_start(r);
            proof {
                lemma_seed_actions();
                lemma_count_push(l0, self.requests@.last(), "processDefine/startAndExecute"@);
            }
            match started {
                Some(iid) => {
                    let ghost l1 = self.requests@;
                    let _ = self.advance(iid);
                    proof {
                        lemma_seed_actions();
                        assert forall|k: int| l1.len() <= k < self.requests@.len() implies (#[trigger] self.requests@[k]).0
                            != "processDefine/startAndExecute"@ by {
                            assert(advance_request(self.requests@[k], iid));
                        }
                        lemma_count_others(self.requests@, l1.len() as int, "processDefine/startAndExecute"@);
                    }
                    if r.cc.len() > 0 {
                        let ghost l3 = self.requests@;
                        self.seed_cc(iid, r.operator, &r.cc);
                        proof {
                            lemma_count_push(l3, self.requests@.last(), "processDefine/startAndExecute"@);
                        }
                    }
                    ok_fin = ok_fin + 1;
                },
                None => {},
            }
            i = i + 1;
        }
        let pairs = surrogate_pairs();
        let mut ok_surr: usize = 0;
        let ghost n3 = self.requests@.len();
        let mut i: usize = 0;
        while i < pairs.len()
            invariant
                0 <= i <= pairs.len(),
                pairs@.len() == 8,
                forall|k: int| 0 <= k < 8 ==> (#[trigger] pairs@[k].0@, pairs@[k].1@) == demo_pairs()[k],
                ok_surr <= i,
                count_of(self.requests@, "processDefine/startAndExecute"@) == c0 + 25,
                n3 >= n0 + 25,
                self.requests@.len() == n3 + i,
                forall|k: int| #![trigger demo_pairs()[k]] 0 <= k < i ==> surrogate_save(self.requests@[n3 + k], demo_pairs()[k]),
            decreases pairs.len() - i,
        {
            let args = surrogate_args(pairs[i].0, pairs[i].1);
            let ghost l0 = self.requests@;
            let resp = self.flow("processSurrogate/save", &args);
            proof {
                lemma_seed_actions();
                lemma_count_push(l0, self.requests@.last(), "processDefine/startAndExecute"@);
                assert((pairs@[i as int].0@, pairs@[i as int].1@) == demo_pairs()[i as int]);
                assert forall|k: int| #![trigger demo_pairs()[k]] 0 <= k < i + 1 implies surrogate_save(
                    self.requests@[n3 + k],
                    demo_pairs()[k],
                ) by {
                    if k < i {
                        assert(self.requests@[n3 + k] == l0[n3 + k]);
                    }
                }
            }
            if code_of(&resp) == 0 {
                ok_surr = ok_surr + 1;
            }
            i = i + 1;
        }
        (ok_in, ok_fin, ok_surr)
    }
}

} // verus!
