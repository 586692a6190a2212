use std::sync::{Arc, Mutex};

use jeeflow::context::ServiceContext;
use jeeflow::engine::{
    can_rejected, gate_step, lineage_vars, parse_cc_actors, resolve_assignee, revive_parent, submit_type_of,
    Execution, GateStep,
};
use jeeflow::error::{JeeflowError, JeeflowResult};
use jeeflow::eval::{compare_values, evaluate_resolved, resolve_var_refs, simple_eval, ValueOrder};
use jeeflow::event::{ProcessEvent, ProcessEventListener, ProcessEventType};
use jeeflow::executor::JeeflowEngineImpl;
use jeeflow::handler::CountersignHandler;
use jeeflow::id_gen::AtomicIdGenerator;
use jeeflow::interceptor::{
    filter_fields_by_permission, register_builtin_assignment_handlers, FormFieldAssigneeHandler,
    OperatorAssignmentHandler,
};
use jeeflow::json::{FlowData, JsonNumber, JsonValue};
use jeeflow::memory::MemoryRepository;
use jeeflow::model::{
    PageQuery, PerformType, ProcessDefine, ProcessInstance, ProcessTask, TaskState, TaskType, UserInfo,
};
use jeeflow::parser::{ModelParser, NodeModel, NodeType, ProcessModel};
use jeeflow::spi::{AssignmentHandler, OrgUserProvider, ProcessRepository, UserProvider};

type Engine = JeeflowEngineImpl<MemoryRepository, AtomicIdGenerator>;

fn make_engine() -> Engine {
    let ctx = ServiceContext::new(MemoryRepository::new(), AtomicIdGenerator::new(1));
    JeeflowEngineImpl::new(ctx)
}

fn simple_flow_json() -> Vec<u8> {
    r#"{
        "name": "test-flow",
        "displayName": "Test Flow",
        "type": "approval",
        "nodes": [
            {"id": "start", "type": "snaker:start", "text": {"value": "Start"}},
            {"id": "apply", "type": "snaker:task", "text": {"value": "Apply"},
             "properties": {"assignee": "applicant"}},
            {"id": "end", "type": "snaker:end", "text": {"value": "End"}}
        ],
        "edges": [
            {"id": "e1", "sourceNodeId": "start", "targetNodeId": "apply"},
            {"id": "e2", "sourceNodeId": "apply", "targetNodeId": "end"}
        ]
    }"#
    .as_bytes()
    .to_vec()
}

fn define_of(content: Vec<u8>) -> ProcessDefine {
    ProcessDefine {
        id: 0,
        name: "test-flow".into(),
        display_name: "Test".into(),
        define_type: "approval".into(),
        state: 1,
        content,
        version: 1,
        create_time: None,
        create_user: None,
        update_time: None,
        update_user: None,
    }
}

fn save_define(engine: &mut Engine, content: Vec<u8>) -> i64 {
    let mut d = define_of(content);
    engine.ctx.repository.save_define(&mut d).unwrap();
    d.id
}

struct Capture {
    kind: ProcessEventType,
    seen: Arc<Mutex<Vec<(i64, Option<String>)>>>,
}

impl ProcessEventListener for Capture {
    fn on_event(&self, event: &ProcessEvent) {
        if event.event_type == self.kind {
            self.seen.lock().unwrap().push((event.source_id, event.cc_actor_id.clone()));
        }
    }
}

fn capture(engine: &mut Engine, kind: ProcessEventType) -> Arc<Mutex<Vec<(i64, Option<String>)>>> {
    let seen = Arc::new(Mutex::new(Vec::new()));
    engine.ctx.register_event_listener(Box::new(Capture { kind, seen: seen.clone() }));
    seen
}

#[test]
fn test_engine_start_async() {
    let mut engine = make_engine();
    let define_id = save_define(&mut engine, simple_flow_json());
    let result = engine.start_async(define_id, "user1", &FlowData::new());
    assert!(result.is_ok());
    let instance = result.unwrap();
    assert_eq!(instance.operator, "user1");
}

#[test]
fn test_task_start_event_fires_after_persist() {
    let mut engine = make_engine();
    let seen = capture(&mut engine, ProcessEventType::ProcessTaskStart);
    let define_id = save_define(&mut engine, simple_flow_json());
    let instance = engine.start_async(define_id, "user1", &FlowData::new()).unwrap();
    assert!(instance.instance_id > 0);
    let fired = seen.lock().unwrap().clone();
    assert_eq!(fired.len(), 1, "one task, one task-start event");
    let task_id = fired[0].0;
    assert!(task_id > 0, "the event carries the stored task id");
    assert!(engine.ctx.repository.find_task_by_id(task_id).unwrap().is_some(), "the task is stored when the event fires");
}

#[test]
fn test_cc_create_event_fired_per_actor() {
    let mut engine = make_engine();
    let seen = capture(&mut engine, ProcessEventType::CcCreate);
    let define_id = save_define(&mut engine, simple_flow_json());
    let mut args = FlowData::new();
    args.insert("f_ccActors".into(), JsonValue::Array(vec![JsonValue::Str("u1".into()), JsonValue::Str("u2".into())]));
    let instance = engine.start_async(define_id, "user1", &args).unwrap();
    let fired = seen.lock().unwrap().clone();
    assert_eq!(fired.len(), 2, "one event per recipient, got {:?}", fired);
    assert!(fired.iter().all(|(sid, _)| *sid == instance.instance_id));
    let actors: Vec<String> = fired.iter().map(|(_, a)| a.clone().expect("recipient on the event")).collect();
    assert_eq!(actors, vec!["u1".to_string(), "u2".to_string()]);
    let q = PageQuery::new(1, 10);
    let page = engine.ctx.repository.page_cc_instances(&q).unwrap();
    assert_eq!(page.record_count, 2, "one carbon copy per recipient");
}

#[test]
fn test_cc_create_no_listener_zero_side_effect() {
    let mut engine = make_engine();
    let define_id = save_define(&mut engine, simple_flow_json());
    let mut args = FlowData::new();
    args.insert("f_ccActors".into(), JsonValue::Array(vec![JsonValue::Str("u9".into())]));
    let instance = engine.start_async(define_id, "user1", &args).unwrap();
    let q = PageQuery::new(1, 10);
    let page = engine.ctx.repository.page_cc_instances(&q).unwrap();
    assert_eq!(page.record_count, 1);
    assert!(instance.instance_id > 0);
}

#[test]
fn test_reject_path_fires_instance_end() {
    let mut engine = make_engine();
    let seen = capture(&mut engine, ProcessEventType::ProcessInstanceEnd);
    let define_id = save_define(&mut engine, simple_flow_json());
    let instance = engine.start_async(define_id, "user1", &FlowData::new()).unwrap();
    let tasks = engine.ctx.repository.find_doing_tasks(instance.instance_id, &[]).unwrap();
    assert!(!tasks.is_empty());
    let task_id = tasks[0].task_id;
    let result = engine.execute_and_jump_to_end_async(task_id, "flow.auto", &FlowData::new());
    assert!(result.is_ok(), "reject must succeed: {:?}", result.err().map(|e| e.message()));
    let inst = engine.ctx.repository.find_instance_by_id(instance.instance_id).unwrap().unwrap();
    assert_eq!(inst.state, 45);
    let fired = seen.lock().unwrap().clone();
    assert_eq!(fired.len(), 1);
    assert_eq!(fired[0].0, instance.instance_id);
}

#[test]
fn test_engine_start_not_found() {
    let mut engine = make_engine();
    let result = engine.start_async(99999, "user1", &FlowData::new());
    assert!(matches!(result, Err(JeeflowError::DefineNotFound(99999))));
}

#[test]
fn test_execution_new() {
    let define = ProcessDefine { id: 1, name: "test".into(), ..define_of(simple_flow_json()) };
    let model = ModelParser::parse(std::str::from_utf8(&define.content).unwrap()).unwrap();
    let instance = ProcessInstance::create(&define, "user1", &FlowData::new());
    let exec = Execution::new(instance, model, define, "user1", FlowData::new());
    assert_eq!(exec.operator, "user1");
    assert!(!exec.instance_finished);
    assert!(exec.new_tasks.is_empty());
}

#[test]
fn test_engine_execute_task_async() {
    let mut engine = make_engine();
    let define_id = save_define(&mut engine, simple_flow_json());
    let instance = engine.start_async(define_id, "user1", &FlowData::new()).unwrap();
    let tasks = engine.ctx.repository.find_doing_tasks(instance.instance_id, &[]).unwrap();
    assert_eq!(tasks.len(), 1);
    let created = engine.execute_task_async(tasks[0].task_id, "user1", &FlowData::new()).unwrap();
    assert!(created.is_empty(), "the end node follows");
    let inst = engine.ctx.repository.find_instance_by_id(instance.instance_id).unwrap().unwrap();
    assert_eq!(inst.state, 20, "the instance is finished");
}

#[test]
fn test_engine_execute_task_permission_denied() {
    let mut engine = make_engine();
    let define_id = save_define(&mut engine, simple_flow_json());
    let instance = engine.start_async(define_id, "user1", &FlowData::new()).unwrap();
    let tasks = engine.ctx.repository.find_doing_tasks(instance.instance_id, &[]).unwrap();
    let task_id = tasks[0].task_id;
    let result = engine.execute_task_async(task_id, "user999", &FlowData::new());
    match result {
        Err(JeeflowError::PermissionDenied(m)) => {
            assert_eq!(m, format!("Operator user999 not allowed on task {}", task_id))
        },
        _ => panic!("permission must be denied"),
    }
}

#[test]
fn test_engine_execute_task_not_found() {
    let mut engine = make_engine();
    let result = engine.execute_task_async(99999, "user1", &FlowData::new());
    assert!(matches!(result, Err(JeeflowError::TaskNotFound(99999))));
}

#[test]
fn test_engine_with_ext_repository() {
    let ctx = ServiceContext::new(MemoryRepository::new(), AtomicIdGenerator::new(1)).with_ext_repository();
    let engine = JeeflowEngineImpl::new(ctx);
    assert!(engine.context().ext_repository);
    assert!(engine.context().get_repository().find_define_by_id(1).is_ok());
}

#[test]
fn test_finished_task_cannot_be_worked_again() {
    let mut engine = make_engine();
    let define_id = save_define(&mut engine, simple_flow_json());
    let instance = engine.start_async(define_id, "user1", &FlowData::new()).unwrap();
    let task_id = engine.ctx.repository.find_doing_tasks(instance.instance_id, &[]).unwrap()[0].task_id;
    engine.execute_task_async(task_id, "user1", &FlowData::new()).unwrap();
    match engine.execute_task_async(task_id, "user1", &FlowData::new()) {
        Err(JeeflowError::InvalidState(m)) => assert_eq!(m, format!("Task {} is not DOING", task_id)),
        _ => panic!("a finished task is not DOING"),
    }
}

// ─── flows with more nodes ───

fn multi_task_flow() -> Vec<u8> {
    r#"{"name":"multi","displayName":"Multi","type":"approval",
        "nodes":[
          {"id":"start","type":"snaker:start","text":{"value":"S"}},
          {"id":"apply","type":"snaker:task","text":{"value":"Apply"},"properties":{"assignee":"applicant"}},
          {"id":"task1","type":"snaker:task","text":{"value":"T1"},"properties":{"assignee":"approverA"}},
          {"id":"task2","type":"snaker:task","text":{"value":"T2"},"properties":{"assignee":"approverB"}},
          {"id":"end","type":"snaker:end","text":{"value":"E"}}],
        "edges":[
          {"id":"e1","sourceNodeId":"start","targetNodeId":"apply"},
          {"id":"e2","sourceNodeId":"apply","targetNodeId":"task1"},
          {"id":"e3","sourceNodeId":"task1","targetNodeId":"task2"},
          {"id":"e4","sourceNodeId":"task2","targetNodeId":"end"}]}"#
        .as_bytes()
        .to_vec()
}

fn doing(engine: &Engine, iid: i64) -> Vec<ProcessTask> {
    engine.ctx.repository.find_doing_tasks(iid, &[]).unwrap()
}

fn agree() -> FlowData {
    let mut a = FlowData::new();
    a.insert_i64("submitType", 1);
    a
}

#[test]
fn test_multi_task_walks_in_order_and_records_lineage() {
    let mut engine = make_engine();
    let did = save_define(&mut engine, multi_task_flow());
    let inst = engine.start_async(did, "applicant1", &FlowData::new()).unwrap();
    let apply = doing(&engine, inst.instance_id)[0].dup();
    assert_eq!(apply.task_name, "apply");
    assert_eq!(apply.actor_ids, vec!["applicant1".to_string()]);
    assert_eq!(apply.parent_task_id, Some(0));
    assert_eq!(apply.variables.get("isFirstTaskNode").and_then(|v| v.as_bool()), Some(true));
    let next = engine.execute_task_async(apply.task_id, "applicant1", &agree()).unwrap();
    assert_eq!(next.len(), 1);
    assert_eq!(next[0].task_name, "task1");
    assert_eq!(next[0].actor_ids, vec!["approverA".to_string()]);
    assert_eq!(next[0].parent_task_id, Some(apply.task_id));
}

#[test]
fn test_rollback_revives_parent_row() {
    let mut engine = make_engine();
    let did = save_define(&mut engine, multi_task_flow());
    let inst = engine.start_async(did, "applicant1", &FlowData::new()).unwrap();
    let iid = inst.instance_id;
    let apply = doing(&engine, iid)[0].dup();
    engine.execute_task_async(apply.task_id, "applicant1", &agree()).unwrap();
    let t1 = doing(&engine, iid)[0].dup();
    let mut a1 = agree();
    a1.insert_str("tf_note", "ok");
    engine.execute_task_async(t1.task_id, "approverA", &a1).unwrap();
    let t2 = doing(&engine, iid)[0].dup();
    assert_eq!(t2.task_name, "task2");
    let mut rb = FlowData::new();
    rb.insert_i64("submitType", 3);
    engine.execute_and_jump_async(t2.task_id, "approverB", &rb, None).unwrap();
    let now_doing = doing(&engine, iid);
    let revived = now_doing.iter().find(|t| t.task_name == "task1").expect("task1 revived");
    assert_ne!(revived.task_id, t1.task_id);
    assert_eq!(revived.actor_ids, vec!["approverA".to_string()]);
    assert_eq!(revived.parent_task_id, t1.parent_task_id);
    assert!(!revived.variables.contains_key("submitType"));
    assert!(!revived.variables.contains_key("tf_note"));
    assert_eq!(revived.variables.get("isFirstTaskNode").and_then(|v| v.as_bool()), Some(false));
    let after = engine.ctx.repository.find_instance_by_id(iid).unwrap().unwrap();
    assert_eq!(after.state, 10);
}

#[test]
fn test_rollback_without_lineage_is_refused() {
    let mut engine = make_engine();
    let did = save_define(&mut engine, multi_task_flow());
    let inst = engine.start_async(did, "applicant1", &FlowData::new()).unwrap();
    let apply = doing(&engine, inst.instance_id)[0].dup();
    let mut rb = FlowData::new();
    rb.insert_i64("submitType", 3);
    let e = engine.execute_and_jump_async(apply.task_id, "applicant1", &rb, None).err().expect("no lineage");
    assert!(e.message().contains("20010007"), "got {}", e.message());
}

#[test]
fn test_jump_to_first_task_node() {
    let mut engine = make_engine();
    let did = save_define(&mut engine, multi_task_flow());
    let inst = engine.start_async(did, "applicant1", &FlowData::new()).unwrap();
    let iid = inst.instance_id;
    let apply = doing(&engine, iid)[0].dup();
    engine.execute_task_async(apply.task_id, "applicant1", &agree()).unwrap();
    let t1 = doing(&engine, iid)[0].dup();
    let created = engine.execute_and_jump_to_first_async(t1.task_id, "approverA", &FlowData::new()).unwrap();
    assert_eq!(created.len(), 1);
    assert_eq!(created[0].task_name, "apply");
    assert_eq!(created[0].actor_ids, vec!["applicant1".to_string()]);
}

fn fork_join_flow() -> Vec<u8> {
    r#"{"name":"fj","displayName":"FJ","type":"approval",
        "nodes":[
          {"id":"start","type":"snaker:start","text":{"value":"S"}},
          {"id":"apply","type":"snaker:task","text":{"value":"Apply"},"properties":{"assignee":"applicant"}},
          {"id":"fork","type":"snaker:fork","text":{"value":"F"}},
          {"id":"taskA","type":"snaker:task","text":{"value":"A"},"properties":{"assignee":"ua"}},
          {"id":"taskB","type":"snaker:task","text":{"value":"B"},"properties":{"assignee":"ub"}},
          {"id":"join","type":"snaker:join","text":{"value":"J"}},
          {"id":"end","type":"snaker:end","text":{"value":"E"}}],
        "edges":[
          {"id":"e1","sourceNodeId":"start","targetNodeId":"apply"},
          {"id":"e2","sourceNodeId":"apply","targetNodeId":"fork"},
          {"id":"e3","sourceNodeId":"fork","targetNodeId":"taskA"},
          {"id":"e4","sourceNodeId":"fork","targetNodeId":"taskB"},
          {"id":"e5","sourceNodeId":"taskA","targetNodeId":"join"},
          {"id":"e6","sourceNodeId":"taskB","targetNodeId":"join"},
          {"id":"e7","sourceNodeId":"join","targetNodeId":"end"}]}"#
        .as_bytes()
        .to_vec()
}

#[test]
fn test_fork_join_waits_for_both_branches() {
    let mut engine = make_engine();
    let did = save_define(&mut engine, fork_join_flow());
    let inst = engine.start_async(did, "applicant1", &FlowData::new()).unwrap();
    let iid = inst.instance_id;
    let apply = doing(&engine, iid)[0].dup();
    let created = engine.execute_task_async(apply.task_id, "applicant1", &agree()).unwrap();
    let names: Vec<String> = created.iter().map(|t| t.task_name.clone()).collect();
    assert_eq!(names, vec!["taskA".to_string(), "taskB".to_string()]);
    let a = created[0].dup();
    let b = created[1].dup();
    engine.execute_task_async(a.task_id, "ua", &agree()).unwrap();
    let mid = engine.ctx.repository.find_instance_by_id(iid).unwrap().unwrap();
    assert_eq!(mid.state, 10, "one branch left");
    engine.execute_task_async(b.task_id, "ub", &agree()).unwrap();
    let done = engine.ctx.repository.find_instance_by_id(iid).unwrap().unwrap();
    assert_eq!(done.state, 20, "both branches done, the join leads to the end");
    let mut rb = FlowData::new();
    rb.insert_i64("submitType", 3);
    let _ = rb;
}

#[test]
fn test_rollback_across_fork_is_guarded() {
    let mut engine = make_engine();
    let did = save_define(&mut engine, fork_join_flow());
    let inst = engine.start_async(did, "applicant1", &FlowData::new()).unwrap();
    let iid = inst.instance_id;
    let apply = doing(&engine, iid)[0].dup();
    let created = engine.execute_task_async(apply.task_id, "applicant1", &agree()).unwrap();
    let branch = created[0].dup();
    assert!(branch.parent_task_id.unwrap_or(0) != 0);
    let mut rb = FlowData::new();
    rb.insert_i64("submitType", 3);
    let e = engine.execute_and_jump_async(branch.task_id, "ua", &rb, None).err().expect("guarded");
    assert!(e.message().contains("20010008"), "got {}", e.message());
}

fn decision_flow() -> Vec<u8> {
    r#"{"name":"dec","displayName":"Dec","type":"approval",
        "nodes":[
          {"id":"start","type":"snaker:start","text":{"value":"S"}},
          {"id":"apply","type":"snaker:task","text":{"value":"Apply"},"properties":{"assignee":"applicant"}},
          {"id":"d1","type":"snaker:decision","text":{"value":"D"}},
          {"id":"small","type":"snaker:task","text":{"value":"Small"},"properties":{"assignee":"lead"}},
          {"id":"big","type":"snaker:task","text":{"value":"Big"},"properties":{"assignee":"boss"}},
          {"id":"end","type":"snaker:end","text":{"value":"E"}}],
        "edges":[
          {"id":"e1","sourceNodeId":"start","targetNodeId":"apply"},
          {"id":"e2","sourceNodeId":"apply","targetNodeId":"d1"},
          {"id":"e3","sourceNodeId":"d1","targetNodeId":"big","properties":{"expr":"${f_days} > 3"}},
          {"id":"e4","sourceNodeId":"d1","targetNodeId":"small","properties":{"expr":"${f_days} <= 3"}},
          {"id":"e5","sourceNodeId":"small","targetNodeId":"end"},
          {"id":"e6","sourceNodeId":"big","targetNodeId":"end"}]}"#
        .as_bytes()
        .to_vec()
}

#[test]
fn test_decision_follows_the_edge_whose_expression_holds() {
    for (days, expected) in [("5", "big"), ("2", "small"), ("3.0", "small"), ("10", "big")] {
        let mut engine = make_engine();
        let did = save_define(&mut engine, decision_flow());
        let mut args = FlowData::new();
        args.insert_str("f_days", days);
        let inst = engine.start_async(did, "applicant1", &args).unwrap();
        let apply = doing(&engine, inst.instance_id)[0].dup();
        let created = engine.execute_task_async(apply.task_id, "applicant1", &agree()).unwrap();
        assert_eq!(created.len(), 1, "days={days}");
        assert_eq!(created[0].task_name, expected, "days={days}");
    }
}

fn countersign_flow(kind: &str, condition: Option<&str>) -> Vec<u8> {
    let cond = match condition {
        Some(c) => format!(r#","countersignCompletionCondition":"{}""#, c),
        None => String::new(),
    };
    format!(
        r#"{{"name":"cs","displayName":"CS","type":"approval",
        "nodes":[
          {{"id":"start","type":"snaker:start","text":{{"value":"S"}}}},
          {{"id":"apply","type":"snaker:task","text":{{"value":"Apply"}},"properties":{{"assignee":"applicant"}}}},
          {{"id":"cs","type":"snaker:task","text":{{"value":"CS"}},"properties":{{"assignee":"u1,u2,u3","performType":"COUNTERSIGN","countersignType":"{}"{}}}}},
          {{"id":"after","type":"snaker:task","text":{{"value":"After"}},"properties":{{"assignee":"boss"}}}},
          {{"id":"end","type":"snaker:end","text":{{"value":"E"}}}}],
        "edges":[
          {{"id":"e1","sourceNodeId":"start","targetNodeId":"apply"}},
          {{"id":"e2","sourceNodeId":"apply","targetNodeId":"cs"}},
          {{"id":"e3","sourceNodeId":"cs","targetNodeId":"after"}},
          {{"id":"e4","sourceNodeId":"after","targetNodeId":"end"}}]}}"#,
        kind, cond
    )
    .into_bytes()
}

fn start_countersign(kind: &str, condition: Option<&str>) -> (Engine, i64, Vec<ProcessTask>) {
    let mut engine = make_engine();
    let did = save_define(&mut engine, countersign_flow(kind, condition));
    let inst = engine.start_async(did, "applicant1", &FlowData::new()).unwrap();
    let apply = doing(&engine, inst.instance_id)[0].dup();
    let created = engine.execute_task_async(apply.task_id, "applicant1", &agree()).unwrap();
    (engine, inst.instance_id, created)
}

#[test]
fn test_countersign_parallel_waits_for_all() {
    let (mut engine, iid, created) = start_countersign("PARALLEL", None);
    assert_eq!(created.len(), 3);
    assert!(engine.execute_task_async(created[0].task_id, "u1", &agree()).unwrap().is_empty());
    assert!(engine.execute_task_async(created[1].task_id, "u2", &agree()).unwrap().is_empty());
    let last = engine.execute_task_async(created[2].task_id, "u3", &agree()).unwrap();
    assert_eq!(last.len(), 1);
    assert_eq!(last[0].task_name, "after");
    assert_eq!(doing(&engine, iid).len(), 1);
}

#[test]
fn test_countersign_sequential_hands_on_one_by_one() {
    let (mut engine, iid, created) = start_countersign("SEQUENTIAL", None);
    assert_eq!(created.len(), 1);
    assert_eq!(created[0].actor_ids, vec!["u1".to_string()]);
    let second = engine.execute_task_async(created[0].task_id, "u1", &agree()).unwrap();
    assert_eq!(second.len(), 1);
    assert_eq!(second[0].actor_ids, vec!["u2".to_string()]);
    let third = engine.execute_task_async(second[0].task_id, "u2", &agree()).unwrap();
    assert_eq!(third[0].actor_ids, vec!["u3".to_string()]);
    let after = engine.execute_task_async(third[0].task_id, "u3", &agree()).unwrap();
    assert_eq!(after.len(), 1);
    assert_eq!(after[0].task_name, "after");
    let _ = iid;
}

#[test]
fn test_countersign_ratio_expression_merges_early() {
    let (mut engine, iid, created) = start_countersign("PARALLEL", Some("#nrOfCompletedInstances >= 2"));
    assert_eq!(created.len(), 3);
    assert!(engine.execute_task_async(created[0].task_id, "u1", &agree()).unwrap().is_empty());
    let next = engine.execute_task_async(created[1].task_id, "u2", &agree()).unwrap();
    assert_eq!(next.len(), 1);
    assert_eq!(next[0].task_name, "after");
    let remaining = doing(&engine, iid);
    assert_eq!(remaining.len(), 1, "the third vote was abandoned");
    assert_eq!(remaining[0].task_name, "after");
}

#[test]
fn test_countersign_one_vote_veto_merges() {
    let (mut engine, iid, created) = start_countersign("PARALLEL", Some("ONE_VOTE_VETO"));
    let mut veto = FlowData::new();
    veto.insert_i64("submitType", 20);
    let next = engine.execute_task_async(created[0].task_id, "u1", &veto).unwrap();
    assert_eq!(next.len(), 1);
    assert_eq!(next[0].task_name, "after");
    assert_eq!(doing(&engine, iid).len(), 1);
    let inst = engine.ctx.repository.find_instance_by_id(iid).unwrap().unwrap();
    assert_eq!(inst.variables.get_str("countersignDisagreeFlag"), Some("1"));
}

#[test]
fn test_countersign_disagree_without_veto_waits() {
    let (mut engine, _iid, created) = start_countersign("PARALLEL", None);
    let mut veto = FlowData::new();
    veto.insert_i64("submitType", 20);
    let next = engine.execute_task_async(created[0].task_id, "u1", &veto).unwrap();
    assert!(next.is_empty(), "a soft disagreement waits for the others");
}

// ─── handlers ───

fn cs_task(state: i32) -> ProcessTask {
    ProcessTask {
        task_id: 0,
        process_instance_id: 1,
        task_name: "t".into(),
        display_name: "T".into(),
        task_type: 0,
        perform_type: 1,
        task_state: state,
        actor_id: None,
        actor_ids: vec!["u".into()],
        finish_time: None,
        expire_time: None,
        form_key: None,
        parent_task_id: None,
        variables: FlowData::new(),
        create_time: None,
        create_user: None,
        update_time: None,
        update_user: None,
    }
}

#[test]
fn test_countersign_parallel_all_done() {
    let tasks: Vec<ProcessTask> = (0..3).map(|_| cs_task(TaskState::Finished.code())).collect();
    let refs: Vec<&ProcessTask> = tasks.iter().collect();
    assert!(CountersignHandler::check_merge(&refs, None, None, "PARALLEL"));
}

#[test]
fn test_countersign_parallel_not_all_done() {
    let mut tasks: Vec<ProcessTask> = (0..3).map(|_| cs_task(TaskState::Finished.code())).collect();
    tasks[2].task_state = TaskState::Doing.code();
    let refs: Vec<&ProcessTask> = tasks.iter().collect();
    assert!(!CountersignHandler::check_merge(&refs, None, None, "PARALLEL"));
}

#[test]
fn test_countersign_sequential_not_all() {
    let mut tasks: Vec<ProcessTask> = (0..2).map(|_| cs_task(TaskState::Finished.code())).collect();
    tasks[1].task_state = TaskState::Doing.code();
    let refs: Vec<&ProcessTask> = tasks.iter().collect();
    assert!(!CountersignHandler::check_merge(&refs, None, None, "SEQUENTIAL"));
}

#[test]
fn test_countersign_sequential_all_done() {
    let tasks: Vec<ProcessTask> = (0..2).map(|_| cs_task(TaskState::Finished.code())).collect();
    let refs: Vec<&ProcessTask> = tasks.iter().collect();
    assert!(CountersignHandler::check_merge(&refs, None, None, "SEQUENTIAL"));
}

#[test]
fn test_countersign_one_vote_veto() {
    let mut tasks: Vec<ProcessTask> = (0..3).map(|_| cs_task(TaskState::Doing.code())).collect();
    tasks[0].task_state = TaskState::Finished.code();
    let refs: Vec<&ProcessTask> = tasks.iter().collect();
    assert!(CountersignHandler::check_merge(&refs, Some(20), Some("ONE_VOTE_VETO"), "PARALLEL"));
    assert!(!CountersignHandler::check_merge(&refs, Some(20), None, "PARALLEL"));
    assert!(!CountersignHandler::check_merge(&refs, Some(1), Some("ONE_VOTE_VETO"), "PARALLEL"));
}

// ─── assignment handlers and field permissions ───

fn empty_model() -> ProcessModel {
    ProcessModel {
        name: "test".into(),
        display_name: "Test".into(),
        model_type: "approval".into(),
        expire_time: None,
        persist_mode: None,
        rel_table_name: None,
        nodes: vec![],
        edges: vec![],
    }
}

#[test]
fn test_operator_assignment_handler() {
    let define = ProcessDefine { id: 1, name: "test".into(), ..define_of(b"{}".to_vec()) };
    let instance = ProcessInstance::create(&define, "user1", &FlowData::new());
    let exec = Execution::new(instance, empty_model(), define, "user1", FlowData::new());
    let handler = OperatorAssignmentHandler;
    let result = handler.assign(&exec).unwrap();
    assert_eq!(result, "user1");
}

#[test]
fn test_form_field_assignee() {
    let define = ProcessDefine { id: 1, name: "test".into(), ..define_of(b"{}".to_vec()) };
    let instance = ProcessInstance::create(&define, "user1", &FlowData::new());
    let node = NodeModel { id: "node1".into(), node_type: NodeType::Task, display_name: "Node 1".into(), properties: FlowData::new() };
    let mut args = FlowData::new();
    args.insert_str("node1", "user2,user3");
    let mut exec = Execution::new(instance, empty_model(), define, "user1", args);
    exec.current_node = Some(node);
    let handler = FormFieldAssigneeHandler;
    let result = handler.assign(&exec).unwrap();
    assert_eq!(result, "user2,user3");
}

#[test]
fn test_field_permission_filter() {
    let mut args = FlowData::new();
    args.insert_str("f_name", "张三");
    args.insert_str("f_amount", "1000");
    args.insert_str("f_status", "pending");
    args.insert_str("operator", "user1");
    let perms = vec![
        ("PERMISSION_f_name".to_string(), 2),
        ("PERMISSION_f_amount".to_string(), 1),
        ("PERMISSION_f_status".to_string(), 3),
    ];
    let filtered = filter_fields_by_permission(&args, &perms);
    assert!(filtered.contains_key("f_name"));
    assert!(!filtered.contains_key("f_amount"));
    assert!(!filtered.contains_key("f_status"));
    assert!(filtered.contains_key("operator"));
}

#[derive(Clone)]
struct NoUsers;
impl UserProvider for NoUsers {
    fn get_user(&self, _user_id: &str) -> JeeflowResult<Option<UserInfo>> {
        Ok(None)
    }
}

#[derive(Clone)]
struct NoOrg;
impl OrgUserProvider for NoOrg {
    fn find_dept_leaders(&self, _dept_id: &str) -> JeeflowResult<Vec<String>> {
        Ok(vec![])
    }
    fn find_dept_main_leaders(&self, _dept_id: &str) -> JeeflowResult<Vec<String>> {
        Ok(vec![])
    }
    fn find_by_role(&self, _role_code: &str) -> JeeflowResult<Vec<String>> {
        Ok(vec![])
    }
}

#[test]
fn test_register_builtins() {
    let mut ctx = ServiceContext::new(MemoryRepository::new(), AtomicIdGenerator::new(1));
    register_builtin_assignment_handlers(&mut ctx, None::<NoUsers>, None::<NoOrg>);
    assert_eq!(ctx.assignment_handlers.len(), 7);
    assert!(ctx.find_assignment_handler("com.mldong.jeeflow.interceptor.impl.OperatorAssignmentHandler").is_some());
}

#[test]
fn test_assignment_handler_drives_task_actors() {
    let flow = r#"{"name":"h","displayName":"H","type":"approval",
        "nodes":[
          {"id":"start","type":"snaker:start","text":{"value":"S"}},
          {"id":"t1","type":"snaker:task","text":{"value":"T1"},
           "properties":{"assignmentHandler":"com.mldong.jeeflow.interceptor.impl.OperatorAssignmentHandler"}},
          {"id":"end","type":"snaker:end","text":{"value":"E"}}],
        "edges":[
          {"id":"e1","sourceNodeId":"start","targetNodeId":"t1"},
          {"id":"e2","sourceNodeId":"t1","targetNodeId":"end"}]}"#;
    let mut engine = make_engine();
    register_builtin_assignment_handlers(&mut engine.ctx, None::<NoUsers>, None::<NoOrg>);
    let did = save_define(&mut engine, flow.as_bytes().to_vec());
    let inst = engine.start_async(did, "starter", &FlowData::new()).unwrap();
    let t = doing(&engine, inst.instance_id);
    assert_eq!(t.len(), 1);
    assert_eq!(t[0].actor_ids, vec!["starter".to_string()]);
}

// ─── step helpers ───

#[test]
fn test_parse_cc_actors() {
    assert!(parse_cc_actors(None).is_empty());
    let arr = JsonValue::Array(vec![
        JsonValue::Str("a".into()),
        JsonValue::Number(JsonNumber { mantissa: 7, scale: 0 }),
        JsonValue::Null,
        JsonValue::Bool(true),
        JsonValue::Str(String::new()),
    ]);
    assert_eq!(parse_cc_actors(Some(&arr)), vec!["a".to_string(), "7".to_string(), "true".to_string()]);
    let csv = JsonValue::Str(" x , ,y ".into());
    assert_eq!(parse_cc_actors(Some(&csv)), vec!["x".to_string(), "y".to_string()]);
    assert!(parse_cc_actors(Some(&JsonValue::Bool(true))).is_empty());
}

#[test]
fn test_submit_type_of_reads_numbers_and_texts() {
    let mut a = FlowData::new();
    assert_eq!(submit_type_of(&a), None);
    a.insert_i64("submitType", 20);
    assert_eq!(submit_type_of(&a), Some(20));
    a.insert_str("submitType", "3");
    assert_eq!(submit_type_of(&a), Some(3));
    a.insert_str("submitType", "x");
    assert_eq!(submit_type_of(&a), None);
}

#[test]
fn test_gate_step_cases() {
    assert_eq!(gate_step(true, true, 0, 3, false, false, false), GateStep::Merge);
    assert_eq!(gate_step(false, true, 0, 3, false, false, false), GateStep::NextInSequence);
    assert_eq!(gate_step(false, true, 2, 3, false, false, false), GateStep::Merge);
    assert_eq!(gate_step(false, false, 0, 0, true, false, true), GateStep::Wait);
    assert_eq!(gate_step(false, false, 0, 0, true, true, false), GateStep::Merge);
    assert_eq!(gate_step(false, false, 0, 0, false, false, false), GateStep::Wait);
    assert_eq!(gate_step(false, false, 0, 0, false, false, true), GateStep::Merge);
}

#[test]
fn test_lineage_vars_drops_submission_keys() {
    let mut v = FlowData::new();
    v.insert_str("f_reason", "trip");
    v.insert_i64("submitType", 1);
    v.insert_str("taskName", "x");
    v.insert_str("tf_note", "n");
    v.insert_str("csv_cs_operatorList", "a,b");
    v.insert_i64("loopCounter", 1);
    let kept = lineage_vars(&v);
    assert_eq!(kept.len(), 1);
    assert_eq!(kept.get_str("f_reason"), Some("trip"));
}

#[test]
fn test_resolve_assignee_priorities() {
    let mut props = FlowData::new();
    props.insert_str("assignee", "approver");
    props.insert_str("candidateUsers", "c1, c2");
    let node = NodeModel { id: "n".into(), node_type: NodeType::Task, display_name: "N".into(), properties: props };
    let mut args = FlowData::new();
    assert_eq!(resolve_assignee(&args, &node, "init", None), vec!["approver".to_string()]);
    args.insert_str("approver", "x, y");
    assert_eq!(resolve_assignee(&args, &node, "init", None), vec!["x".to_string(), "y".to_string()]);
    args.insert("tf_nextNodeOperator".into(), JsonValue::Array(vec![JsonValue::Str(" p ".into())]));
    assert_eq!(resolve_assignee(&args, &node, "init", None), vec!["p".to_string()]);
    let mut props2 = FlowData::new();
    props2.insert_str("assignee", "applicant");
    let node2 = NodeModel { id: "n".into(), node_type: NodeType::Task, display_name: "N".into(), properties: props2 };
    assert_eq!(resolve_assignee(&FlowData::new(), &node2, "init", None), vec!["init".to_string()]);
}

#[test]
fn test_can_rejected_follows_direct_inputs_only() {
    let model = ModelParser::parse(std::str::from_utf8(&fork_join_flow()).unwrap()).unwrap();
    assert!(!can_rejected(&model, "taskA", "apply"));
    let model2 = ModelParser::parse(std::str::from_utf8(&multi_task_flow()).unwrap()).unwrap();
    assert!(can_rejected(&model2, "task2", "task1"));
    assert!(can_rejected(&model2, "task2", "apply"));
    assert!(!can_rejected(&model2, "task1", "task2"));
}

#[test]
fn test_revive_parent_uses_recorded_user_on_first_row() {
    let define = define_of(multi_task_flow());
    let model = ModelParser::parse(std::str::from_utf8(&define.content).unwrap()).unwrap();
    let mut inst = ProcessInstance::create(&define, "init", &FlowData::new());
    let mut first = inst.create_task("apply", "Apply", &["init".to_string()], "init", TaskType::Major, PerformType::Normal, None, Some(0));
    first.task_id = 11;
    first.variables.insert("isFirstTaskNode".into(), JsonValue::Bool(true));
    first.variables.insert_str("u_userId", "recorded");
    inst.tasks = vec![first];
    let mut cur = inst.create_task("task1", "T1", &["a".to_string()], "init", TaskType::Major, PerformType::Normal, None, Some(11));
    cur.task_id = 12;
    let revived = revive_parent(&Some(cur), &inst, &model).unwrap();
    assert_eq!(revived.task_id, 0);
    assert_eq!(revived.task_name, "apply");
    assert_eq!(revived.actor_ids, vec!["recorded".to_string()]);
    assert_eq!(revived.variables.get("isFirstTaskNode").and_then(|v| v.as_bool()), Some(true));
    assert_eq!(revived.task_state, TaskState::Doing.code());
}

// ─── expressions ───

#[test]
fn test_compare_values_numbers_and_text() {
    assert_eq!(compare_values("10", "9"), ValueOrder::Greater);
    assert_eq!(compare_values("2", "2.0"), ValueOrder::Equal);
    assert_eq!(compare_values("-1.5", "1"), ValueOrder::Less);
    assert_eq!(compare_values("-0", "0"), ValueOrder::Equal);
    assert_eq!(compare_values(".5", "0.49"), ValueOrder::Greater);
    assert_eq!(compare_values("+3", "3"), ValueOrder::Equal);
    assert_eq!(compare_values("abc", "abd"), ValueOrder::Less);
    assert_eq!(compare_values("10", "9a"), ValueOrder::Less, "text order when one side is not a number");
}

#[test]
fn test_simple_eval_operators_and_literals() {
    let mut args = FlowData::new();
    args.insert_str("days", "5");
    args.insert_str("who", "zhang");
    let gate = FlowData::new();
    assert!(simple_eval("${days} > 3", &args, &gate));
    assert!(!simple_eval("${days} < 3", &args, &gate));
    assert!(simple_eval("${days} >= 5", &args, &gate));
    assert!(simple_eval("${days} != 4", &args, &gate));
    assert!(simple_eval("${who} == zhang", &args, &gate));
    assert!(simple_eval("${missing} == 0", &args, &gate));
    assert!(simple_eval("TRUE", &args, &gate));
    assert!(!simple_eval(" false ", &args, &gate));
    assert!(!simple_eval("0", &args, &gate));
    assert!(!simple_eval("null", &args, &gate));
    assert!(simple_eval("yes", &args, &gate));
    assert!(!simple_eval("", &args, &gate));
}

#[test]
fn test_hash_variables_read_gate_then_args() {
    let mut args = FlowData::new();
    args.insert_str("x", "7");
    let mut gate = FlowData::new();
    gate.insert_i64("nrOfCompletedInstances", 2);
    assert_eq!(resolve_var_refs("#nrOfCompletedInstances/#x/#y", &args, &gate), "2/7/0");
    assert!(simple_eval("#nrOfCompletedInstances >= 2", &args, &gate));
    assert_eq!(resolve_var_refs("a#1 b# c", &args, &gate), "a#1 b# c");
}

#[test]
fn test_evaluate_resolved_takes_first_operator_in_order() {
    assert!(evaluate_resolved("a<=b", "a<=b"));
    assert!(evaluate_resolved("3 >= 2", "3 >= 2"));
    assert!(!evaluate_resolved("1==2", "1==2"));
    assert!(evaluate_resolved("x", "x"));
    assert!(!evaluate_resolved("FALSE", "false"));
}

fn countersign_flow_json(condition: &str) -> Vec<u8> {
    format!(
        r#"{{
        "name": "cs-flow",
        "nodes": [
            {{"id": "start", "type": "snaker:start"}},
            {{"id": "cs", "type": "snaker:task", "properties": {{"assignee": "userA,userB,userC",
              "performType": "1", "countersignType": "PARALLEL"{}}}}},
            {{"id": "end", "type": "snaker:end"}}
        ],
        "edges": [
            {{"id": "e1", "sourceNodeId": "start", "targetNodeId": "cs"}},
            {{"id": "e2", "sourceNodeId": "cs", "targetNodeId": "end"}}
        ]
    }}"#,
        condition
    )
    .into_bytes()
}

fn task_of(engine: &Engine, instance_id: i64, actor: &str) -> ProcessTask {
    let all = engine.ctx.repository.find_history_tasks(instance_id).unwrap();
    all.into_iter().find(|t| t.actor_ids.contains(&actor.to_string())).unwrap()
}

fn disagree() -> FlowData {
    let mut args = FlowData::new();
    args.insert_i64("submitType", 20);
    args
}

#[test]
fn test_engine_one_vote_veto_abandons_the_others() {
    let mut engine = make_engine();
    let did = save_define(&mut engine, countersign_flow_json(r#", "countersignCompletionCondition": "ONE_VOTE_VETO""#));
    let instance = engine.start_async(did, "user1", &FlowData::new()).unwrap();
    let iid = instance.instance_id;
    assert_eq!(engine.ctx.repository.find_doing_tasks(iid, &[]).unwrap().len(), 3);
    let a = task_of(&engine, iid, "userA");
    let created = engine.execute_task_async(a.task_id, "userA", &disagree()).unwrap();
    assert!(created.is_empty());
    let inst = engine.ctx.repository.find_instance_by_id(iid).unwrap().unwrap();
    assert_eq!(inst.state, 20);
    assert_eq!(inst.variables.get_str("countersignDisagreeFlag"), Some("1"));
    assert_eq!(task_of(&engine, iid, "userA").task_state, 20);
    assert_eq!(task_of(&engine, iid, "userB").task_state, 99);
    assert_eq!(task_of(&engine, iid, "userC").task_state, 99);
}

#[test]
fn test_engine_parallel_disagree_is_soft() {
    let mut engine = make_engine();
    let did = save_define(&mut engine, countersign_flow_json(""));
    let instance = engine.start_async(did, "user1", &FlowData::new()).unwrap();
    let iid = instance.instance_id;
    let a = task_of(&engine, iid, "userA");
    let created = engine.execute_task_async(a.task_id, "userA", &disagree()).unwrap();
    assert!(created.is_empty());
    let inst = engine.ctx.repository.find_instance_by_id(iid).unwrap().unwrap();
    assert_eq!(inst.state, 10);
    assert_eq!(engine.ctx.repository.find_doing_tasks(iid, &[]).unwrap().len(), 2);
    assert_eq!(inst.variables.get_str("countersignDisagreeFlag"), Some("1"));
    let done = task_of(&engine, iid, "userA");
    assert_eq!(done.task_state, 20);
    assert_eq!(done.actor_id.as_deref(), Some("userA"));
    assert_eq!(done.variables.get_str("countersignDisagreeFlag"), Some("1"));
}

#[test]
fn test_reject_to_end_abandons_doing_tasks_in_store() {
    let mut engine = make_engine();
    let did = save_define(&mut engine, countersign_flow_json(""));
    let instance = engine.start_async(did, "user1", &FlowData::new()).unwrap();
    let iid = instance.instance_id;
    let a = task_of(&engine, iid, "userA");
    let result = engine.execute_and_jump_to_end_async(a.task_id, "userA", &FlowData::new()).unwrap();
    assert!(result.is_empty());
    let inst = engine.ctx.repository.find_instance_by_id(iid).unwrap().unwrap();
    assert_eq!(inst.state, 45);
    assert!(engine.ctx.repository.find_doing_tasks(iid, &[]).unwrap().is_empty());
    assert_eq!(task_of(&engine, iid, "userA").task_state, 20);
    assert_eq!(task_of(&engine, iid, "userB").task_state, 99);
    assert_eq!(task_of(&engine, iid, "userC").task_state, 99);
}

#[test]
fn test_reject_to_end_reads_no_model() {
    let mut engine = make_engine();
    let did = save_define(&mut engine, simple_flow_json());
    let instance = engine.start_async(did, "user1", &FlowData::new()).unwrap();
    let iid = instance.instance_id;
    let mut d = engine.ctx.repository.find_define_by_id(did).unwrap().unwrap();
    d.content = b"not a model".to_vec();
    engine.ctx.repository.update_define(&d).unwrap();
    let tasks = engine.ctx.repository.find_doing_tasks(iid, &[]).unwrap();
    let result = engine.execute_and_jump_to_end_async(tasks[0].task_id, "flow.auto", &FlowData::new());
    assert!(result.is_ok());
    let inst = engine.ctx.repository.find_instance_by_id(iid).unwrap().unwrap();
    assert_eq!(inst.state, 45);
    let jump = engine.execute_and_jump_to_first_async(tasks[0].task_id, "flow.auto", &FlowData::new());
    assert!(matches!(jump, Err(JeeflowError::ParseError(_))));
}
