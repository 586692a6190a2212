use jeeflow::clock::{current_time_str, format_unix_utc, utc_time_str};
use jeeflow::error::{JeeflowError, ERR_BUSINESS};
use jeeflow::filter_sql::{build_filter_where, op_matches};
use jeeflow::id_gen::{AtomicIdGenerator, DefaultIdGenerator};
use jeeflow::json::FlowData;
use jeeflow::metadata::{EnumDictRegistry, HandlerMeta, HandlerRegistry};
use jeeflow::model::{
    to_camel_case, DefineState, FilterOp, InstanceState, PageResult, PerformType, ProcessDefine, ProcessInstance,
    ProcessSurrogate, ProcessTask, QueryFilter, SubmitType, TaskState, TaskType,
};
use jeeflow::spi::IdGenerator;
use jeeflow::surrogate::{normalize_time_text, pick_surrogate, surrogate_hit};

// ─── clock ───

fn utc_secs() -> i64 {
    std::time::SystemTime::now()
        .duration_since(std::time::UNIX_EPOCH)
        .map(|d| d.as_secs() as i64)
        .unwrap_or(0)
}

/// Midnight of today (UTC) plus `hour` hours.
fn at(hour: i64) -> String {
    let s = utc_secs();
    format_unix_utc(s - s.rem_euclid(86400) + hour * 3600)
}

fn window_sg(start: Option<String>, end: Option<String>) -> ProcessSurrogate {
    ProcessSurrogate {
        id: 1,
        process_name: "simple".into(),
        operator: "zhang".into(),
        surrogate: "agent".into(),
        start_time: start,
        end_time: end,
        enabled: 1,
        create_time: None,
        create_user: None,
        update_time: None,
        update_user: None,
    }
}

/// The window is judged on the clock the caller hands in (here a fixed clock two days ahead).
#[test]
fn test_i120_window_is_evaluated_on_engine_clock() {
    let now = at(48);
    let open = window_sg(Some(at(47)), Some(at(49)));
    assert!(surrogate_hit(&open, "zhang", "simple", false, &now), "±1h window around the clock must hit (clock={now})");
    assert!(
        !surrogate_hit(&open, "zhang", "simple", false, &utc_time_str()),
        "the real UTC time lies outside the window"
    );
    let future = window_sg(Some(at(49)), Some(at(50)));
    assert!(!surrogate_hit(&future, "zhang", "simple", false, &now), "a window starting after the clock must not hit");
}

#[test]
fn test_format_unix_utc_known_values() {
    assert_eq!(format_unix_utc(0), "1970-01-01 00:00:00");
    assert_eq!(format_unix_utc(1_704_067_200), "2024-01-01 00:00:00");
}

#[test]
fn test_i120_default_baseline_is_utc() {
    let now = utc_secs();
    let within: Vec<String> = (now - 2..=now + 2).map(format_unix_utc).collect();
    let got = current_time_str();
    assert!(within.contains(&got), "default clock is UTC, got {got} (candidates {within:?})");
    assert_eq!(got.len(), 19);
}

#[test]
fn test_format_unix_utc_more_values() {
    assert_eq!(format_unix_utc(86399), "1970-01-01 23:59:59");
    assert_eq!(format_unix_utc(951_782_400), "2000-02-29 00:00:00");
    assert_eq!(format_unix_utc(-1), "1969-12-31 23:59:59");
}

// ─── errors ───

#[test]
fn test_error_code_always_business() {
    assert_eq!(JeeflowError::Business("test".into()).code(), ERR_BUSINESS);
    assert_eq!(JeeflowError::UnknownAction("x".into()).code(), ERR_BUSINESS);
    assert_eq!(JeeflowError::DefineNotFound(1).code(), ERR_BUSINESS);
    assert_eq!(JeeflowError::TaskNotFound(1).code(), ERR_BUSINESS);
    assert_eq!(JeeflowError::PermissionDenied("x".into()).code(), ERR_BUSINESS);
    assert_eq!(JeeflowError::Internal("x".into()).code(), ERR_BUSINESS);
}

#[test]
fn test_error_messages() {
    assert!(JeeflowError::Business("msg".into()).message().contains("msg"));
    assert!(JeeflowError::UnknownAction("test/act".into()).message().contains("test/act"));
    assert!(JeeflowError::DefineNotFound(42).message().contains("42"));
    assert!(JeeflowError::TaskNotFound(99).message().contains("99"));
}

#[test]
fn test_error_display() {
    let err = JeeflowError::Business("test error".into());
    let s = err.message();
    assert_eq!(s, "test error");
}

#[test]
fn test_error_business_code_constant() {
    assert_eq!(ERR_BUSINESS, 99999999);
}

#[test]
fn test_invalid_submit_type_message() {
    let err = JeeflowError::InvalidSubmitType(99);
    assert!(err.message().contains("99"));
}

#[test]
fn test_parse_error_message() {
    let err = JeeflowError::ParseError("bad json".into());
    assert!(err.message().contains("bad json"));
}

// ─── filters ───

fn qf(op: FilterOp, column: &str, value: &str) -> QueryFilter {
    QueryFilter { alias: "t".into(), op, column: column.into(), value: value.into() }
}

fn resolve_t_state(alias: &str, column: &str) -> Option<String> {
    match (alias, column) {
        ("t", "state") => Some("t.state".into()),
        ("t", "name") => Some("t.name".into()),
        _ => None,
    }
}

#[test]
fn test_build_eq() {
    let (frags, vals) = build_filter_where(&[qf(FilterOp::Eq, "state", "1")], resolve_t_state);
    assert_eq!(frags, vec!["t.state = ?".to_string()]);
    assert_eq!(vals, vec!["1".to_string()]);
}

#[test]
fn test_build_like_wraps_value() {
    let (frags, vals) = build_filter_where(&[qf(FilterOp::Like, "name", "v")], resolve_t_state);
    assert_eq!(frags, vec!["t.name LIKE ?".to_string()]);
    assert_eq!(vals, vec!["%v%".to_string()]);
}

#[test]
fn test_build_in_expands_placeholders() {
    let (frags, vals) = build_filter_where(&[qf(FilterOp::In, "name", "a,b,c")], resolve_t_state);
    assert_eq!(frags, vec!["t.name IN (?, ?, ?)".to_string()]);
    assert_eq!(vals, vec!["a".to_string(), "b".to_string(), "c".to_string()]);
}

#[test]
fn test_build_unknown_column_skipped() {
    let (frags, vals) = build_filter_where(&[qf(FilterOp::Eq, "hack", "1")], resolve_t_state);
    assert!(frags.is_empty());
    assert!(vals.is_empty());
}

#[test]
fn test_build_between() {
    let (frags, vals) = build_filter_where(&[qf(FilterOp::Bt, "state", "x,y")], resolve_t_state);
    assert_eq!(frags, vec!["t.state BETWEEN ? AND ?".to_string()]);
    assert_eq!(vals, vec!["x".to_string(), "y".to_string()]);
}

#[test]
fn test_build_between_single_value_contradiction() {
    let (frags, vals) = build_filter_where(&[qf(FilterOp::Bt, "state", "x")], resolve_t_state);
    assert_eq!(frags, vec!["0 = 1".to_string()]);
    assert!(vals.is_empty());
}

#[test]
fn test_build_in_empty_contradiction_and_nin_empty_alwaystrue() {
    let (frags, vals) = build_filter_where(&[qf(FilterOp::In, "name", " , ")], resolve_t_state);
    assert_eq!(frags, vec!["0 = 1".to_string()]);
    assert!(vals.is_empty());
    let (frags2, vals2) = build_filter_where(&[qf(FilterOp::Nin, "name", " , ")], resolve_t_state);
    assert!(frags2.is_empty());
    assert!(vals2.is_empty());
}

#[test]
fn test_op_matches_all_ops() {
    assert!(op_matches(&FilterOp::Eq, "1", "1"));
    assert!(!op_matches(&FilterOp::Eq, "2", "1"));
    assert!(op_matches(&FilterOp::Ne, "2", "1"));
    assert!(op_matches(&FilterOp::Like, "hello", "ell"));
    assert!(!op_matches(&FilterOp::Like, "hello", "xyz"));
    assert!(op_matches(&FilterOp::Gt, "5", "3"));
    assert!(op_matches(&FilterOp::Lt, "3", "5"));
    assert!(op_matches(&FilterOp::Ge, "3", "3"));
    assert!(op_matches(&FilterOp::Le, "3", "3"));
    assert!(op_matches(&FilterOp::In, "b", "a, b ,c"));
    assert!(!op_matches(&FilterOp::In, "d", "a,b"));
    assert!(op_matches(&FilterOp::Nin, "d", "a,b"));
    assert!(!op_matches(&FilterOp::Nin, "a", "a,b"));
    assert!(op_matches(&FilterOp::Bt, "5", " 1 , 9 "));
    assert!(!op_matches(&FilterOp::Bt, "0", "1,9"));
    assert!(!op_matches(&FilterOp::Bt, "5", "1"));
}

// ─── id generators ───

#[test]
fn test_default_id_generator() {
    let mut gen = DefaultIdGenerator::new(1);
    let id1 = gen.next_id();
    let id2 = gen.next_id();
    assert!(id1 > 0);
    assert!(id2 > id1);
    assert_ne!(id1, id2);
}

#[test]
fn test_atomic_id_generator() {
    let mut gen = AtomicIdGenerator::new(100);
    assert_eq!(gen.next_id(), 100);
    assert_eq!(gen.next_id(), 101);
    assert_eq!(gen.next_id(), 102);
}

#[test]
fn test_snowflake_uniqueness() {
    let mut gen = DefaultIdGenerator::new(0);
    let mut ids = std::collections::HashSet::new();
    for _ in 0..1000 {
        let id = gen.next_id();
        assert!(ids.insert(id), "Duplicate ID: {}", id);
    }
}

#[test]
fn test_snowflake_layout_at_fixed_time() {
    let mut gen = DefaultIdGenerator::new(5);
    let t = jeeflow::id_gen::EPOCH + 1000;
    let a = gen.next_id_at(t);
    let b = gen.next_id_at(t);
    assert_eq!(a, (1000 << 22) | (5 << 12));
    assert_eq!(b, a + 1);
}

// ─── metadata ───

#[test]
fn test_unknown_dict() {
    let reg = EnumDictRegistry::new();
    assert!(reg.get_dict("unknown_key").is_none());
}

#[test]
fn test_handler_types() {
    let reg = HandlerRegistry::new();
    let types = reg.list_handler_types();
    assert!(types.contains(&"AssignmentHandler".to_string()));
    assert!(types.contains(&"ActionPermissionProvider".to_string()));
}

#[test]
fn test_handler_registry() {
    let reg = HandlerRegistry::new();
    let handlers = reg.list_handlers("AssignmentHandler");
    assert_eq!(handlers.len(), 7);
    assert_eq!(handlers[0].order, -9999);
    assert!(handlers[0].class_name.contains("OperatorAssignmentHandler"));
}

#[test]
fn test_handler_register_custom() {
    let mut reg = HandlerRegistry::new();
    reg.register(HandlerMeta {
        handler_type: "AssignmentHandler".into(),
        class_name: "com.custom.MyHandler".into(),
        display_name: "自定义处理器".into(),
        order: 100,
        group: "custom".into(),
    });
    let handlers = reg.list_handlers("AssignmentHandler");
    assert_eq!(handlers.len(), 8);
}

#[test]
fn test_submit_type_dict() {
    let reg = EnumDictRegistry::new();
    let items = reg.get_dict("wf_process_submit_type").unwrap();
    assert_eq!(items.len(), 9);
    let find = |v: &str| items.iter().find(|i| i.value == v).map(|i| i.label.clone());
    assert_eq!(find("7").as_deref(), Some("转办"));
    assert_eq!(find("20").as_deref(), Some("会签拒绝"));
    assert_eq!(find("2").as_deref(), Some("拒绝申请"));
}

#[test]
fn test_enum_dict_registry() {
    let reg = EnumDictRegistry::new();
    let keys = reg.list_dict_keys();
    assert_eq!(keys.len(), 7);
    assert!(keys.contains(&"wf_process_define_state".to_string()));
    assert!(keys.contains(&"wf_process_instance_state".to_string()));
    assert!(keys.contains(&"wf_process_submit_type".to_string()));
    assert!(keys.contains(&"wf_process_task_state".to_string()));
    assert!(keys.contains(&"wf_process_task_type".to_string()));
    assert!(keys.contains(&"wf_process_task_perform_type".to_string()));
    assert!(keys.contains(&"wf_countersign_type".to_string()));
}

#[test]
fn test_instance_state_dict() {
    let reg = EnumDictRegistry::new();
    let items = reg.get_dict("wf_process_instance_state").unwrap();
    assert_eq!(items.len(), 7);
    assert_eq!(items[0].value, "10");
    assert_eq!(items[0].label, "进行中");
}

#[test]
fn test_dict_keys_sorted() {
    let reg = EnumDictRegistry::new();
    let keys = reg.list_dict_keys();
    let mut sorted = keys.clone();
    sorted.sort();
    assert_eq!(keys, sorted);
    assert!(!keys.is_empty());
}

// ─── model ───

fn make_define(id: i64, name: &str) -> ProcessDefine {
    ProcessDefine {
        id,
        name: name.to_string(),
        display_name: format!("{} Display", name),
        define_type: "approval".to_string(),
        state: DefineState::Enable.code(),
        content: b"{}".to_vec(),
        version: 1,
        create_time: None,
        create_user: None,
        update_time: None,
        update_user: None,
    }
}

#[test]
fn test_submit_type_codes() {
    assert_eq!(SubmitType::from_code(0), Some(SubmitType::Apply));
    assert_eq!(SubmitType::from_code(1), Some(SubmitType::Agree));
    assert_eq!(SubmitType::from_code(2), Some(SubmitType::Reject));
    assert_eq!(SubmitType::from_code(3), Some(SubmitType::Rollback));
    assert_eq!(SubmitType::from_code(4), Some(SubmitType::Jump));
    assert_eq!(SubmitType::from_code(5), Some(SubmitType::ReApply));
    assert_eq!(SubmitType::from_code(6), Some(SubmitType::RollbackToOperator));
    assert_eq!(SubmitType::from_code(20), Some(SubmitType::CountersignDisagree));
    assert_eq!(SubmitType::from_code(99), None);
}

#[test]
fn test_camel_case() {
    assert_eq!(to_camel_case("process_instance_id"), "processInstanceId");
    assert_eq!(to_camel_case("task_name"), "taskName");
    assert_eq!(to_camel_case("id"), "id");
}

#[test]
fn test_page_result() {
    let pr = PageResult::<i32>::new(1, 10, 25, vec![]);
    assert_eq!(pr.total_page, 3);
    let pr2 = PageResult::<i32>::new(1, 10, 0, vec![]);
    assert_eq!(pr2.total_page, 0);
}

#[test]
fn test_page_result_exact_page() {
    let pr = PageResult::<i32>::new(1, 10, 20, vec![]);
    assert_eq!(pr.total_page, 2);
}

#[test]
fn test_page_result_one_item() {
    let pr = PageResult::<i32>::new(1, 10, 1, vec![]);
    assert_eq!(pr.total_page, 1);
}

#[test]
fn test_define_state_codes() {
    assert_eq!(DefineState::Enable.code(), 1);
    assert_eq!(DefineState::Disable.code(), 0);
    assert_eq!(DefineState::from_code(1), DefineState::Enable);
    assert_eq!(DefineState::from_code(0), DefineState::Disable);
    assert_eq!(DefineState::from_code(99), DefineState::Enable);
}

#[test]
fn test_instance_state_codes() {
    assert_eq!(InstanceState::Doing.code(), 10);
    assert_eq!(InstanceState::Finished.code(), 20);
    assert_eq!(InstanceState::Withdraw.code(), 30);
    assert_eq!(InstanceState::Interrupt.code(), 40);
    assert_eq!(InstanceState::Reject.code(), 45);
    assert_eq!(InstanceState::from_code(10), Some(InstanceState::Doing));
    assert_eq!(InstanceState::from_code(99), Some(InstanceState::Abandon));
    assert_eq!(InstanceState::from_code(999), None);
}

#[test]
fn test_task_state_codes() {
    assert_eq!(TaskState::Doing.code(), 10);
    assert_eq!(TaskState::Finished.code(), 20);
    assert_eq!(TaskState::Withdraw.code(), 30);
    assert_eq!(TaskState::Interrupt.code(), 40);
    assert_eq!(TaskState::from_code(10), Some(TaskState::Doing));
    assert_eq!(TaskState::from_code(99), Some(TaskState::Abandon));
    assert_eq!(TaskState::from_code(999), None);
}

#[test]
fn test_task_type_codes() {
    assert_eq!(TaskType::Major.code(), 0);
    assert_eq!(TaskType::Assistant.code(), 1);
    assert_eq!(TaskType::Record.code(), 2);
    assert_eq!(TaskType::from_code(0), TaskType::Major);
    assert_eq!(TaskType::from_code(1), TaskType::Assistant);
    assert_eq!(TaskType::from_code(2), TaskType::Record);
}

#[test]
fn test_perform_type_codes() {
    assert_eq!(PerformType::Normal.code(), 0);
    assert_eq!(PerformType::Countersign.code(), 1);
    assert_eq!(PerformType::from_code(0), PerformType::Normal);
    assert_eq!(PerformType::from_code(1), PerformType::Countersign);
}

#[test]
fn test_camel_case_multiple_underscores() {
    assert_eq!(to_camel_case("a_b_c"), "aBC");
    assert_eq!(to_camel_case("_leading"), "Leading");
    assert_eq!(to_camel_case("trailing_"), "trailing");
}

#[test]
fn test_camel_case_already_camel() {
    assert_eq!(to_camel_case("camelCase"), "camelCase");
}

#[test]
fn test_instance_create() {
    let define = make_define(1, "test");
    let args = FlowData::new();
    let inst = ProcessInstance::create(&define, "user1", &args);
    assert_eq!(inst.state, InstanceState::Doing.code());
    assert_eq!(inst.operator, "user1");
    assert_eq!(inst.define_id, 1);
}

#[test]
fn test_task_lifecycle() {
    let define = make_define(1, "test");
    let args = FlowData::new();
    let mut inst = ProcessInstance::create(&define, "user1", &args);
    let mut task = inst.create_task(
        "task1",
        "Task 1",
        &["user1".to_string()],
        "user1",
        TaskType::Major,
        PerformType::Normal,
        None,
        None,
    );
    task.task_id = 100;
    inst.tasks.last_mut().unwrap().task_id = 100;
    assert!(task.is_doing());
    assert!(task.is_allowed("user1"));
    assert!(!task.is_allowed("user2"));
    let finish_args = FlowData::new();
    task.finish("user1", &finish_args).unwrap();
    assert!(task.is_finished());
    assert_eq!(task.actor_id, Some("user1".to_string()));
}

#[test]
fn test_instance_finish() {
    let define = make_define(1, "test");
    let mut inst = ProcessInstance::create(&define, "user1", &FlowData::new());
    assert!(inst.is_doing());
    inst.finish();
    assert!(inst.is_finished());
    assert_eq!(inst.state, InstanceState::Finished.code());
}

#[test]
fn test_instance_reject() {
    let define = make_define(1, "test");
    let mut inst = ProcessInstance::create(&define, "user1", &FlowData::new());
    inst.reject();
    assert_eq!(inst.state, InstanceState::Reject.code());
}

#[test]
fn test_current_time_str_format() {
    let t = current_time_str();
    assert_eq!(t.len(), 19, "expected yyyy-MM-dd HH:mm:ss, got {t}");
    assert_eq!(&t[4..5], "-");
    assert_eq!(&t[7..8], "-");
    assert_eq!(&t[10..11], " ");
    assert_eq!(&t[13..14], ":");
    assert_eq!(&t[16..17], ":");
    assert_eq!(format_unix_utc(0), "1970-01-01 00:00:00");
    assert_eq!(format_unix_utc(1_704_067_200), "2024-01-01 00:00:00");
}

fn bare_task(actors: Vec<String>) -> ProcessTask {
    ProcessTask {
        task_id: 1,
        process_instance_id: 1,
        task_name: "t".into(),
        display_name: "T".into(),
        task_type: 0,
        perform_type: 0,
        task_state: TaskState::Doing.code(),
        actor_id: None,
        actor_ids: actors,
        finish_time: None,
        expire_time: None,
        form_key: None,
        parent_task_id: None,
        variables: FlowData::new(),
        create_time: None,
        create_user: None,
        update_time: None,
        update_user: None,
    }
}

#[test]
fn test_flow_auto_bypass() {
    let task = bare_task(vec!["user1".into()]);
    assert!(task.is_allowed("flow.auto"));
    assert!(task.is_allowed("flow.admin"));
    assert!(task.is_allowed("user1"));
    assert!(!task.is_allowed("user2"));
}

#[test]
fn test_task_reject() {
    let define = make_define(1, "test");
    let mut inst = ProcessInstance::create(&define, "user1", &FlowData::new());
    let mut task = inst.create_task("task1", "Task 1", &["user1".to_string()], "user1", TaskType::Major, PerformType::Normal, None, None);
    assert!(task.is_doing());
    task.withdraw();
    assert_eq!(task.task_state, TaskState::Withdraw.code());
}

#[test]
fn test_task_finish_wrong_actor() {
    let define = make_define(1, "test");
    let mut inst = ProcessInstance::create(&define, "user1", &FlowData::new());
    let mut task = inst.create_task("task1", "Task 1", &["user1".to_string()], "user1", TaskType::Major, PerformType::Normal, None, None);
    let result = task.finish("user2", &FlowData::new());
    assert!(result.is_err());
}

#[test]
fn test_task_already_finished() {
    let define = make_define(1, "test");
    let mut inst = ProcessInstance::create(&define, "user1", &FlowData::new());
    let mut task = inst.create_task("task1", "Task 1", &["user1".to_string()], "user1", TaskType::Major, PerformType::Normal, None, None);
    task.finish("user1", &FlowData::new()).unwrap();
    let result = task.finish("user1", &FlowData::new());
    assert!(result.is_err());
}

#[test]
fn test_instance_withdraw_state() {
    let define = make_define(1, "test");
    let mut inst = ProcessInstance::create(&define, "user1", &FlowData::new());
    inst.withdraw();
    assert_eq!(inst.state, InstanceState::Withdraw.code());
}

#[test]
fn test_current_time_str() {
    let t = current_time_str();
    assert!(!t.is_empty());
    assert_ne!(t, "NOW()");
    assert_eq!(t.len(), 19);
}

#[test]
fn test_interrupt_then_resume_restores_doing_tasks() {
    let define = make_define(1, "test");
    let mut inst = ProcessInstance::create(&define, "user1", &FlowData::new());
    inst.create_task("task1", "Task 1", &["user1".to_string()], "user1", TaskType::Major, PerformType::Normal, None, None);
    inst.interrupt();
    assert_eq!(inst.state, InstanceState::Interrupt.code());
    assert_eq!(inst.tasks[0].task_state, TaskState::Interrupt.code());
    inst.resume();
    assert_eq!(inst.state, InstanceState::Doing.code());
    assert_eq!(inst.tasks[0].task_state, TaskState::Doing.code());
}

// ─── surrogates ───

fn sg(id: i64, operator: &str, process_name: &str, agent: &str, enabled: i32) -> ProcessSurrogate {
    ProcessSurrogate {
        id,
        process_name: process_name.into(),
        operator: operator.into(),
        surrogate: agent.into(),
        start_time: None,
        end_time: None,
        enabled,
        create_time: None,
        create_user: None,
        update_time: None,
        update_user: None,
    }
}

#[test]
fn test_normalize_time_text_forms() {
    assert_eq!(normalize_time_text("2026-09-21 08:20:54").as_deref(), Some("2026-09-21 08:20:54"));
    assert_eq!(normalize_time_text("2026-09-21T08:20:54").as_deref(), Some("2026-09-21 08:20:54"));
    assert_eq!(normalize_time_text("2026-09-21 08:20:54.123").as_deref(), Some("2026-09-21 08:20:54"));
    assert_eq!(normalize_time_text("2026-09-21").as_deref(), Some("2026-09-21 00:00:00"));
    for bad in ["", "   ", "abc", "2026/09/21", "2026-09-21T8:20:54", "20260921"] {
        assert_eq!(normalize_time_text(bad), None, "bad value {:?} must give None", bad);
    }
    let a = normalize_time_text("2026-09-21 08:20:54").unwrap();
    let b = normalize_time_text("2026-09-21T08:20:55").unwrap();
    assert!(a < b);
}

#[test]
fn test_surrogate_hit_four_predicates() {
    let now = "2026-09-21 12:00:00";
    assert!(!surrogate_hit(&sg(1, "zs", "leave", "ls", 0), "zs", "leave", false, now));
    assert!(!surrogate_hit(&sg(1, "zs", "leave", "ls", 2), "zs", "leave", false, now));
    assert!(surrogate_hit(&sg(1, "zs", "leave", "ls", 1), "zs", "leave", false, now));
    assert!(!surrogate_hit(&sg(1, "zs", "leave", "zs", 1), "zs", "leave", false, now));
    assert!(!surrogate_hit(&sg(1, "zs", "", "ls", 1), "zs", "leave", false, now));
    assert!(surrogate_hit(&sg(1, "zs", "", "ls", 1), "zs", "", true, now));
    assert!(!surrogate_hit(&sg(1, "zs", "leave", "ls", 1), "zs", "", true, now));
    let mut in_window = sg(1, "zs", "leave", "ls", 1);
    in_window.start_time = Some("2026-09-01 00:00:00".into());
    in_window.end_time = Some("2026-09-30 23:59:59".into());
    assert!(surrogate_hit(&in_window, "zs", "leave", false, now));
    let mut before = sg(1, "zs", "leave", "ls", 1);
    before.start_time = Some("2026-10-01 00:00:00".into());
    assert!(!surrogate_hit(&before, "zs", "leave", false, now));
    let mut after = sg(1, "zs", "leave", "ls", 1);
    after.end_time = Some("2026-09-21T11:59:59".into());
    assert!(!surrogate_hit(&after, "zs", "leave", false, now));
    assert!(surrogate_hit(&after, "zs", "leave", false, ""));
}

#[test]
fn test_pick_surrogate_takes_max_id_and_falls_back() {
    let list = vec![sg(10, "zs", "leave", "old", 1), sg(30, "zs", "leave", "new", 1), sg(20, "zs", "leave", "mid", 1)];
    let hit = pick_surrogate(&list, "zs", "leave", "").unwrap();
    assert_eq!(hit.id, 30);
    assert_eq!(hit.surrogate, "new");
    let mixed = vec![sg(1, "zs", "expense", "ls", 1), sg(2, "zs", "", "all", 1)];
    let hit = pick_surrogate(&mixed, "zs", "leave", "").unwrap();
    assert_eq!(hit.id, 2);
    assert_eq!(hit.surrogate, "all");
    let prefer = vec![sg(99, "zs", "", "all", 1), sg(1, "zs", "leave", "exact", 1)];
    let hit = pick_surrogate(&prefer, "zs", "leave", "").unwrap();
    assert_eq!(hit.surrogate, "exact");
    assert!(pick_surrogate(&prefer, "ww", "leave", "").is_none());
}

#[test]
fn test_c21_enum_dict() {
    let registry = EnumDictRegistry::new();
    let keys = vec![
        "wf_process_define_state",
        "wf_process_instance_state",
        "wf_process_submit_type",
        "wf_process_task_state",
        "wf_process_task_type",
        "wf_process_task_perform_type",
        "wf_countersign_type",
    ];
    for key in &keys {
        let dict = registry.get_dict(key);
        assert!(dict.is_some(), "c21: enum dict '{}' should exist", key);
        assert!(!dict.unwrap().is_empty(), "c21: enum dict '{}' should have entries", key);
    }
}

#[test]
fn test_c22_handler_registry() {
    let mut registry = HandlerRegistry::new();
    let built_in_count = registry.all_handlers().len();
    registry.register(HandlerMeta {
        handler_type: "assignment".into(),
        class_name: "handler1".into(),
        display_name: "Handler 1".into(),
        order: 1,
        group: "test".into(),
    });
    registry.register(HandlerMeta {
        handler_type: "assignment".into(),
        class_name: "handler2".into(),
        display_name: "Handler 2".into(),
        order: 2,
        group: "test".into(),
    });
    let by_type = registry.list_handlers("assignment");
    assert!(by_type.len() >= 2, "c22: should have >= 2 assignment handlers");
    let all = registry.all_handlers();
    assert_eq!(all.len(), built_in_count + 2, "c22: total should include built-ins + 2");
}
