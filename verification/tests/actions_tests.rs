use jeeflow::actions::{
    arg_actor_ids, arg_i64, arg_i64_or, arg_id, arg_str_or, assignee_label, enabled_define_by_name, filter_rows,
    jump_able_task_names, latest_define_index, next_define_version, re_paginate, row_passes,
};
use jeeflow::error::JeeflowError;
use jeeflow::handler::CountersignHandler;
use jeeflow::json::{FlowData, JsonNumber, JsonValue};
use jeeflow::memory::MemoryRepository;
use jeeflow::model::{DefineRow, FilterOp, ProcessTask, QueryFilter};
use jeeflow::seed::{finished_rows, in_progress_rows, load_seed, surrogate_pairs};
use jeeflow::service::{build_node_progress, candidate_row, content_bytes, resolve_rel_table_name};
use jeeflow::spi::{ProcessExtRepository, ProcessRepository};
use jeeflow::vo::first_task_node_id;

fn s(t: &str) -> JsonValue {
    JsonValue::Str(t.to_string())
}

fn n(v: i64) -> JsonValue {
    JsonValue::Number(JsonNumber { mantissa: v as i128, scale: 0 })
}

fn obj(pairs: Vec<(&str, JsonValue)>) -> JsonValue {
    JsonValue::Object(pairs.into_iter().map(|(k, v)| (k.to_string(), v)).collect())
}

fn args_of(pairs: Vec<(&str, JsonValue)>) -> FlowData {
    let mut fd = FlowData::new();
    for (k, v) in pairs {
        fd.insert(k.to_string(), v);
    }
    fd
}

fn business(e: JeeflowError) -> String {
    match e {
        JeeflowError::Business(m) => m,
        other => panic!("not a business error: {:?}", other),
    }
}

fn define_row(id: i64, name: &str, version: i32, state: i32) -> DefineRow {
    DefineRow {
        id,
        name: name.into(),
        display_name: name.into(),
        define_type: "approval".into(),
        state,
        version,
        create_time: None,
        create_user: None,
        update_time: None,
        update_user: None,
    }
}

fn task(name: &str, display: &str, perform_type: i32, state: i32, actors: Vec<&str>) -> ProcessTask {
    ProcessTask {
        task_id: 1,
        process_instance_id: 1,
        task_name: name.into(),
        display_name: display.into(),
        task_type: 0,
        perform_type,
        task_state: state,
        actor_id: None,
        actor_ids: actors.into_iter().map(|a| a.to_string()).collect(),
        finish_time: None,
        expire_time: None,
        form_key: None,
        parent_task_id: None,
        variables: FlowData::new(),
        create_time: None,
        create_user: None,
        update_time: None,
        update_user: None,
    }
}

#[test]
fn test_id_as_text_reads_as_the_number() {
    for v in [0i64, 7, -42, i64::MAX, i64::MIN, 999999999999999999] {
        let a = arg_i64(&args_of(vec![("id", s(&v.to_string()))]), "id").unwrap();
        let b = arg_i64(&args_of(vec![("id", n(v))]), "id").unwrap();
        assert_eq!(a, Some(v));
        assert_eq!(b, Some(v));
    }
}

#[test]
fn test_illegal_ids_name_the_value() {
    let e = arg_i64(&args_of(vec![("id", s("abc"))]), "id").unwrap_err();
    assert_eq!(business(e), "非法id: abc");
    let e = arg_i64(&args_of(vec![("id", JsonValue::Bool(true))]), "id").unwrap_err();
    assert_eq!(business(e), "非法id: true");
    let e = arg_i64(&args_of(vec![("id", JsonValue::Number(JsonNumber { mantissa: 15, scale: 1 }))]), "id").unwrap_err();
    assert_eq!(business(e), "非法id: 1.5");
    assert_eq!(arg_i64(&FlowData::new(), "id").unwrap(), None);
    assert_eq!(arg_i64_or(&FlowData::new(), "pageSize", 20).unwrap(), 20);
}

#[test]
fn test_arg_id_takes_the_first_given_key() {
    let args = args_of(vec![("id", n(9)), ("processInstanceId", n(5))]);
    assert_eq!(arg_id(&args, &["processInstanceId", "id"]).unwrap(), Some(5));
    assert_eq!(arg_id(&args, &["instanceId", "id"]).unwrap(), Some(9));
    assert_eq!(arg_id(&FlowData::new(), &["id"]).unwrap(), None);
    assert_eq!(arg_str_or(&FlowData::new(), "operator", "user1"), "user1");
}

#[test]
fn test_actor_ids_from_array_or_text() {
    let arr = args_of(vec![("actorIds", JsonValue::Array(vec![s("a"), n(7), JsonValue::Null, s("")]))]);
    assert_eq!(arg_actor_ids(&arr), vec!["a".to_string(), "7".to_string()]);
    let csv = args_of(vec![("actorIds", s(" x, y ,,z "))]);
    assert_eq!(arg_actor_ids(&csv), vec!["x".to_string(), "y".to_string(), "z".to_string()]);
    assert!(arg_actor_ids(&FlowData::new()).is_empty());
}

#[test]
fn test_next_define_version() {
    let rows = vec![define_row(1, "a", 0, 1), define_row(2, "b", 4, 1), define_row(3, "a", 2, 1)];
    assert_eq!(next_define_version(&rows, "a"), 3);
    assert_eq!(next_define_version(&rows, "b"), 5);
    assert_eq!(next_define_version(&rows, "c"), 0);
}

#[test]
fn test_latest_and_enabled_define() {
    let rows = vec![define_row(1, "a", 2, 0), define_row(2, "a", 2, 1), define_row(3, "a", 1, 1)];
    assert_eq!(latest_define_index(&rows, "a"), Some(1));
    assert_eq!(latest_define_index(&rows, "z"), None);
    assert_eq!(enabled_define_by_name(&rows, "a"), Some(2));
    assert_eq!(enabled_define_by_name(&rows, "z"), None);
}

#[test]
fn test_re_paginate() {
    let rows: Vec<i32> = (1..=7).collect();
    assert_eq!(re_paginate(rows.clone(), 1, 3), (vec![1, 2, 3], 7));
    assert_eq!(re_paginate(rows.clone(), 3, 3), (vec![7], 7));
    assert_eq!(re_paginate(rows.clone(), 4, 3), (vec![], 7));
    assert_eq!(re_paginate(rows.clone(), 1, -1), (rows.clone(), 7));
    assert_eq!(re_paginate(rows.clone(), 0, 3), (vec![], 7));
}

#[test]
fn test_filter_rows_by_field_text() {
    let rows = vec![
        obj(vec![("name", s("leave")), ("state", n(1))]),
        obj(vec![("name", s("expense")), ("state", n(0))]),
    ];
    let eq = QueryFilter { alias: "t".into(), op: FilterOp::Eq, column: "state".into(), value: "1".into() };
    let kept = filter_rows(rows, &[eq]);
    assert_eq!(kept.len(), 1);
    assert_eq!(kept[0].get_str("name"), Some("leave"));
    let camel = QueryFilter { alias: "t".into(), op: FilterOp::Like, column: "display_name".into(), value: "Lea".into() };
    assert!(row_passes(&obj(vec![("displayName", s("Leave"))]), &[camel.clone()]));
    assert!(!row_passes(&obj(vec![("other", s("Leave"))]), &[camel]));
}

#[test]
fn test_jump_targets_skip_countersign_and_repeats() {
    let done = vec![
        task("apply", "申请", 0, 20, vec![]),
        task("sign", "会签", 1, 20, vec![]),
        task("apply", "申请", 0, 20, vec![]),
        task("approve", "审批", 0, 20, vec![]),
    ];
    let targets = jump_able_task_names(&done);
    assert_eq!(
        targets,
        vec![("申请".to_string(), "apply".to_string()), ("审批".to_string(), "approve".to_string())]
    );
}

#[test]
fn test_assignee_label() {
    assert_eq!(assignee_label("审批", "user2", true), "审批:user2");
    assert_eq!(assignee_label("审批", "user2", false), "user2");
}

#[test]
fn test_disagreement_is_soft_unless_veto() {
    let doing = task("sign", "S", 1, 10, vec!["a"]);
    let done = task("sign", "S", 1, 20, vec!["b"]);
    let tasks = vec![&done, &doing];
    assert!(!CountersignHandler::check_merge(&tasks, Some(20), None, "PARALLEL"));
    assert_eq!(
        CountersignHandler::check_merge(&tasks, Some(20), None, "PARALLEL"),
        CountersignHandler::check_merge(&tasks, Some(1), None, "PARALLEL")
    );
    assert!(CountersignHandler::check_merge(&tasks, Some(20), Some(" one_vote_veto "), "PARALLEL"));
}

#[test]
fn test_content_bytes_shapes() {
    assert_eq!(content_bytes(&args_of(vec![("content", s("{\"a\":1}"))])), Some(b"{\"a\":1}".to_vec()));
    assert_eq!(content_bytes(&args_of(vec![("content", obj(vec![("a", n(1))]))])), Some(b"{\"a\":1}".to_vec()));
    assert_eq!(content_bytes(&args_of(vec![("content", n(5))])), Some(b"5".to_vec()));
    assert_eq!(
        content_bytes(&args_of(vec![("id", n(3)), ("operator", s("x")), ("name", s("f"))])),
        Some(b"{\"name\":\"f\"}".to_vec())
    );
    assert_eq!(content_bytes(&args_of(vec![("id", n(3)), ("pageNum", n(1))])), None);
}

#[test]
fn test_rel_table_name_and_first_task_node() {
    assert_eq!(resolve_rel_table_name("{\"relTableName\":\" t_leave \",\"name\":\"x\"}"), Some("t_leave".to_string()));
    assert_eq!(resolve_rel_table_name("{\"relTableName\":\"  \",\"name\":\"leave\"}"), Some("leave".to_string()));
    assert_eq!(resolve_rel_table_name("  "), None);
    let graph = obj(vec![(
        "nodes",
        JsonValue::Array(vec![
            obj(vec![("id", s("start")), ("type", s("snaker:start"))]),
            obj(vec![("id", s("apply")), ("type", s("snaker:task"))]),
            obj(vec![("id", s("approve")), ("type", s("snaker:task"))]),
        ]),
    )]);
    assert_eq!(first_task_node_id(&graph), Some("apply".to_string()));
    assert_eq!(first_task_node_id(&obj(vec![])), None);
}

#[test]
fn test_candidate_row_takes_user_fields() {
    let extra = obj(vec![("user_id", s("u1")), ("deptName", s("研发部")), ("other", s("x"))]);
    let row = candidate_row("u1", "", Some(&extra));
    assert_eq!(row.get_str("id"), Some("u1"));
    assert_eq!(row.get_str("realName"), Some("u1"));
    assert_eq!(row.get_str("userId"), Some("u1"));
    assert_eq!(row.get_str("deptName"), Some("研发部"));
    assert!(row.get("other").is_none());
    assert!(row.get("userName").is_none());
}

#[test]
fn test_node_progress_marks_done_and_active_members() {
    let model = jeeflow::parser::ModelParser::parse(
        r#"{"name":"p","nodes":[{"id":"sign","type":"snaker:task","properties":{"countersignType":"SEQUENTIAL"}}],"edges":[]}"#,
    )
    .unwrap();
    let tasks = vec![task("sign", "S", 1, 20, vec!["a"]), task("sign", "S", 1, 10, vec!["b"])];
    let progress = build_node_progress(&model, &tasks);
    let sign = progress.get("sign").unwrap();
    assert_eq!(sign.get_str("type"), Some("SEQUENTIAL"));
    let members = sign.get("members").unwrap().as_array().unwrap();
    assert_eq!(members.len(), 2);
    assert_eq!(members[0].get("done").and_then(|v| v.as_bool()), Some(true));
    assert_eq!(members[1].get("active").and_then(|v| v.as_bool()), Some(true));
}

#[test]
fn test_load_seed_stores_defines_and_designs() {
    let mut repo = MemoryRepository::new();
    let files = vec![
        ("01-leave".to_string(), Some(br#"{"name":"leave","displayName":"Leave","type":"oa","nodes":[],"edges":[]}"#.to_vec())),
        ("02-plain".to_string(), Some(br#"{"nodes":[],"edges":[]}"#.to_vec())),
    ];
    assert_eq!(load_seed(&mut repo, &files), 2);
    let d1 = repo.find_define_by_id(1).unwrap().unwrap();
    assert_eq!(d1.name, "leave");
    assert_eq!(d1.display_name, "Leave");
    assert_eq!(d1.define_type, "oa");
    assert_eq!(d1.version, 1);
    let d2 = repo.find_define_by_id(2).unwrap().unwrap();
    assert_eq!(d2.name, "02-plain");
    assert_eq!(d2.define_type, "approval");
    let all = repo.get_all_instances().unwrap();
    assert!(all.is_empty());
    let q = jeeflow::model::PageQuery::new(1, 10);
    assert!(repo.design_page_fits(&q));
    let designs = repo.page_designs(&q).unwrap();
    assert_eq!(designs.record_count, 2);
    assert_eq!(designs.rows[0].is_deployed, 1);
}

#[test]
fn test_load_seed_keeps_numbering_past_an_unreadable_file() {
    let mut repo = MemoryRepository::new();
    let files = vec![
        ("01-a".to_string(), Some(br#"{"name":"a","nodes":[],"edges":[]}"#.to_vec())),
        ("02-b".to_string(), None),
        ("03-c".to_string(), Some(br#"{"name":"c","nodes":[],"edges":[]}"#.to_vec())),
    ];
    assert_eq!(load_seed(&mut repo, &files), 2);
    assert_eq!(repo.find_define_by_id(1).unwrap().unwrap().name, "a");
    assert!(repo.find_define_by_id(2).unwrap().is_none());
    let d3 = repo.find_define_by_id(3).unwrap().unwrap();
    assert_eq!(d3.name, "c");
    assert_eq!(d3.state, 1);
}

#[test]
fn test_seed_tables() {
    assert_eq!(in_progress_rows().len(), 16);
    assert_eq!(finished_rows().len(), 9);
    assert_eq!(surrogate_pairs().len(), 8);
}
