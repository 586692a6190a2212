use jeeflow::json::FlowData;
use jeeflow::memory::MemoryRepository;
use jeeflow::model::{PageQuery, ProcessDefine, ProcessDesign, ProcessInstance, ProcessSurrogate, ProcessTask, TaskState};
use jeeflow::spi::{ProcessExtRepository, ProcessRepository};
use jeeflow::surrogate::{memory_row, Expect, SgRow, NOW};

fn define(id: i64) -> ProcessDefine {
    ProcessDefine {
        id,
        name: "test".into(),
        display_name: "Test".into(),
        define_type: "approval".into(),
        state: 1,
        content: b"{}".to_vec(),
        version: 1,
        create_time: None,
        create_user: None,
        update_time: None,
        update_user: None,
    }
}

#[test]
fn test_define_crud() {
    let mut repo = MemoryRepository::new();
    let mut d = define(0);
    repo.save_define(&mut d).unwrap();
    assert!(d.id > 0);
    let found = repo.find_define_by_id(d.id).unwrap();
    assert!(found.is_some());
    assert_eq!(found.unwrap().name, "test");
    repo.update_define_state(d.id, 0).unwrap();
    let found = repo.find_define_by_id(d.id).unwrap().unwrap();
    assert_eq!(found.state, 0);
    repo.remove_define(d.id).unwrap();
    let found = repo.find_define_by_id(d.id).unwrap();
    assert!(found.is_none());
}

#[test]
fn test_instance_and_tasks() {
    let mut repo = MemoryRepository::new();
    let mut d = define(1);
    repo.save_define(&mut d).unwrap();
    let mut inst = ProcessInstance {
        instance_id: 0,
        parent_id: None,
        define_id: d.id,
        state: 10,
        parent_node_name: None,
        business_no: None,
        operator: "user1".into(),
        expire_time: None,
        variables: FlowData::new(),
        tasks: vec![],
        create_time: None,
        create_user: Some("user1".into()),
        update_time: None,
        update_user: None,
        define: None,
    };
    repo.save_instance(&mut inst).unwrap();
    assert!(inst.instance_id > 0);
    let mut task = ProcessTask {
        task_id: 0,
        process_instance_id: inst.instance_id,
        task_name: "apply".into(),
        display_name: "Apply".into(),
        task_type: 0,
        perform_type: 0,
        task_state: 10,
        actor_id: None,
        actor_ids: vec!["user1".into()],
        finish_time: None,
        expire_time: None,
        form_key: None,
        parent_task_id: None,
        variables: FlowData::new(),
        create_time: None,
        create_user: None,
        update_time: None,
        update_user: None,
    };
    repo.save_task(&mut task).unwrap();
    assert!(task.task_id > 0);
    let doing = repo.find_doing_tasks(inst.instance_id, &[]).unwrap();
    assert_eq!(doing.len(), 1);
    repo.add_task_actor(task.task_id, &["user2".into()]).unwrap();
    let actors = repo.find_task_actors(task.task_id).unwrap();
    assert!(actors.contains(&"user2".into()));
    let count = repo.count_todo_tasks("user1").unwrap();
    assert_eq!(count, 1);
}

#[test]
fn test_cc_instance() {
    let mut repo = MemoryRepository::new();
    repo.create_cc_instance(1, "user1", &["user2".into(), "user3".into()]).unwrap();
    repo.update_cc_status(1, "user2").unwrap();
}

#[test]
fn test_design_crud() {
    let mut repo = MemoryRepository::new();
    let mut design = ProcessDesign {
        id: 0,
        name: "design1".into(),
        display_name: "Design 1".into(),
        design_type: "approval".into(),
        icon: None,
        is_deployed: 0,
        remark: None,
        create_time: None,
        create_user: None,
        update_time: None,
        update_user: None,
    };
    repo.save_design(&mut design).unwrap();
    assert!(design.id > 0);
    let found = repo.find_design_by_id(design.id).unwrap();
    assert!(found.is_some());
    repo.remove_design(design.id).unwrap();
    let found = repo.find_design_by_id(design.id).unwrap();
    assert!(found.is_none());
}

#[test]
fn test_surrogate_crud() {
    let mut repo = MemoryRepository::new();
    let mut sg = ProcessSurrogate {
        id: 0,
        process_name: "test".into(),
        operator: "user1".into(),
        surrogate: "user2".into(),
        start_time: None,
        end_time: None,
        enabled: 1,
        create_time: None,
        create_user: None,
        update_time: None,
        update_user: None,
    };
    repo.save_surrogate(&mut sg).unwrap();
    assert!(sg.id > 0);
    let found = repo.get_surrogate("user1", "test", "NOW").unwrap();
    assert!(found.is_some());
    assert_eq!(found.unwrap().surrogate, "user2");
}

const ROWS: &[SgRow] = &[
    SgRow { id: 911101, process_name: Some("leave"), operator: "zhangsan", surrogate: "agent_old101", start_time: None, end_time: None, enabled: Some(1), note: "leave, older" },
    SgRow { id: 911102, process_name: Some("leave"), operator: "zhangsan", surrogate: "agent_new102", start_time: None, end_time: None, enabled: Some(1), note: "leave, newer (must win)" },
    SgRow { id: 911103, process_name: Some("expense"), operator: "zhangsan", surrogate: "agent_exp103", start_time: None, end_time: None, enabled: Some(1), note: "another flow name" },
    SgRow { id: 911104, process_name: None, operator: "zhangsan", surrogate: "agent_allnull104", start_time: None, end_time: None, enabled: Some(1), note: "all flows (NULL)" },
    SgRow { id: 911105, process_name: Some(""), operator: "lisi", surrogate: "agent_empty105", start_time: None, end_time: None, enabled: Some(1), note: "all flows (empty)" },
    SgRow { id: 911106, process_name: Some("inwin"), operator: "sunwu", surrogate: "agent_in106", start_time: Some("2026-09-01 00:00:00"), end_time: Some("2026-09-30 23:59:59"), enabled: Some(1), note: "in window" },
    SgRow { id: 911107, process_name: Some("pastwin"), operator: "sunwu", surrogate: "agent_past107", start_time: Some("2020-01-01 00:00:00"), end_time: Some("2020-12-31 23:59:59"), enabled: Some(1), note: "window past" },
    SgRow { id: 911108, process_name: Some("futwin"), operator: "sunwu", surrogate: "agent_fut108", start_time: Some("2030-01-01 00:00:00"), end_time: Some("2030-12-31 23:59:59"), enabled: Some(1), note: "window ahead" },
    SgRow { id: 911109, process_name: Some("halfopen"), operator: "sunwu", surrogate: "agent_half109", start_time: None, end_time: Some("2026-09-30 23:59:59"), enabled: Some(1), note: "no start" },
    SgRow { id: 911110, process_name: Some("halfopn2"), operator: "sunwu", surrogate: "agent_half110", start_time: Some("2026-09-01 00:00:00"), end_time: None, enabled: Some(1), note: "no end" },
    SgRow { id: 911111, process_name: Some("off"), operator: "zhouqi", surrogate: "agent_off111", start_time: None, end_time: None, enabled: Some(0), note: "disabled" },
    SgRow { id: 911112, process_name: Some("off"), operator: "zhouqi", surrogate: "agent_null112", start_time: None, end_time: None, enabled: None, note: "enabled NULL" },
    SgRow { id: 911113, process_name: Some("selfdel"), operator: "zhouqi", surrogate: "zhouqi", start_time: None, end_time: None, enabled: Some(1), note: "to oneself" },
    SgRow { id: 911114, process_name: Some("leave"), operator: "zhaoliu", surrogate: "agent_zl114", start_time: None, end_time: None, enabled: Some(1), note: "someone else's leave" },
];

const EXPECT: &[Expect] = &[
    Expect { operator: "zhangsan", process_name: "leave", time: NOW, hit_id: Some(911102), note: "largest id of several hits" },
    Expect { operator: "zhangsan", process_name: "expense", time: NOW, hit_id: Some(911103), note: "exact name" },
    Expect { operator: "zhangsan", process_name: "nosuch", time: NOW, hit_id: Some(911104), note: "falls back to all flows (NULL)" },
    Expect { operator: "lisi", process_name: "nosuch", time: NOW, hit_id: Some(911105), note: "falls back to all flows (empty)" },
    Expect { operator: "lisi", process_name: "leave", time: NOW, hit_id: Some(911105), note: "no exact row, fallback" },
    Expect { operator: "zhaoliu", process_name: "leave", time: NOW, hit_id: Some(911114), note: "own rows only" },
    Expect { operator: "unknown", process_name: "leave", time: NOW, hit_id: None, note: "no rows, no hit" },
    Expect { operator: "sunwu", process_name: "inwin", time: NOW, hit_id: Some(911106), note: "in window" },
    Expect { operator: "sunwu", process_name: "pastwin", time: NOW, hit_id: None, note: "window past" },
    Expect { operator: "sunwu", process_name: "futwin", time: NOW, hit_id: None, note: "window ahead" },
    Expect { operator: "sunwu", process_name: "halfopen", time: NOW, hit_id: Some(911109), note: "no start" },
    Expect { operator: "sunwu", process_name: "halfopn2", time: NOW, hit_id: Some(911110), note: "no end" },
    Expect { operator: "sunwu", process_name: "pastwin", time: "", hit_id: Some(911107), note: "empty time skips the window" },
    Expect { operator: "zhouqi", process_name: "off", time: NOW, hit_id: None, note: "disabled or NULL" },
    Expect { operator: "zhouqi", process_name: "selfdel", time: NOW, hit_id: None, note: "to oneself" },
];

#[test]
fn test_get_surrogate_parity_matrix_i116() {
    let mut repo = MemoryRepository::new();
    for row in ROWS {
        let mut sg = memory_row(row);
        repo.save_surrogate(&mut sg).unwrap();
        assert_eq!(sg.id, row.id, "preset ids are kept");
    }
    for exp in EXPECT {
        let got = repo.get_surrogate(exp.operator, exp.process_name, exp.time).unwrap().map(|h| h.id);
        assert_eq!(
            got, exp.hit_id,
            "[{}] operator={} process_name={:?} time={:?}: expected {:?}, got {:?}",
            exp.note, exp.operator, exp.process_name, exp.time, exp.hit_id, got
        );
    }
}

fn done_task(id: i64, state: i32, operator: Option<&str>, create_user: &str) -> ProcessTask {
    ProcessTask {
        task_id: id,
        process_instance_id: 7001,
        task_name: format!("t{}", id),
        display_name: "T".into(),
        task_type: 0,
        perform_type: 0,
        task_state: state,
        actor_id: operator.map(str::to_string),
        actor_ids: vec![operator.unwrap_or("me").to_string()],
        finish_time: None,
        expire_time: None,
        form_key: None,
        parent_task_id: None,
        variables: FlowData::new(),
        create_time: None,
        create_user: Some(create_user.to_string()),
        update_time: None,
        update_user: None,
    }
}

#[test]
fn test_page_done_tasks_predicates_i117() {
    let mut repo = MemoryRepository::new();
    repo.save_task(&mut done_task(8001, TaskState::Finished.code(), Some("me"), "me")).unwrap();
    repo.save_task(&mut done_task(8002, TaskState::Withdraw.code(), Some("me"), "me")).unwrap();
    repo.save_task(&mut done_task(8003, TaskState::Interrupt.code(), Some("me"), "me")).unwrap();
    repo.save_task(&mut done_task(8004, TaskState::Abandon.code(), Some("me"), "other")).unwrap();
    repo.save_task(&mut done_task(8005, TaskState::Finished.code(), Some("other"), "me")).unwrap();
    repo.save_task(&mut done_task(8006, TaskState::Doing.code(), Some("me"), "me")).unwrap();
    repo.save_task(&mut done_task(8007, TaskState::Finished.code(), Some(""), "me")).unwrap();
    let ids_for = |op: Option<&str>| {
        let mut q = PageQuery::new(1, 50);
        q.operator = op.map(str::to_string);
        let page = repo.page_done_tasks(&q).unwrap();
        assert_eq!(page.record_count as usize, page.rows.len(), "total matches the page");
        let mut ids: Vec<i64> = page.rows.iter().map(|r| r.id).collect();
        ids.sort();
        ids
    };
    assert_eq!(ids_for(Some("me")), vec![8001, 8002, 8003, 8004]);
    assert_eq!(ids_for(Some("other")), vec![8005]);
    assert_eq!(ids_for(None), Vec::<i64>::new());
    assert_eq!(ids_for(Some("   ")), Vec::<i64>::new());
}

#[test]
fn test_save_then_find_gives_back_the_task() {
    let mut repo = MemoryRepository::new();
    let mut t = done_task(0, TaskState::Doing.code(), None, "me");
    repo.save_task(&mut t).unwrap();
    let found = repo.find_task_by_id(t.task_id).unwrap().unwrap();
    assert_eq!(found.task_name, t.task_name);
    assert_eq!(found.task_state, TaskState::Doing.code());
    assert_eq!(t.task_id, 100000);
}

#[test]
fn test_page_todo_tasks_lists_actor_rows() {
    let mut repo = MemoryRepository::new();
    let mut t = done_task(9001, TaskState::Doing.code(), None, "boss");
    repo.save_task(&mut t).unwrap();
    repo.add_task_actor(9001, &["me".to_string()]).unwrap();
    let mut q = PageQuery::new(1, 10);
    q.operator = Some("me".into());
    let page = repo.page_todo_tasks(&q).unwrap();
    assert_eq!(page.rows.len(), 1);
    assert_eq!(page.rows[0].id, 9001);
}
