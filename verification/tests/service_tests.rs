use jeeflow::actions::arg_ids;
use jeeflow::context::ServiceContext;
use jeeflow::error::JeeflowResult;
use jeeflow::id_gen::AtomicIdGenerator;
use jeeflow::json::{FlowData, JsonNumber, JsonValue};
use jeeflow::memory::MemoryRepository;
use jeeflow::model::{ProcessDefine, UserInfo};
use jeeflow::service::{args_to_flow_data, transform_output, JeeflowFacade};
use jeeflow::spi::{ProcessRepository, UserProvider};
use jeeflow::vo::{error_response, stringify_ids, success_response, to_camel_json};

type Facade = JeeflowFacade<MemoryRepository, AtomicIdGenerator>;

// ─── value helpers ───

fn s(t: &str) -> JsonValue {
    JsonValue::Str(t.to_string())
}

fn n(v: i64) -> JsonValue {
    JsonValue::Number(JsonNumber { mantissa: v as i128, scale: 0 })
}

fn arr(items: Vec<JsonValue>) -> JsonValue {
    JsonValue::Array(items)
}

fn obj(pairs: Vec<(&str, JsonValue)>) -> JsonValue {
    JsonValue::Object(pairs.into_iter().map(|(k, v)| (k.to_string(), v)).collect())
}

fn args_of(pairs: Vec<(&str, JsonValue)>) -> FlowData {
    let mut fd = FlowData::new();
    for (k, v) in pairs {
        fd.insert(k.to_string(), v);
    }
    fd
}

fn at<'a>(v: &'a JsonValue, key: &str) -> &'a JsonValue {
    v.get(key).unwrap_or_else(|| panic!("missing key {}", key))
}

fn idx(v: &JsonValue, i: usize) -> &JsonValue {
    &v.as_array().expect("array")[i]
}

fn code(resp: &JsonValue) -> i64 {
    at(resp, "code").as_i64().unwrap()
}

fn msg(resp: &JsonValue) -> String {
    at(resp, "msg").as_str().unwrap().to_string()
}

fn data(resp: &JsonValue) -> &JsonValue {
    at(resp, "data")
}

fn transform(v: JsonValue) -> JsonValue {
    transform_output(&v, "2025-01-01 08:00:00")
}

fn text(v: &JsonValue) -> String {
    v.as_str().unwrap_or_else(|| panic!("not a text")).to_string()
}

// ─── facades ───

fn make_facade() -> Facade {
    let ctx = ServiceContext::new(MemoryRepository::new(), AtomicIdGenerator::new(100000)).with_ext_repository();
    JeeflowFacade::new(ctx)
}

struct TestUserProvider;

impl UserProvider for TestUserProvider {
    fn get_user(&self, user_id: &str) -> JeeflowResult<Option<UserInfo>> {
        Ok(Some(UserInfo {
            user_id: user_id.to_string(),
            real_name: user_id.to_string(),
            dept_id: "dept1".into(),
            dept_name: "TestDept".into(),
            post_id: "post1".into(),
            post_name: "TestPost".into(),
        }))
    }
}

fn make_facade_with_user_provider() -> Facade {
    let ctx = ServiceContext::new(MemoryRepository::new(), AtomicIdGenerator::new(100000))
        .with_ext_repository()
        .with_user_provider(Box::new(TestUserProvider));
    JeeflowFacade::new(ctx)
}

const TEST_FLOW: &str = r#"{
    "name": "test-flow",
    "displayName": "Test Flow",
    "type": "approval",
    "nodes": [
        {"id": "start", "type": "snaker:start", "text": {"value": "\u5f00\u59cb"}},
        {"id": "apply", "type": "snaker:task", "text": {"value": "\u7533\u8bf7"},
         "properties": {"assignee": "applicant"}},
        {"id": "end", "type": "snaker:end", "text": {"value": "\u7ed3\u675f"}}
    ],
    "edges": [
        {"id": "e1", "sourceNodeId": "start", "targetNodeId": "apply"},
        {"id": "e2", "sourceNodeId": "apply", "targetNodeId": "end"}
    ]
}"#;

fn two_step(name: &str) -> String {
    format!(
        r#"{{
        "name":"{name}","displayName":"{name}","type":"approval",
        "nodes":[
            {{"id":"start","type":"snaker:start","text":{{"value":"S"}}}},
            {{"id":"apply","type":"snaker:task","text":{{"value":"申请"}},
             "properties":{{"assignee":"applicant"}}}},
            {{"id":"approve","type":"snaker:task","text":{{"value":"审批"}},
             "properties":{{"assignee":"user2"}}}},
            {{"id":"end","type":"snaker:end","text":{{"value":"E"}}}}
        ],
        "edges":[
            {{"id":"e1","sourceNodeId":"start","targetNodeId":"apply"}},
            {{"id":"e2","sourceNodeId":"apply","targetNodeId":"approve"}},
            {{"id":"e3","sourceNodeId":"approve","targetNodeId":"end"}}
        ]
    }}"#
    )
}

fn store_define(facade: &mut Facade, name: &str, content: &str) -> i64 {
    let mut define = ProcessDefine {
        id: 0,
        name: name.into(),
        display_name: name.into(),
        define_type: "approval".into(),
        state: 1,
        content: content.as_bytes().to_vec(),
        version: 1,
        create_time: None,
        create_user: None,
        update_time: None,
        update_user: None,
    };
    facade.engine.ctx.repository.save_define(&mut define).unwrap();
    define.id
}

fn make_facade_with_define() -> (Facade, i64) {
    let mut facade = make_facade();
    let mut define = ProcessDefine {
        id: 0,
        name: "test-flow".into(),
        display_name: "Test Flow".into(),
        define_type: "approval".into(),
        state: 1,
        content: TEST_FLOW.as_bytes().to_vec(),
        version: 1,
        create_time: None,
        create_user: None,
        update_time: None,
        update_user: None,
    };
    facade.engine.ctx.repository.save_define(&mut define).unwrap();
    (facade, define.id)
}

fn id_of(resp: &JsonValue, key: &str) -> i64 {
    text(at(data(resp), key)).parse::<i64>().unwrap()
}

fn start_two_step(facade: &mut Facade, name: &str) -> i64 {
    let define_id = store_define(facade, name, &two_step(name));
    let start = facade.flow(
        "processDefine/startAndExecute",
        &args_of(vec![("processDefineId", n(define_id)), ("operator", s("user1"))]),
    );
    assert_eq!(code(&start), 0, "{:?}", start);
    id_of(&start, "processInstanceId")
}

// ─── envelope and output conventions ───

#[test]
fn test_success_response() {
    let resp = success_response(obj(vec![("test", n(1))]));
    assert_eq!(code(&resp), 0);
    assert_eq!(msg(&resp), "成功");
    assert!(data(&resp).as_object().is_some());
}

#[test]
fn test_error_response() {
    let resp = error_response("测试错误");
    assert_eq!(code(&resp), 99999999);
    assert_eq!(msg(&resp), "测试错误");
}

#[test]
fn test_to_camel_json() {
    let output = to_camel_json(&obj(vec![("process_instance_id", n(1)), ("task_name", s("test"))]));
    assert_eq!(at(&output, "processInstanceId").as_i64(), Some(1));
    assert_eq!(text(at(&output, "taskName")), "test");
}

#[test]
fn test_to_camel_json_preserves_opaque_maps() {
    let input = obj(vec![
        ("process_instance_id", n(1)),
        ("ext", obj(vec![("u_realName", s("张三")), ("tf_approvalComment", s("ok"))])),
        (
            "json_object",
            obj(vec![(
                "nodes",
                arr(vec![obj(vec![(
                    "properties",
                    obj(vec![("field", obj(vec![("PERMISSION_f_leaveType", n(1)), ("PERMISSION_days", n(2))]))]),
                )])]),
            )]),
        ),
    ]);
    let output = to_camel_json(&input);
    assert_eq!(at(&output, "processInstanceId").as_i64(), Some(1));
    assert_eq!(text(at(at(&output, "ext"), "u_realName")), "张三");
    assert_eq!(text(at(at(&output, "ext"), "tf_approvalComment")), "ok");
    let field = at(at(idx(at(at(&output, "jsonObject"), "nodes"), 0), "properties"), "field");
    assert_eq!(at(field, "PERMISSION_f_leaveType").as_i64(), Some(1));
    assert_eq!(at(field, "PERMISSION_days").as_i64(), Some(2));
}

#[test]
fn test_camel_case_conversion_nested() {
    let output = to_camel_json(&obj(vec![("outer_key", obj(vec![("inner_key", n(1))]))]));
    assert!(output.get("outerKey").is_some());
    assert!(at(&output, "outerKey").get("innerKey").is_some());
}

#[test]
fn test_camel_case_conversion_array() {
    let output = to_camel_json(&arr(vec![obj(vec![("some_key", n(1))]), obj(vec![("other_key", n(2))])]));
    assert!(idx(&output, 0).get("someKey").is_some());
    assert!(idx(&output, 1).get("otherKey").is_some());
}

#[test]
fn test_stringify_ids() {
    let output = stringify_ids(&obj(vec![("id", n(123)), ("processInstanceId", n(456)), ("name", s("test"))]));
    assert_eq!(text(at(&output, "id")), "123");
    assert_eq!(text(at(&output, "processInstanceId")), "456");
    assert_eq!(text(at(&output, "name")), "test");
}

#[test]
fn test_stringify_ids_nested() {
    let output = stringify_ids(&obj(vec![("id", n(123)), ("nested", obj(vec![("userId", n(456))]))]));
    assert_eq!(text(at(&output, "id")), "123");
    assert_eq!(text(at(at(&output, "nested"), "userId")), "456");
}

#[test]
fn test_stringify_ids_array() {
    let output = stringify_ids(&obj(vec![("items", arr(vec![obj(vec![("id", n(1))]), obj(vec![("id", n(2))])]))]));
    assert_eq!(text(at(idx(at(&output, "items"), 0), "id")), "1");
    assert_eq!(text(at(idx(at(&output, "items"), 1), "id")), "2");
}

#[test]
fn test_stringify_ids_suffix_patterns() {
    let output = stringify_ids(&obj(vec![("process_instance_id", n(1)), ("taskId", n(2)), ("user_id", n(3))]));
    assert_eq!(text(at(&output, "process_instance_id")), "1");
    assert_eq!(text(at(&output, "taskId")), "2");
    assert_eq!(text(at(&output, "user_id")), "3");
}

#[test]
fn test_stringify_ids_plural_keys_task_ids() {
    let output = stringify_ids(&obj(vec![("taskIds", arr(vec![n(999999999999999999)]))]));
    assert_eq!(text(idx(at(&output, "taskIds"), 0)), "999999999999999999");
}

#[test]
fn test_stringify_ids_plural_keys_various() {
    let output = stringify_ids(&obj(vec![
        ("ids", arr(vec![n(1), n(2), n(3)])),
        ("roleIds", arr(vec![n(888888888888888888)])),
        ("actorIds", arr(vec![n(100001), n(100002)])),
        ("candidate_ids", arr(vec![n(777777777777777777)])),
    ]));
    assert_eq!(text(idx(at(&output, "ids"), 0)), "1");
    assert_eq!(text(idx(at(&output, "ids"), 2)), "3");
    assert_eq!(text(idx(at(&output, "roleIds"), 0)), "888888888888888888");
    assert_eq!(text(idx(at(&output, "actorIds"), 0)), "100001");
    assert_eq!(text(idx(at(&output, "candidate_ids"), 0)), "777777777777777777");
}

#[test]
fn test_stringify_ids_object_array_not_affected() {
    let output = stringify_ids(&obj(vec![
        (
            "rows",
            arr(vec![
                obj(vec![("id", n(123)), ("name", s("test")), ("taskIds", arr(vec![n(456)]))]),
                obj(vec![("id", n(789)), ("name", s("test2"))]),
            ]),
        ),
        ("items", arr(vec![obj(vec![("user_id", n(111))])])),
    ]));
    assert_eq!(text(at(idx(at(&output, "rows"), 0), "id")), "123");
    assert_eq!(text(at(idx(at(&output, "rows"), 1), "id")), "789");
    assert_eq!(text(at(idx(at(&output, "rows"), 0), "name")), "test");
    assert_eq!(text(idx(at(idx(at(&output, "rows"), 0), "taskIds"), 0)), "456");
    assert_eq!(text(at(idx(at(&output, "items"), 0), "user_id")), "111");
}

#[test]
fn test_transform_output_camel_case() {
    let output = transform(obj(vec![("process_instance_id", n(1)), ("task_name", s("test"))]));
    assert!(output.get("processInstanceId").is_some());
    assert!(output.get("taskName").is_some());
}

#[test]
fn test_transform_output_id_stringification() {
    let output = transform(obj(vec![("id", n(123)), ("name", s("test"))]));
    assert_eq!(text(at(&output, "id")), "123");
}

#[test]
fn test_transform_output_plural_ids_stringified() {
    let output = transform(obj(vec![
        ("task_ids", arr(vec![n(999999999999999999)])),
        ("role_ids", arr(vec![n(1), n(2)])),
    ]));
    assert_eq!(text(idx(at(&output, "taskIds"), 0)), "999999999999999999");
    assert_eq!(text(idx(at(&output, "roleIds"), 0)), "1");
    assert_eq!(text(idx(at(&output, "roleIds"), 1)), "2");
}

#[test]
fn test_c9_args_array_passthrough() {
    let args = args_of(vec![
        ("f_ccActors", arr(vec![s("1711661958608584706"), s("1686404946814533633")])),
        ("nested", obj(vec![("a", n(1)), ("b", s("x"))])),
        ("reason", s("hello")),
    ]);
    let fd = args_to_flow_data(&args);
    match fd.get("f_ccActors") {
        Some(JsonValue::Array(items)) => {
            assert_eq!(items.len(), 2);
            assert_eq!(items[0].as_str(), Some("1711661958608584706"));
            assert_eq!(items[1].as_str(), Some("1686404946814533633"));
        },
        other => panic!("c9: f_ccActors should be Array, got {:?}", other.is_some()),
    }
    assert!(matches!(fd.get("nested"), Some(JsonValue::Object(_))));
    assert_eq!(fd.get_str("reason"), Some("hello"));
}

#[test]
fn test_args_numbers_become_integers_and_nulls_drop() {
    let args = args_of(vec![
        ("days", JsonValue::Number(JsonNumber { mantissa: 35, scale: 1 })),
        ("count", n(7)),
        ("gone", JsonValue::Null),
    ]);
    let fd = args_to_flow_data(&args);
    assert_eq!(fd.get_i64("days"), Some(0));
    assert_eq!(fd.get_i64("count"), Some(7));
    assert!(fd.get("gone").is_none());
}

#[test]
fn test_arg_ids_helper_four_states() {
    let parsed = arg_ids(&args_of(vec![("ids", arr(vec![n(1), s("2"), n(3)]))])).unwrap();
    assert_eq!(parsed, vec![1i64, 2, 3]);
    let both = arg_ids(&args_of(vec![("ids", arr(vec![n(7)])), ("id", n(9))])).unwrap();
    assert_eq!(both, vec![7]);
    assert_eq!(arg_ids(&args_of(vec![("id", n(5))])).unwrap(), vec![5]);
    assert_eq!(arg_ids(&args_of(vec![("id", s("6"))])).unwrap(), vec![6]);
    assert_eq!(arg_ids(&args_of(vec![("ids", arr(vec![]))])).unwrap(), Vec::<i64>::new());
    assert_eq!(arg_ids(&args_of(vec![("surrogate", s("lisi"))])).unwrap(), Vec::<i64>::new());
    for bad in [arr(vec![s("")]), arr(vec![n(123), JsonValue::Null]), arr(vec![s("abc")]), arr(vec![JsonValue::Null])] {
        assert!(arg_ids(&args_of(vec![("ids", bad)])).is_err());
    }
}

// ─── dispatch ───

#[test]
fn test_unknown_action() {
    let mut facade = make_facade();
    let resp = facade.flow("unknown/action", &FlowData::new());
    assert_eq!(code(&resp), 99999999);
    assert!(msg(&resp).contains("未知"));
}

#[test]
fn test_unknown_action_returns_error_code() {
    let mut facade = make_facade();
    let resp = facade.flow("unknown/action", &FlowData::new());
    assert_eq!(code(&resp), 99999999);
    assert_eq!(msg(&resp), "未知 action: unknown/action");
}

#[test]
fn test_all_45_actions_dispatchable() {
    let mut facade = make_facade();
    let actions = vec![
        "processDefine/page", "processDefine/detail", "processDefine/startAndExecute",
        "processDefine/deploy", "processDefine/redeploy", "processDefine/remove",
        "processDefine/upAndDown", "processDefine/getLastByName",
        "processInstance/page", "processInstance/detail", "processInstance/startAndExecute",
        "processInstance/withdraw", "processInstance/highLight",
        "processInstance/approvalRecord", "processInstance/getAssigneeTextData",
        "processInstance/bizData", "processInstance/createCCInstance",
        "processInstance/updateCCStatus", "processInstance/ccList",
        "processTask/todoList", "processTask/doneList", "processTask/execute",
        "processTask/detail", "processTask/jumpAbleTaskNameList",
        "processTask/candidatePage", "processTask/surrogate",
        "processTask/addCandidate", "processTask/latest",
        "processDesign/page", "processDesign/detail",
        "processDesign/save", "processDesign/update",
        "processDesign/updateDefine", "processDesign/remove",
        "processDesign/deploy", "processDesign/redeploy",
        "processDesign/listByType",
        "processSurrogate/page", "processSurrogate/save",
        "processSurrogate/update", "processSurrogate/detail",
        "processSurrogate/remove",
    ];
    for action in &actions {
        let resp = facade.flow(action, &FlowData::new());
        assert!(resp.get("code").is_some(), "Action {} should answer with a code", action);
        if code(&resp) != 0 {
            assert!(!msg(&resp).contains("未知 action"), "{} is known", action);
        }
    }
}

// ─── processDefine ───

#[test]
fn test_process_define_page() {
    let (mut facade, _id) = make_facade_with_define();
    let resp = facade.flow("processDefine/page", &FlowData::new());
    assert_eq!(code(&resp), 0);
    assert!(at(data(&resp), "rows").as_array().is_some());
}

#[test]
fn test_pagination_envelope() {
    let mut facade = make_facade();
    let resp = facade.flow("processDefine/page", &FlowData::new());
    let d = data(&resp);
    for key in ["pageNum", "pageSize", "recordCount", "totalPage", "rows"] {
        assert!(d.get(key).is_some(), "{}", key);
    }
}

#[test]
fn test_process_define_detail() {
    let (mut facade, id) = make_facade_with_define();
    let resp = facade.flow("processDefine/detail", &args_of(vec![("id", n(id))]));
    assert_eq!(code(&resp), 0);
    assert_eq!(text(at(data(&resp), "name")), "test-flow");
    assert!(at(data(&resp), "type").as_str().is_some());
    assert!(data(&resp).get("defineType").is_none());
    assert!(at(data(&resp), "jsonObject").as_object().is_some());
    assert!(data(&resp).get("content").is_none());
}

#[test]
fn test_process_define_deploy() {
    let mut facade = make_facade();
    let content = r#"{"name":"deploy-flow","displayName":"DF","type":"approval","nodes":[{"id":"start","type":"snaker:start","text":{"value":"S"}},{"id":"apply","type":"snaker:task","text":{"value":"A"},"properties":{"assignee":"applicant"}},{"id":"end","type":"snaker:end","text":{"value":"E"}}],"edges":[{"id":"e1","sourceNodeId":"start","targetNodeId":"apply"},{"id":"e2","sourceNodeId":"apply","targetNodeId":"end"}]}"#;
    let resp = facade.flow("processDefine/deploy", &args_of(vec![("content", s(content))]));
    assert_eq!(code(&resp), 0, "{:?}", resp);
    assert!(at(data(&resp), "processDefineId").as_str().is_some());
}

#[test]
fn test_deploy_versions_count_up_by_name() {
    let mut facade = make_facade();
    let content = r#"{"name":"v-flow","displayName":"V","type":"approval","nodes":[],"edges":[]}"#;
    let first = facade.flow("processDefine/deploy", &args_of(vec![("content", s(content))]));
    let second = facade.flow("processDefine/deploy", &args_of(vec![("content", s(content))]));
    assert_eq!(code(&first), 0);
    assert_eq!(code(&second), 0);
    let last = facade.flow("processDefine/getLastByName", &args_of(vec![("name", s("v-flow"))]));
    assert_eq!(code(&last), 0, "{:?}", last);
    assert_eq!(at(data(&last), "version").as_i64(), Some(1));
    assert_eq!(text(at(data(&last), "id")), text(at(data(&second), "processDefineId")));
}

#[test]
fn test_deploy_without_content_is_refused() {
    let mut facade = make_facade();
    let resp = facade.flow("processDefine/deploy", &args_of(vec![("operator", s("admin"))]));
    assert_eq!(code(&resp), 99999999);
    assert_eq!(msg(&resp), "content 缺失");
}

#[test]
fn test_process_define_up_and_down() {
    let (mut facade, id) = make_facade_with_define();
    let resp = facade.flow("processDefine/upAndDown", &args_of(vec![("id", n(id)), ("state", n(0))]));
    assert_eq!(code(&resp), 0);
}

#[test]
fn test_process_define_remove() {
    let (mut facade, id) = make_facade_with_define();
    let resp = facade.flow("processDefine/remove", &args_of(vec![("id", n(id))]));
    assert_eq!(code(&resp), 0);
}

#[test]
fn test_remove_empty_ids_rejected() {
    let mut facade = make_facade();
    let cases: Vec<(&str, Vec<(&str, JsonValue)>)> = vec![
        ("processSurrogate/remove", vec![("ids", arr(vec![]))]),
        ("processSurrogate/remove", vec![("surrogate", s("lisi"))]),
        ("processSurrogate/remove", vec![("ids", arr(vec![n(123), JsonValue::Null]))]),
        ("processDefine/remove", vec![("ids", arr(vec![]))]),
        ("processDesign/remove", vec![("ids", arr(vec![]))]),
        ("processDefine/upAndDown", vec![("ids", arr(vec![])), ("opType", n(0))]),
    ];
    for (action, pairs) in cases {
        let resp = facade.flow(action, &args_of(pairs));
        assert_eq!(code(&resp), 99999999, "{} must fail", action);
    }
}

#[test]
fn test_process_define_up_and_down_ids_shape_matrix() {
    let mut facade = make_facade();
    let a = store_define(&mut facade, "updown-matrix-a", r#"{"name":"shape-matrix","nodes":[],"edges":[]}"#);
    let b = store_define(&mut facade, "updown-matrix-b", r#"{"name":"shape-matrix","nodes":[],"edges":[]}"#);
    let resp = facade.flow("processDefine/upAndDown", &args_of(vec![("ids", arr(vec![n(a), n(b)])), ("opType", n(0))]));
    assert_eq!(code(&resp), 0);
    for id in [a, b] {
        let d = facade.flow("processDefine/detail", &args_of(vec![("id", n(id))]));
        assert_eq!(code(&d), 0);
        assert_eq!(at(data(&d), "state").as_i64(), Some(0));
    }
    let resp = facade.flow("processDefine/upAndDown", &args_of(vec![("ids", arr(vec![])), ("opType", n(0))]));
    assert_eq!(code(&resp), 99999999);
    for bad in [arr(vec![s("")]), arr(vec![n(a), JsonValue::Null])] {
        let resp = facade.flow("processDefine/upAndDown", &args_of(vec![("ids", bad), ("opType", n(0))]));
        assert_eq!(code(&resp), 99999999);
    }
}

#[test]
fn test_process_define_remove_ids_shape_matrix() {
    let mut facade = make_facade();
    let a = store_define(&mut facade, "define-matrix-a", r#"{"name":"shape-matrix","nodes":[],"edges":[]}"#);
    let b = store_define(&mut facade, "define-matrix-b", r#"{"name":"shape-matrix","nodes":[],"edges":[]}"#);
    let resp = facade.flow("processDefine/remove", &args_of(vec![("ids", arr(vec![n(a), n(b)]))]));
    assert_eq!(code(&resp), 0);
    for id in [a, b] {
        let d = facade.flow("processDefine/detail", &args_of(vec![("id", n(id))]));
        assert_eq!(code(&d), 99999999);
    }
    let c = store_define(&mut facade, "define-matrix-c", r#"{"name":"shape-matrix","nodes":[],"edges":[]}"#);
    let resp = facade.flow("processDefine/remove", &args_of(vec![("id", n(c))]));
    assert_eq!(code(&resp), 0);
    assert_eq!(code(&facade.flow("processDefine/detail", &args_of(vec![("id", n(c))]))), 99999999);
    assert_eq!(code(&facade.flow("processDefine/remove", &args_of(vec![("ids", arr(vec![]))]))), 99999999);
}

#[test]
fn test_c2_string_id_accepted() {
    let (mut facade, id) = make_facade_with_define();
    let resp = facade.flow("processDefine/detail", &args_of(vec![("id", s(&id.to_string()))]));
    assert_eq!(code(&resp), 0);
    assert_eq!(text(at(data(&resp), "name")), "test-flow");
}

#[test]
fn test_c2_number_id_still_works() {
    let (mut facade, id) = make_facade_with_define();
    let resp = facade.flow("processDefine/detail", &args_of(vec![("id", n(id))]));
    assert_eq!(code(&resp), 0);
}

#[test]
fn test_c2_18digit_snowflake_string_id() {
    let mut facade = make_facade();
    let resp = facade.flow("processDefine/detail", &args_of(vec![("id", s("999999999999999999"))]));
    assert_eq!(code(&resp), 99999999);
    let m = msg(&resp);
    assert!(m.contains("不存在") || m.contains("999999999999999999"), "{}", m);
}

#[test]
fn test_c2_invalid_string_id_returns_illegal() {
    let mut facade = make_facade();
    let resp = facade.flow("processDefine/detail", &args_of(vec![("id", s("abc"))]));
    assert_eq!(code(&resp), 99999999);
    assert_eq!(msg(&resp), "非法id: abc");
}

#[test]
fn test_c2_invalid_string_id_execute() {
    let mut facade = make_facade();
    let resp = facade.flow("processTask/execute", &args_of(vec![("id", s("not_a_number"))]));
    assert_eq!(code(&resp), 99999999);
    assert!(msg(&resp).contains("非法id"));
}

#[test]
fn test_c2_string_id_all_actions() {
    let (mut facade, id) = make_facade_with_define();
    let args = args_of(vec![("id", s(&id.to_string())), ("state", n(0))]);
    assert_eq!(code(&facade.flow("processDefine/upAndDown", &args)), 0);
    assert_eq!(code(&facade.flow("processDefine/remove", &args)), 0);
}

#[test]
fn test_detail_missing_id_returns_error() {
    let mut facade = make_facade();
    let resp = facade.flow("processDefine/detail", &FlowData::new());
    assert_eq!(code(&resp), 99999999);
    assert_eq!(msg(&resp), "缺少id参数");
}

#[test]
fn test_c8_filter_define_by_name_eq() {
    let (mut facade, _) = make_facade_with_define();
    let resp = facade.flow("processDefine/page", &args_of(vec![("m_EQ_name", s("test-flow"))]));
    assert_eq!(code(&resp), 0);
    assert_eq!(at(data(&resp), "recordCount").as_i64(), Some(1));
}

#[test]
fn test_c8_filter_define_by_name_eq_no_match() {
    let (mut facade, _) = make_facade_with_define();
    let resp = facade.flow("processDefine/page", &args_of(vec![("m_EQ_name", s("nonexistent"))]));
    assert_eq!(code(&resp), 0);
    assert_eq!(at(data(&resp), "recordCount").as_i64(), Some(0));
}

#[test]
fn test_c8_filter_define_by_name_like() {
    let (mut facade, _) = make_facade_with_define();
    let resp = facade.flow("processDefine/page", &args_of(vec![("m_LIKE_name", s("test"))]));
    assert_eq!(code(&resp), 0);
    assert_eq!(at(data(&resp), "recordCount").as_i64(), Some(1));
}

#[test]
fn test_c8_filter_define_by_display_name_3segment() {
    let (mut facade, _) = make_facade_with_define();
    let resp = facade.flow("processDefine/page", &args_of(vec![("m_t_LIKE_displayName", s("Test"))]));
    assert_eq!(code(&resp), 0);
    assert_eq!(at(data(&resp), "recordCount").as_i64(), Some(1));
}

// ─── processInstance ───

#[test]
fn test_process_instance_page() {
    let mut facade = make_facade();
    let resp = facade.flow("processInstance/page", &FlowData::new());
    assert_eq!(code(&resp), 0);
    assert!(at(data(&resp), "rows").as_array().is_some());
}

#[test]
fn test_process_instance_detail_missing() {
    let mut facade = make_facade();
    let resp = facade.flow("processInstance/detail", &args_of(vec![("id", n(99999))]));
    assert_eq!(code(&resp), 99999999);
    assert_eq!(msg(&resp), "流程实例不存在: 99999");
}

#[test]
fn test_process_instance_cc_list() {
    let mut facade = make_facade();
    let resp = facade.flow("processInstance/ccList", &FlowData::new());
    assert_eq!(code(&resp), 0);
}

#[test]
fn test_instance_withdraw_missing_id() {
    let mut facade = make_facade();
    let resp = facade.flow("processInstance/withdraw", &FlowData::new());
    assert_eq!(code(&resp), 99999999);
}

#[test]
fn test_high_light_contract_fields() {
    let mut facade = make_facade_with_user_provider();
    let iid = start_two_step(&mut facade, "hl-flow");
    let hl = facade.flow("processInstance/highLight", &args_of(vec![("id", s(&iid.to_string()))]));
    assert_eq!(code(&hl), 0, "{:?}", hl);
    let d = data(&hl);
    assert!(d.get("finishedNodes").is_none());
    assert!(d.get("currentNodes").is_none());
    let active = at(d, "activeNodeNames").as_array().unwrap();
    let history = at(d, "historyNodeNames").as_array().unwrap();
    let edges = at(d, "historyEdgeNames").as_array().unwrap();
    assert!(at(d, "nodeProgress").as_object().is_some());
    assert!(active.iter().any(|v| v.as_str() == Some("approve")), "{:?}", active);
    assert!(history.iter().any(|v| v.as_str() == Some("apply")) || history.iter().any(|v| v.as_str() == Some("start")));
    assert!(!edges.is_empty());
}

#[test]
fn test_process_instance_detail_lists_tasks() {
    let mut facade = make_facade_with_user_provider();
    let iid = start_two_step(&mut facade, "detail-flow");
    let resp = facade.flow("processInstance/detail", &args_of(vec![("processInstanceId", n(iid))]));
    assert_eq!(code(&resp), 0, "{:?}", resp);
    let d = data(&resp);
    assert_eq!(text(at(d, "id")), iid.to_string());
    assert_eq!(text(at(d, "name")), "detail-flow");
    let active = at(d, "activeTaskList").as_array().unwrap();
    assert_eq!(active.len(), 1);
    assert_eq!(text(at(&active[0], "taskName")), "approve");
    assert!(at(&active[0], "ext").get("isFirstTaskNode").is_some());
    assert!(at(d, "tasks").as_array().unwrap().len() >= 2);
}

#[test]
fn test_get_assignee_text_data_shape() {
    let mut facade = make_facade_with_user_provider();
    let iid = start_two_step(&mut facade, "assignee-flow");
    let resp = facade.flow("processInstance/getAssigneeTextData", &args_of(vec![("processInstanceId", s(&iid.to_string()))]));
    assert_eq!(code(&resp), 0, "{:?}", resp);
    let rows = data(&resp).as_array().unwrap();
    assert!(!rows.is_empty());
    assert!(rows[0].get("value").is_some());
    let label = text(at(&rows[0], "label"));
    assert!(label.contains(':'), "{}", label);
}

#[test]
fn test_biz_data_requires_meta_table_reader() {
    let (mut facade, _) = make_facade_with_define();
    let resp = facade.flow("processInstance/bizData", &args_of(vec![("processInstanceId", n(1))]));
    assert_eq!(code(&resp), 99999999);
    assert!(resp.get("data").is_none());
}

// ─── processTask ───

#[test]
fn test_process_task_todo_list() {
    let mut facade = make_facade();
    let resp = facade.flow("processTask/todoList", &FlowData::new());
    assert_eq!(code(&resp), 0);
    assert!(at(data(&resp), "rows").as_array().is_some());
}

#[test]
fn test_process_task_done_list() {
    let mut facade = make_facade();
    let resp = facade.flow("processTask/doneList", &FlowData::new());
    assert_eq!(code(&resp), 0);
}

#[test]
fn test_process_task_latest() {
    let mut facade = make_facade();
    let resp = facade.flow("processTask/latest", &FlowData::new());
    assert_eq!(code(&resp), 99999999);
    assert_eq!(msg(&resp), "缺少processInstanceId参数");
}

#[test]
fn test_process_task_detail_missing() {
    let mut facade = make_facade();
    let resp = facade.flow("processTask/detail", &args_of(vec![("id", n(99999))]));
    assert_eq!(code(&resp), 99999999);
}

#[test]
fn test_task_execute_missing_id() {
    let mut facade = make_facade();
    let resp = facade.flow("processTask/execute", &FlowData::new());
    assert_eq!(code(&resp), 99999999);
    assert_eq!(msg(&resp), "缺少processTaskId参数");
}

#[test]
fn test_jump_able_task_name_list_shape() {
    let mut facade = make_facade_with_user_provider();
    let iid = start_two_step(&mut facade, "jump-flow");
    let resp = facade.flow("processTask/jumpAbleTaskNameList", &args_of(vec![("processInstanceId", s(&iid.to_string()))]));
    assert_eq!(code(&resp), 0, "{:?}", resp);
    let rows = data(&resp).as_array().unwrap();
    assert!(!rows.is_empty());
    assert!(rows[0].get("label").is_some());
    assert_eq!(text(at(&rows[0], "value")), "apply");
}

#[test]
fn test_task_surrogate_adds_actors() {
    let mut facade = make_facade_with_user_provider();
    let iid = start_two_step(&mut facade, "sg-flow");
    let doing = facade.engine.ctx.repository.find_doing_tasks(iid, &[]).unwrap();
    assert!(!doing.is_empty());
    let task_id = doing[0].task_id;
    let resp = facade.flow(
        "processTask/surrogate",
        &args_of(vec![("processTaskId", n(task_id)), ("actorIds", arr(vec![s("user9"), s("user8")]))]),
    );
    assert_eq!(code(&resp), 0, "{:?}", resp);
    let actors = facade.engine.ctx.repository.find_task_actors(task_id).unwrap();
    assert!(actors.contains(&"user9".to_string()));
    assert!(actors.contains(&"user8".to_string()));
}

#[test]
fn test_execute_response_task_ids_nonzero_and_match_todo_list() {
    let mut facade = make_facade_with_user_provider();
    let resp = facade.flow("processDesign/save", &args_of(vec![("name", s("two-step-flow")), ("displayName", s("Two Step Flow"))]));
    assert_eq!(code(&resp), 0, "{:?}", resp);
    let design_id = id_of(&resp, "id");
    let resp2 = facade.flow(
        "processDesign/updateDefine",
        &args_of(vec![("id", n(design_id)), ("content", s(&two_step("two-step-flow")))]),
    );
    assert_eq!(code(&resp2), 0, "{:?}", resp2);
    let resp3 = facade.flow("processDesign/deploy", &args_of(vec![("id", n(design_id))]));
    assert_eq!(code(&resp3), 0, "{:?}", resp3);
    let resp4 = facade.flow(
        "processDefine/startAndExecute",
        &args_of(vec![("name", s("two-step-flow")), ("operator", s("applicant"))]),
    );
    assert_eq!(code(&resp4), 0, "{:?}", resp4);
    let inst_id = text(at(data(&resp4), "processInstanceId"));
    assert!(!inst_id.is_empty() && inst_id != "0");
    let resp6 = facade.flow("processTask/todoList", &args_of(vec![("operator", s("user2"))]));
    assert_eq!(code(&resp6), 0, "{:?}", resp6);
    let rows = at(data(&resp6), "rows").as_array().unwrap();
    assert!(!rows.is_empty());
    let todo_task_id: i64 = text(at(&rows[0], "id")).parse().unwrap();
    assert!(todo_task_id > 0);
    let resp5 = facade.flow(
        "processTask/execute",
        &args_of(vec![("processTaskId", n(todo_task_id)), ("operator", s("user2")), ("submitType", n(1))]),
    );
    assert_eq!(code(&resp5), 0, "{:?}", resp5);
}

// ─── processDesign ───

#[test]
fn test_process_design_save_and_detail() {
    let mut facade = make_facade();
    let resp = facade.flow("processDesign/save", &args_of(vec![("name", s("test-design")), ("displayName", s("Test Design"))]));
    assert_eq!(code(&resp), 0);
    let design_id = id_of(&resp, "id");
    let resp2 = facade.flow("processDesign/detail", &args_of(vec![("id", n(design_id))]));
    assert_eq!(code(&resp2), 0);
    assert_eq!(text(at(at(data(&resp2), "jsonObject"), "name")), "test-design");
}

#[test]
fn test_process_design_page() {
    let mut facade = make_facade();
    let resp = facade.flow("processDesign/page", &FlowData::new());
    assert_eq!(code(&resp), 0);
}

#[test]
fn test_process_design_list_by_type() {
    let mut facade = make_facade();
    let saved = facade.flow(
        "processDesign/save",
        &args_of(vec![("name", s("list-type-flow")), ("displayName", s("LT")), ("type", s("approval"))]),
    );
    assert_eq!(code(&saved), 0);
    let resp = facade.flow("processDesign/listByType", &FlowData::new());
    assert_eq!(code(&resp), 0, "{:?}", resp);
    assert!(data(&resp).as_object().is_some());
    assert!(data(&resp).get("approval").is_some());
}

#[test]
fn test_process_design_update_missing_id() {
    let mut facade = make_facade();
    assert_eq!(code(&facade.flow("processDesign/update", &FlowData::new())), 99999999);
}

#[test]
fn test_process_design_remove_missing_id() {
    let mut facade = make_facade();
    assert_eq!(code(&facade.flow("processDesign/remove", &FlowData::new())), 99999999);
}

#[test]
fn test_process_design_remove_ids_shape_matrix() {
    let mut facade = make_facade();
    let mut save = |f: &mut Facade, name: &str| -> i64 {
        let r = f.flow("processDesign/save", &args_of(vec![("name", s(name)), ("displayName", s(name))]));
        assert_eq!(code(&r), 0);
        id_of(&r, "id")
    };
    let a = save(&mut facade, "design-matrix-a");
    let b = save(&mut facade, "design-matrix-b");
    assert_eq!(code(&facade.flow("processDesign/remove", &args_of(vec![("ids", arr(vec![n(a), n(b)]))]))), 0);
    for id in [a, b] {
        assert_eq!(code(&facade.flow("processDesign/detail", &args_of(vec![("id", n(id))]))), 99999999);
    }
    let c = save(&mut facade, "design-matrix-c");
    assert_eq!(code(&facade.flow("processDesign/remove", &args_of(vec![("id", n(c))]))), 0);
    assert_eq!(code(&facade.flow("processDesign/detail", &args_of(vec![("id", n(c))]))), 99999999);
    assert_eq!(code(&facade.flow("processDesign/remove", &args_of(vec![("ids", arr(vec![]))]))), 99999999);
    for bad in [arr(vec![s("")]), arr(vec![n(1), JsonValue::Null])] {
        assert_eq!(code(&facade.flow("processDesign/remove", &args_of(vec![("ids", bad)]))), 99999999);
    }
}

#[test]
fn test_design_actions_need_the_extension_store() {
    let ctx = ServiceContext::new(MemoryRepository::new(), AtomicIdGenerator::new(100000));
    let mut facade = JeeflowFacade::new(ctx);
    let resp = facade.flow("processDesign/page", &FlowData::new());
    assert_eq!(code(&resp), 99999999);
    assert_eq!(msg(&resp), "内部错误: ExtRepository not registered");
}

// ─── processSurrogate ───

fn save_sg(facade: &mut Facade, op: &str, agent: &str, name: &str) -> i64 {
    let r = facade.flow(
        "processSurrogate/save",
        &args_of(vec![("operator", s(op)), ("surrogate", s(agent)), ("processName", s(name))]),
    );
    assert_eq!(code(&r), 0, "{:?}", r);
    id_of(&r, "id")
}

fn sg_gone(facade: &mut Facade, id: i64) -> bool {
    code(&facade.flow("processSurrogate/detail", &args_of(vec![("id", n(id))]))) == 99999999
}

#[test]
fn test_process_surrogate_crud() {
    let mut facade = make_facade();
    let sg_id = save_sg(&mut facade, "user1", "user2", "test-flow");
    let resp2 = facade.flow("processSurrogate/detail", &args_of(vec![("id", n(sg_id))]));
    assert_eq!(code(&resp2), 0);
    assert_eq!(text(at(data(&resp2), "surrogate")), "user2");
    let resp3 = facade.flow("processSurrogate/update", &args_of(vec![("id", n(sg_id)), ("surrogate", s("user3"))]));
    assert_eq!(code(&resp3), 0);
    let resp2b = facade.flow("processSurrogate/detail", &args_of(vec![("id", n(sg_id))]));
    assert_eq!(text(at(data(&resp2b), "surrogate")), "user3");
    let resp4 = facade.flow("processSurrogate/remove", &args_of(vec![("id", n(sg_id))]));
    assert_eq!(code(&resp4), 0);
    assert!(sg_gone(&mut facade, sg_id));
}

#[test]
fn test_process_surrogate_remove_batch_ids() {
    let mut facade = make_facade();
    let a = save_sg(&mut facade, "zhangsan", "lisiA", "leaveA");
    let b = save_sg(&mut facade, "zhangsan", "lisiB", "leaveB");
    let resp = facade.flow("processSurrogate/remove", &args_of(vec![("ids", arr(vec![n(a), n(b)]))]));
    assert_eq!(code(&resp), 0);
    assert!(sg_gone(&mut facade, a));
    assert!(sg_gone(&mut facade, b));
    let c = save_sg(&mut facade, "lisiC", "lisiD", "leaveC");
    assert_eq!(code(&facade.flow("processSurrogate/remove", &args_of(vec![("ids", arr(vec![n(c)]))]))), 0);
    assert!(sg_gone(&mut facade, c));
    let d = save_sg(&mut facade, "zhangsan", "lisiE", "leaveD");
    assert_eq!(code(&facade.flow("processSurrogate/remove", &args_of(vec![("id", n(d))]))), 0);
    assert!(sg_gone(&mut facade, d));
}

#[test]
fn test_process_surrogate_remove_ids_shape_matrix() {
    let mut facade = make_facade();
    let a = save_sg(&mut facade, "zhangsan", "lisiA", "shape-matrix-flow");
    let b = save_sg(&mut facade, "zhangsan", "lisiB", "shape-matrix-flow");
    assert_eq!(code(&facade.flow("processSurrogate/remove", &args_of(vec![("ids", arr(vec![n(a), n(b)]))]))), 0);
    assert!(sg_gone(&mut facade, a));
    assert!(sg_gone(&mut facade, b));
    assert_eq!(code(&facade.flow("processSurrogate/remove", &args_of(vec![("ids", arr(vec![]))]))), 99999999);
    for bad in [arr(vec![s("")]), arr(vec![n(1), JsonValue::Null])] {
        assert_eq!(code(&facade.flow("processSurrogate/remove", &args_of(vec![("ids", bad)]))), 99999999);
    }
}

#[test]
fn test_process_surrogate_page() {
    let mut facade = make_facade();
    let resp = facade.flow("processSurrogate/page", &FlowData::new());
    assert_eq!(code(&resp), 0);
}

#[test]
fn test_process_surrogate_detail_missing() {
    let mut facade = make_facade();
    let resp = facade.flow("processSurrogate/detail", &args_of(vec![("id", n(99999))]));
    assert_eq!(code(&resp), 99999999);
    assert_eq!(msg(&resp), "委托不存在: 99999");
}

#[test]
fn test_process_surrogate_update_missing_id() {
    let mut facade = make_facade();
    let resp = facade.flow("processSurrogate/update", &FlowData::new());
    assert_eq!(code(&resp), 99999999);
    assert_eq!(msg(&resp), "缺少id参数");
}

#[test]
fn test_process_surrogate_remove_missing_id() {
    let mut facade = make_facade();
    assert_eq!(code(&facade.flow("processSurrogate/remove", &FlowData::new())), 99999999);
}

#[test]
fn test_transform_output_formats_time_fields() {
    let output = transform(obj(vec![
        ("create_time", s("2025-03-04T05:06:07")),
        ("finish_time", s("NOW()")),
        ("update_time", s("2025-03-04T05:06:07.123")),
        ("expire_time", s("soon")),
        ("note", s("2025-03-04T05:06:07")),
    ]));
    assert_eq!(text(at(&output, "createTime")), "2025-03-04 05:06:07");
    assert_eq!(text(at(&output, "finishTime")), "2025-01-01 08:00:00");
    assert_eq!(text(at(&output, "updateTime")), "2025-03-04 05:06:07");
    assert_eq!(text(at(&output, "expireTime")), "soon");
    assert_eq!(text(at(&output, "note")), "2025-03-04T05:06:07");
}

#[test]
fn test_seed_business_without_defines_saves_the_surrogates() {
    let mut f = make_facade();
    let (started, finished, surrogates) = f.seed_business();
    assert_eq!(started, 0);
    assert_eq!(finished, 0);
    assert_eq!(surrogates, 8);
    let mut args = FlowData::new();
    args.insert_i64("pageNum", 1);
    args.insert_i64("pageSize", 20);
    let page = f.flow("processSurrogate/page", &args);
    assert_eq!(page.get_i64("code"), Some(0));
}
