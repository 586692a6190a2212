use jeeflow::facade::{
    camel_to_snake, collect_high_light_path, collect_static_candidate_actors, is_known_op, is_opaque_value_key,
    m_filter_of, parse_m_params, to_camel,
};
use jeeflow::json::{FlowData, JsonNumber, JsonValue};
use jeeflow::model::FilterOp;
use jeeflow::parser::ModelParser;

#[test]
fn test_to_camel() {
    assert_eq!(to_camel("process_instance_id"), "processInstanceId");
    assert_eq!(to_camel("task_name"), "taskName");
    assert_eq!(to_camel("id"), "id");
    assert_eq!(to_camel("create_time"), "createTime");
}

#[test]
fn test_c8_camel_to_snake() {
    assert_eq!(camel_to_snake("taskName"), "task_name");
    assert_eq!(camel_to_snake("displayName"), "display_name");
    assert_eq!(camel_to_snake("name"), "name");
    assert_eq!(camel_to_snake("processInstanceId"), "process_instance_id");
}

#[test]
fn test_camel_to_snake_leading_capital() {
    assert_eq!(camel_to_snake("Name"), "name");
    assert_eq!(camel_to_snake("aBC"), "a_b_c");
}

#[test]
fn test_opaque_keys_and_known_ops() {
    assert!(is_opaque_value_key("jsonObject"));
    assert!(is_opaque_value_key("node_progress"));
    assert!(!is_opaque_value_key("taskName"));
    assert!(is_known_op("eq"));
    assert!(is_known_op("RLIKE"));
    assert!(is_known_op("Nin"));
    assert!(!is_known_op("XX"));
}

fn args_of(pairs: Vec<(&str, JsonValue)>) -> FlowData {
    let mut fd = FlowData::new();
    for (k, v) in pairs {
        fd.insert(k.to_string(), v);
    }
    fd
}

#[test]
fn test_c8_parse_m_params_2segment() {
    let args = args_of(vec![("m_EQ_taskName", JsonValue::Str("leaveApply".into()))]);
    let filters = parse_m_params(&args);
    assert_eq!(filters.len(), 1);
    assert_eq!(filters[0].alias, "t");
    assert_eq!(filters[0].op, FilterOp::Eq);
    assert_eq!(filters[0].column, "task_name");
    assert_eq!(filters[0].value, "leaveApply");
}

#[test]
fn test_c8_parse_m_params_3segment() {
    let args = args_of(vec![("m_t_LIKE_displayName", JsonValue::Str("请假".into()))]);
    let filters = parse_m_params(&args);
    assert_eq!(filters.len(), 1);
    assert_eq!(filters[0].alias, "t");
    assert_eq!(filters[0].op, FilterOp::Like);
    assert_eq!(filters[0].column, "display_name");
    assert_eq!(filters[0].value, "请假");
}

#[test]
fn test_c8_parse_m_params_pd_alias() {
    let args = args_of(vec![("m_pd_LIKE_name", JsonValue::Str("simple".into()))]);
    let filters = parse_m_params(&args);
    assert_eq!(filters.len(), 1);
    assert_eq!(filters[0].alias, "pd");
    assert_eq!(filters[0].op, FilterOp::Like);
    assert_eq!(filters[0].column, "name");
}

#[test]
fn test_c8_parse_m_params_multiple() {
    let args = args_of(vec![
        ("m_EQ_name", JsonValue::Str("test".into())),
        ("m_LIKE_displayName", JsonValue::Str("Test".into())),
        ("pageNum", JsonValue::Number(JsonNumber { mantissa: 1, scale: 0 })),
    ]);
    let filters = parse_m_params(&args);
    assert_eq!(filters.len(), 2);
}

#[test]
fn test_c8_parse_m_params_all_operators() {
    for op in &["EQ", "NE", "LIKE", "GT", "LT", "GE", "LE", "IN", "BT"] {
        let args = args_of(vec![(format!("m_{}_name", op).as_str(), JsonValue::Str("val".into()))]);
        let filters = parse_m_params(&args);
        assert_eq!(filters.len(), 1, "Operator {} should be parsed", op);
    }
}

#[test]
fn test_m_filter_values_and_rejections() {
    let n = JsonValue::Number(JsonNumber { mantissa: 15, scale: 1 });
    let f = m_filter_of("m_GT_amount", &n).unwrap();
    assert_eq!(f.value, "1.5");
    let f2 = m_filter_of("m_x_EQ_create_time", &JsonValue::Bool(true)).unwrap();
    assert_eq!(f2.column, "create_time");
    assert_eq!(f2.value, "true");
    assert!(m_filter_of("m_XX_name", &JsonValue::Null).is_none());
    assert!(m_filter_of("m_name", &JsonValue::Null).is_none());
    assert!(m_filter_of("EQ_name", &JsonValue::Null).is_none());
    assert!(m_filter_of("m_t_XX_name", &JsonValue::Null).is_none());
}

fn candidate_flow() -> &'static str {
    r#"{"name":"c","displayName":"C","type":"approval",
        "nodes":[
          {"id":"start","type":"snaker:start","text":{"value":"S"}},
          {"id":"apply","type":"snaker:task","text":{"value":"A"},"properties":{"assignee":"applicant"}},
          {"id":"t1","type":"snaker:task","text":{"value":"T1"},"properties":{"assignee":" lead ","candidateUsers":"x, lead ,y"}},
          {"id":"t2","type":"snaker:task","text":{"value":"T2"},"properties":{"candidateUsers":"y,z"}},
          {"id":"d","type":"snaker:decision","text":{"value":"D"}},
          {"id":"end","type":"snaker:end","text":{"value":"E"}}],
        "edges":[
          {"id":"e1","sourceNodeId":"start","targetNodeId":"apply"},
          {"id":"e2","sourceNodeId":"apply","targetNodeId":"t1"},
          {"id":"e3","sourceNodeId":"apply","targetNodeId":"t2"},
          {"id":"e4","sourceNodeId":"apply","targetNodeId":"d"},
          {"id":"e5","sourceNodeId":"t1","targetNodeId":"end"},
          {"id":"e6","sourceNodeId":"t2","targetNodeId":"end"},
          {"id":"e7","sourceNodeId":"d","targetNodeId":"end","properties":{"expr":"${a} > 1"}}]}"#
}

#[test]
fn test_collect_static_candidate_actors_dedups_in_order() {
    let model = ModelParser::parse(candidate_flow()).unwrap();
    let actors = collect_static_candidate_actors(&model, "apply");
    assert_eq!(actors, vec!["lead".to_string(), "x".to_string(), "y".to_string(), "z".to_string()]);
    assert!(collect_static_candidate_actors(&model, "start").is_empty(), "applicant is not a static candidate");
}

#[test]
fn test_collect_high_light_path() {
    let model = ModelParser::parse(candidate_flow()).unwrap();
    let mut history = Vec::new();
    let mut edges = Vec::new();
    let mut visited = Vec::new();
    let active = vec!["t2".to_string()];
    collect_high_light_path(&model, "start", &active, &mut history, &mut edges, &mut visited);
    assert_eq!(history, vec!["apply".to_string(), "t1".to_string(), "end".to_string(), "d".to_string()]);
    assert_eq!(
        edges,
        vec!["e1".to_string(), "e2".to_string(), "e5".to_string(), "e3".to_string(), "e4".to_string()]
    );
    assert!(!history.contains(&"t2".to_string()), "active nodes are not history");
}
