use jeeflow::error::JeeflowError;
use jeeflow::json::{FlowData, JsonNumber, JsonValue};
use jeeflow::json_parse::parse_json;
use jeeflow::parser::{ModelParser, NodeType};

/// Structural equality of two JSON values.
fn json_eq(a: &JsonValue, b: &JsonValue) -> bool {
    match (a, b) {
        (JsonValue::Null, JsonValue::Null) => true,
        (JsonValue::Bool(x), JsonValue::Bool(y)) => x == y,
        (JsonValue::Number(x), JsonValue::Number(y)) => x == y,
        (JsonValue::Str(x), JsonValue::Str(y)) => x == y,
        (JsonValue::Array(x), JsonValue::Array(y)) => {
            x.len() == y.len() && x.iter().zip(y.iter()).all(|(p, q)| json_eq(p, q))
        },
        (JsonValue::Object(x), JsonValue::Object(y)) => {
            x.len() == y.len() && x.iter().zip(y.iter()).all(|(p, q)| p.0 == q.0 && json_eq(&p.1, &q.1))
        },
        _ => false,
    }
}

#[test]
fn test_parse_simple_object() {
    let json = r#"{"name":"test","value":42,"flag":true,"nothing":null}"#;
    let val = parse_json(json).unwrap();
    assert_eq!(val.get_str("name"), Some("test"));
    assert_eq!(val.get_i64("value"), Some(42));
    assert_eq!(val.get("flag").and_then(|v| v.as_bool()), Some(true));
    assert!(val.get("nothing").unwrap().is_null());
}

#[test]
fn test_parse_nested() {
    let json = r#"{"a":{"b":"c"},"d":[1,2,3]}"#;
    let val = parse_json(json).unwrap();
    assert_eq!(val.get("a").unwrap().get_str("b"), Some("c"));
    let arr = val.get("d").unwrap().as_array().unwrap();
    assert_eq!(arr.len(), 3);
}

#[test]
fn test_flow_data() {
    let mut fd = FlowData::new();
    fd.insert_str("f_name", "张三");
    fd.insert_i64("f_amount", 1000);
    fd.insert_str("operator", "user1");
    assert_eq!(fd.get_str("f_name"), Some("张三"));
    assert_eq!(fd.form_fields().len(), 2);
    assert!(fd.task_form_fields().is_empty());
}

#[test]
fn test_json_roundtrip() {
    let json = r#"{"name":"test","items":[1,"two",null,true]}"#;
    let val = parse_json(json).unwrap();
    let serialized = val.to_json_string();
    let reparsed = parse_json(&serialized).unwrap();
    assert!(json_eq(&val, &reparsed));
}

#[test]
fn test_parse_empty_object() {
    let val = parse_json("{}").unwrap();
    assert!(val.as_object().unwrap().is_empty());
}

#[test]
fn test_parse_empty_array() {
    let val = parse_json("[]").unwrap();
    assert!(val.as_array().unwrap().is_empty());
}

#[test]
fn test_json_value_is_methods() {
    assert!(JsonValue::Null.is_null());
    assert!(JsonValue::Bool(true).as_bool() == Some(true));
    let n = JsonValue::Number(JsonNumber { mantissa: 314, scale: 2 });
    assert_eq!(n.to_json_string(), "3.14");
    assert!(JsonValue::Str("hello".into()).as_str() == Some("hello"));
}

#[test]
fn test_json_value_as_i64() {
    assert_eq!(JsonValue::Number(JsonNumber { mantissa: 42, scale: 0 }).as_i64(), Some(42));
    assert_eq!(JsonValue::Str("not a number".into()).as_i64(), None);
    assert_eq!(JsonValue::Null.as_i64(), None);
}

#[test]
fn test_flow_data_merge() {
    let mut fd1 = FlowData::new();
    fd1.insert_str("a", "1");
    let mut fd2 = FlowData::new();
    fd2.insert_str("b", "2");
    fd1.merge(&fd2);
    assert_eq!(fd1.get_str("a"), Some("1"));
    assert_eq!(fd1.get_str("b"), Some("2"));
}

#[test]
fn test_flow_data_contains_key() {
    let mut fd = FlowData::new();
    fd.insert_str("key1", "val1");
    assert!(fd.contains_key("key1"));
    assert!(!fd.contains_key("key2"));
}

#[test]
fn test_flow_data_remove() {
    let mut fd = FlowData::new();
    fd.insert_str("key1", "val1");
    let removed = fd.remove("key1");
    assert!(removed.is_some());
    assert!(!fd.contains_key("key1"));
}

#[test]
fn test_flow_data_from_map() {
    let pairs = vec![("k".to_string(), JsonValue::Str("v".to_string()))];
    let fd = FlowData::from_pairs(&pairs);
    assert_eq!(fd.get_str("k"), Some("v"));
}

#[test]
fn test_parse_utf8_chinese_string() {
    let val = parse_json(r#"{"value":"上级审批"}"#).unwrap();
    assert_eq!(val.get_str("value"), Some("上级审批"));
    let val2 = parse_json(r#"{"displayName":"简单审批流程","text":{"value":"发起申请"}}"#).unwrap();
    assert_eq!(val2.get_str("displayName"), Some("简单审批流程"));
    assert_eq!(val2.get("text").and_then(|t| t.get_str("value")), Some("发起申请"));
}

#[test]
fn test_parse_invalid_json_error() {
    assert!(parse_json("{invalid}").is_err());
    assert!(parse_json("[1,2,").is_err());
}

#[test]
fn test_json_array_iteration() {
    let val = parse_json("[1,2,3]").unwrap();
    let arr = val.as_array().unwrap();
    let sum: i64 = arr.iter().filter_map(|v| v.as_i64()).sum();
    assert_eq!(sum, 6);
}

#[test]
fn test_insert_keeps_position_and_replaces() {
    let mut fd = FlowData::new();
    fd.insert_str("a", "1");
    fd.insert_str("b", "2");
    fd.insert_str("a", "3");
    assert_eq!(fd.len(), 2);
    assert_eq!(fd.get_str("a"), Some("3"));
    assert_eq!(fd.json_string(), r#"{"a":"3","b":"2"}"#);
}

#[test]
fn test_escape_and_decimal_text() {
    let val = parse_json(r#"{"s":"a\"b\\c\n","n":-0.50,"e":1e3}"#).unwrap();
    assert_eq!(val.get_str("s"), Some("a\"b\\c\n"));
    assert_eq!(val.to_json_string(), r#"{"s":"a\"b\\c\n","n":-0.5,"e":1000}"#);
}

// ─── the model parser ───

#[test]
fn test_parse_simple_flow() {
    let json = r#"{
        "name": "test-flow",
        "displayName": "Test Flow",
        "type": "approval",
        "nodes": [
            {"id": "start", "type": "snaker:start", "text": {"value": "开始"}},
            {"id": "apply", "type": "snaker:task", "text": {"value": "申请"},
             "properties": {"assignee": "applicant"}},
            {"id": "end", "type": "snaker:end", "text": {"value": "结束"}}
        ],
        "edges": [
            {"id": "e1", "sourceNodeId": "start", "targetNodeId": "apply"},
            {"id": "e2", "sourceNodeId": "apply", "targetNodeId": "end"}
        ]
    }"#;
    let model = ModelParser::parse(json).unwrap();
    assert_eq!(model.name, "test-flow");
    assert_eq!(model.display_name, "Test Flow");
    assert_eq!(model.nodes.len(), 3);
    assert_eq!(model.edges.len(), 2);
    let start = model.get_start().unwrap();
    assert_eq!(start.id, "start");
    assert_eq!(start.node_type, NodeType::Start);
    let first_task = model.get_first_task_node().unwrap();
    assert_eq!(first_task.id, "apply");
    assert_eq!(first_task.assignee(), Some("applicant".to_string()));
}

#[test]
fn test_parse_decision_flow() {
    let json = r#"{
        "name": "decision-flow",
        "displayName": "Decision",
        "type": "approval",
        "nodes": [
            {"id": "start", "type": "snaker:start", "text": {"value": "开始"}},
            {"id": "d1", "type": "snaker:decision", "text": {"value": "判断"}},
            {"id": "end", "type": "snaker:end", "text": {"value": "结束"}}
        ],
        "edges": [
            {"id": "e1", "sourceNodeId": "start", "targetNodeId": "d1"},
            {"id": "e2", "sourceNodeId": "d1", "targetNodeId": "end",
             "properties": {"expr": "amount > 1000"}}
        ]
    }"#;
    let model = ModelParser::parse(json).unwrap();
    let decision = model.get_node("d1").unwrap();
    assert_eq!(decision.node_type, NodeType::Decision);
    let edges = model.get_output_edges("d1");
    assert_eq!(edges.len(), 1);
    assert_eq!(edges[0].expr(), Some("amount > 1000".to_string()));
}

#[test]
fn test_parse_countersign() {
    let json = r#"{
        "name": "cs-flow",
        "displayName": "Countersign",
        "type": "approval",
        "nodes": [
            {"id": "start", "type": "snaker:start", "text": {"value": "开始"}},
            {"id": "cs", "type": "snaker:task", "text": {"value": "会签"},
             "properties": {"performType": "1", "countersignType": "PARALLEL"}},
            {"id": "end", "type": "snaker:end", "text": {"value": "结束"}}
        ],
        "edges": [
            {"id": "e1", "sourceNodeId": "start", "targetNodeId": "cs"},
            {"id": "e2", "sourceNodeId": "cs", "targetNodeId": "end"}
        ]
    }"#;
    let model = ModelParser::parse(json).unwrap();
    let cs = model.get_node("cs").unwrap();
    assert!(cs.is_countersign());
    assert_eq!(cs.countersign_type(), "PARALLEL");
}

#[test]
fn test_parse_empty_nodes() {
    let json = r#"{"name": "empty", "displayName": "Empty", "type": "approval", "nodes": [], "edges": []}"#;
    let model = ModelParser::parse(json).unwrap();
    assert_eq!(model.nodes.len(), 0);
    assert!(model.get_start().is_none());
}

#[test]
fn test_parse_fork_join_flow() {
    let json = r#"{
        "name": "fork-flow", "displayName": "Fork", "type": "approval",
        "nodes": [
            {"id": "start", "type": "snaker:start", "text": {"value": "Start"}},
            {"id": "fork1", "type": "snaker:fork", "text": {"value": "Fork"}},
            {"id": "t1", "type": "snaker:task", "text": {"value": "Task1"}, "properties": {"assignee": "user1"}},
            {"id": "t2", "type": "snaker:task", "text": {"value": "Task2"}, "properties": {"assignee": "user2"}},
            {"id": "join1", "type": "snaker:join", "text": {"value": "Join"}},
            {"id": "end", "type": "snaker:end", "text": {"value": "End"}}
        ],
        "edges": [
            {"id": "e1", "sourceNodeId": "start", "targetNodeId": "fork1"},
            {"id": "e2", "sourceNodeId": "fork1", "targetNodeId": "t1"},
            {"id": "e3", "sourceNodeId": "fork1", "targetNodeId": "t2"},
            {"id": "e4", "sourceNodeId": "t1", "targetNodeId": "join1"},
            {"id": "e5", "sourceNodeId": "t2", "targetNodeId": "join1"},
            {"id": "e6", "sourceNodeId": "join1", "targetNodeId": "end"}
        ]
    }"#;
    let model = ModelParser::parse(json).unwrap();
    assert_eq!(model.nodes.len(), 6);
    let fork = model.get_node("fork1").unwrap();
    assert_eq!(fork.node_type, NodeType::Fork);
    let join = model.get_node("join1").unwrap();
    assert_eq!(join.node_type, NodeType::Join);
    let output_edges = model.get_output_edges("fork1");
    assert_eq!(output_edges.len(), 2);
}

#[test]
fn test_parse_node_properties() {
    let json = r#"{
        "name": "prop-flow", "displayName": "Props", "type": "approval",
        "nodes": [
            {"id": "start", "type": "snaker:start", "text": {"value": "S"}},
            {"id": "t1", "type": "snaker:task", "text": {"value": "T"},
             "properties": {"assignee": "user1", "form": "form1", "expireTime": "2d"}},
            {"id": "end", "type": "snaker:end", "text": {"value": "E"}}
        ],
        "edges": [
            {"id": "e1", "sourceNodeId": "start", "targetNodeId": "t1"},
            {"id": "e2", "sourceNodeId": "t1", "targetNodeId": "end"}
        ]
    }"#;
    let model = ModelParser::parse(json).unwrap();
    let t1 = model.get_node("t1").unwrap();
    assert_eq!(t1.assignee(), Some("user1".to_string()));
    assert_eq!(t1.form_key(), Some("form1".to_string()));
}

#[test]
fn test_parse_invalid_json() {
    let result = ModelParser::parse("not json");
    assert!(result.is_err());
}

#[test]
fn test_get_end_nodes() {
    let json = r#"{
        "name": "test", "displayName": "T", "type": "approval",
        "nodes": [
            {"id": "start", "type": "snaker:start", "text": {"value": "S"}},
            {"id": "end1", "type": "snaker:end", "text": {"value": "E1"}},
            {"id": "end2", "type": "snaker:end", "text": {"value": "E2"}}
        ],
        "edges": [
            {"id": "e1", "sourceNodeId": "start", "targetNodeId": "end1"},
            {"id": "e2", "sourceNodeId": "start", "targetNodeId": "end2"}
        ]
    }"#;
    let model = ModelParser::parse(json).unwrap();
    let ends = model.get_end_nodes();
    assert_eq!(ends.len(), 2);
}

#[test]
fn test_get_all_task_nodes() {
    let json = r#"{
        "name": "test", "displayName": "T", "type": "approval",
        "nodes": [
            {"id": "start", "type": "snaker:start", "text": {"value": "S"}},
            {"id": "t1", "type": "snaker:task", "text": {"value": "T1"}, "properties": {"assignee": "u1"}},
            {"id": "t2", "type": "snaker:task", "text": {"value": "T2"}, "properties": {"assignee": "u2"}},
            {"id": "end", "type": "snaker:end", "text": {"value": "E"}}
        ],
        "edges": [
            {"id": "e1", "sourceNodeId": "start", "targetNodeId": "t1"},
            {"id": "e2", "sourceNodeId": "t1", "targetNodeId": "t2"},
            {"id": "e3", "sourceNodeId": "t2", "targetNodeId": "end"}
        ]
    }"#;
    let model = ModelParser::parse(json).unwrap();
    let task_count = model.nodes.iter().filter(|n| n.node_type == NodeType::Task).count();
    assert_eq!(task_count, 2);
}

#[test]
fn test_parse_blank_text_gives_empty_model() {
    let model = ModelParser::parse("   ").unwrap();
    assert_eq!(model.nodes.len(), 0);
    assert_eq!(model.name, "unknown");
}

#[test]
fn test_parse_error_is_prefixed() {
    match ModelParser::parse("{bad") {
        Err(JeeflowError::ParseError(m)) => assert!(m.starts_with("JSON parse error: ")),
        Err(_) => panic!("a parse error"),
        Ok(_) => panic!("must fail"),
    }
}

#[test]
fn test_written_text_reads_back_with_escapes_and_decimals() {
    let v = JsonValue::Object(vec![
        ("text".to_string(), JsonValue::Str("say \"hi\"\n\ttab \\ \u{1}end 张".to_string())),
        ("amount".to_string(), JsonValue::Number(JsonNumber { mantissa: -1205, scale: 2 })),
        ("small".to_string(), JsonValue::Number(JsonNumber { mantissa: 7, scale: 3 })),
        ("list".to_string(), JsonValue::Array(vec![JsonValue::Bool(false), JsonValue::Null, JsonValue::Array(vec![])])),
        ("empty".to_string(), JsonValue::Object(vec![])),
    ]);
    let text = v.to_json_string();
    let back = parse_json(&text).unwrap();
    assert!(json_eq(&v, &back), "{text}");
}

#[test]
fn test_number_reading_normalizes_and_scales() {
    let v = parse_json("12.500").unwrap();
    assert!(json_eq(&v, &JsonValue::Number(JsonNumber { mantissa: 125, scale: 1 })));
    let v = parse_json("1.5e2").unwrap();
    assert!(json_eq(&v, &JsonValue::Number(JsonNumber { mantissa: 150, scale: 0 })));
    let v = parse_json("-0.0").unwrap();
    assert!(json_eq(&v, &JsonValue::Number(JsonNumber { mantissa: 0, scale: 0 })));
    assert!(parse_json("1e").is_err());
    assert!(parse_json("\"\\u00zz\"").is_err());
    let v = parse_json("\"\\u+041\"").unwrap();
    assert_eq!(v.as_str(), Some("A"));
}
