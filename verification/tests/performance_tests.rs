use std::time::Instant;

use serde_json::Value;
use shadow_json::performance::generate_large_json;
use shadow_json::shadow_tree::build_shadow_tree;

#[test]
fn test_generate_large_json() {
    let json = generate_large_json(2, 3);
    assert!(json.is_object());

    let obj = json.as_object().unwrap();
    assert!(obj.contains_key("metadata"));
    assert!(obj.contains_key("data"));
    assert!(obj.contains_key("items"));
}

#[test]
fn test_performance_benchmarks() {
    let json = generate_large_json(2, 5);

    let start = Instant::now();
    let tree = build_shadow_tree(&json);
    let duration_ms = start.elapsed().as_millis();
    assert!(!tree.is_empty());
    assert!(duration_ms < 1000);

    let json_str = serde_json::to_string(&json).unwrap();
    let start = Instant::now();
    let parsed = serde_json::from_str::<Value>(&json_str);
    let duration_ms = start.elapsed().as_millis();
    assert!(parsed.is_ok());
    assert!(duration_ms < 1000);
}

#[test]
fn generated_document_has_the_fields_in_turn() {
    let json = generate_large_json(2, 12);
    let expected: Value = serde_json::from_str(
        r#"{
            "generated_at": "2025-01-09T10:00:00Z",
            "depth": 2,
            "width": 12,
            "description": "性能测试用大型JSON文档"
        }"#,
    )
    .unwrap();
    assert_eq!(json["metadata"], expected);

    let data = json["data"].as_object().unwrap();
    assert_eq!(data.len(), 12);
    let keys: Vec<&str> = data.keys().map(|k| k.as_str()).collect();
    assert_eq!(
        keys,
        vec![
            "field_0", "field_1", "field_10", "field_11", "field_2", "field_3", "field_4",
            "field_5", "field_6", "field_7", "field_8", "field_9"
        ]
    );
    assert_eq!(data["field_0"], "字符串值_0");
    assert_eq!(data["field_10"], "字符串值_10");
    assert_eq!(data["field_1"], 1);
    assert_eq!(data["field_11"], 11);
    assert_eq!(data["field_2"], true);
    assert_eq!(data["field_7"], false);
    assert_eq!(data["field_3"], serde_json::from_str::<Value>("[1, 2, 3, 3]").unwrap());
    assert_eq!(data["field_8"], serde_json::from_str::<Value>("[1, 2, 3, 8]").unwrap());
    let inner = data["field_4"].as_object().unwrap();
    assert_eq!(inner.len(), 6);
    assert_eq!(inner["field_4"], "叶子节点值");
    assert_eq!(inner["field_5"], "字符串值_5");
    assert_eq!(data["field_9"], data["field_4"]);

    let items = json["items"].as_array().unwrap();
    assert_eq!(items.len(), 120);
    let item = serde_json::from_str::<Value>(
        r#"{"id": 7, "name": "项目_7", "value": 14, "active": false}"#,
    )
    .unwrap();
    assert_eq!(items[7], item);
    assert_eq!(items[9]["active"], true);
    assert_eq!(items[119]["value"], 238);
}

#[test]
fn generated_document_without_depth_or_width() {
    let flat = generate_large_json(0, 4);
    assert_eq!(flat["data"], "叶子节点值");
    assert_eq!(flat["items"].as_array().unwrap().len(), 40);
    let empty = generate_large_json(3, 0);
    assert_eq!(empty["data"], serde_json::from_str::<Value>("{}").unwrap());
    assert!(empty["items"].as_array().unwrap().is_empty());
}
