use serde_json::Value;
use shadow_json::data_core::AppState;
use shadow_json::json::member;
use shadow_json::pipeline::text_of_value;
use shadow_json::resolver::{extract_pretty, first_match, first_place, render, replace_first};
use shadow_json::search::{content_value, key_for, kind_text, search_results};
use shadow_json::shadow_tree::NodeKind;

fn loaded(text: &str) -> AppState {
    let mut state = AppState::default();
    state.load_file("memory.json", text).unwrap();
    state
}

#[test]
fn search_with_an_empty_filter_or_without_matches() {
    let state = loaded(r#"{"a": 1}"#);
    assert_eq!(state.extract_search_results("").unwrap(), "");
    assert_eq!(state.extract_search_results(" \t ").unwrap(), "");
    assert_eq!(state.extract_search_results("zzz").unwrap(), "{}");
    assert_eq!(search_results(&None, &Vec::new(), "").unwrap(), "");
    let mut hidden = loaded(r#"{"a": 1}"#);
    hidden.tree_flat[1].visible = false;
    assert_eq!(hidden.extract_search_results("a").unwrap(), "{}");
}

#[test]
fn search_with_one_match_gives_its_value() {
    let mut state = loaded(r#"{"only": {"k": [1, 2]}, "other": 3}"#);
    state.tree_flat[0].expanded = true;
    state.update_visibility_by_expansion();
    assert_eq!(state.extract_search_results("only").unwrap(), "{\n  \"k\": [\n    1,\n    2\n  ]\n}");
    assert_eq!(state.extract_search_results("other").unwrap(), "3");
}

#[test]
fn search_with_several_matches_reports_each_under_its_key() {
    let state = loaded(r#"{"u": [{"d": "one"}, {"d": {"deep": true}}], "9d": 5}"#);
    let text = state.extract_search_results("d").unwrap();
    let report: Value = serde_json::from_str(&text).unwrap();
    assert_eq!(report["search_filter"], "d");
    assert_eq!(report["total_matches"], 4);
    assert_eq!(report["displayed_matches"], 4);
    assert_eq!(report["truncated"], false);
    let results = report["results"].as_object().unwrap();
    let keys: Vec<&str> = results.keys().map(|k| k.as_str()).collect();
    assert_eq!(keys, vec!["match_1_9d_error", "match_2_d", "match_3_d", "match_4_deep"]);
    assert_eq!(results["match_2_d"]["path"], "$.u[0].d");
    assert_eq!(results["match_2_d"]["name"], "d");
    assert_eq!(results["match_2_d"]["type"], "String");
    assert_eq!(results["match_2_d"]["content"], "one");
    assert_eq!(results["match_3_d"]["type"], "Object");
    assert_eq!(results["match_3_d"]["content"]["deep"], true);
    assert_eq!(results["match_4_deep"]["type"], "Bool");
    assert_eq!(results["match_4_deep"]["content"], true);
    let failed = &results["match_1_9d_error"];
    assert_eq!(failed["path"], "$.9d");
    assert_eq!(failed["type"], "Number");
    assert!(failed["error"].as_str().unwrap().starts_with("JSONPath错误: "));
    assert!(failed.get("content").is_none());
    assert_eq!(text, serde_json::to_string_pretty(&report).unwrap());
}

#[test]
fn report_keys_and_kinds_are_spelled_out() {
    assert_eq!(key_for(0, "name", false).iter().collect::<String>(), "match_1_name");
    assert_eq!(key_for(9, "[3]", true).iter().collect::<String>(), "match_10_[3]_error");
    let kinds = [
        (NodeKind::Object, "Object"), (NodeKind::Array, "Array"), (NodeKind::String, "String"),
        (NodeKind::Number, "Number"), (NodeKind::Bool, "Bool"), (NodeKind::Null, "Null"),
    ];
    for (kind, name) in kinds {
        assert_eq!(kind_text(kind), name);
        assert_eq!(format!("{:?}", kind), name);
    }
    assert_eq!(content_value("[1]".to_string()), serde_json::from_str::<Value>("[1]").unwrap());
    assert_eq!(content_value("not json".to_string()), Value::String("not json".to_string()));
}

#[test]
fn documents_are_written_compact_and_indented() {
    let object: Value = serde_json::from_str(r#"{"b": false, "a": [1, "x"]}"#).unwrap();
    assert_eq!(text_of_value(&object), r#"{"a":[1,"x"],"b":false}"#);
    assert_eq!(render(&object).unwrap(), "{\n  \"a\": [\n    1,\n    \"x\"\n  ],\n  \"b\": false\n}");
    assert_eq!(text_of_value(&Value::String("as is".to_string())), "as is");
    assert_eq!(member(&object, "b"), Some(&Value::Bool(false)));
    assert_eq!(member(&object, "c"), None);
    assert_eq!(member(&Value::Null, "b"), None);
}

#[test]
fn a_refused_text_carries_the_message_of_the_parser() {
    let mut state = AppState::default();
    match state.load_file("m.json", "{") {
        Err(e) => {
            assert!(e.message().starts_with("JSON解析失败: "));
            assert!(e.message().contains("EOF"));
        }
        Ok(()) => panic!("refusal expected"),
    }
}

#[test]
fn queries_take_the_first_of_the_values_and_places() {
    let mut doc: Value = serde_json::from_str(r#"{"a": [{"b": 1}, {"b": 2}], "k'q": 3}"#).unwrap();
    assert_eq!(extract_pretty(&doc, "$.a[*].b").unwrap(), "1");
    assert_eq!(extract_pretty(&doc, "$['k\\'q']").unwrap(), "3");
    assert!(extract_pretty(&doc, "$.none").is_err());
    assert!(extract_pretty(&doc, "$.a[").is_err());
    replace_first(&mut doc, "$.a[*].b", "x").unwrap();
    assert_eq!(doc["a"][0]["b"], "x");
    assert_eq!(doc["a"][1]["b"], 2);
    let before = doc.clone();
    assert!(replace_first(&mut doc, "$.zz", "x").is_err());
    assert!(replace_first(&mut doc, "$$", "x").is_err());
    assert_eq!(doc, before);
    replace_first(&mut doc, "$", "all").unwrap();
    assert_eq!(doc, Value::String("all".to_string()));
}

#[test]
fn the_first_match_and_the_first_place_are_picked() {
    let one = Value::from(1);
    let two = Value::from(2);
    assert_eq!(first_match(vec![&one, &two]).unwrap(), &one);
    assert!(first_match(Vec::new()).is_err());
    assert_eq!(first_place(vec!["p".to_string(), "q".to_string()]).unwrap(), "p");
    assert!(first_place(Vec::new()).is_err());
}
