use shadow_json::data_core::{AppError, AppState};

fn loaded(text: &str) -> AppState {
    let mut state = AppState::default();
    state.load_file("memory.json", text).expect("加载文件失败");
    state
}

#[test]
fn test_load_simple_json() {
    let json_content = r#"{"name": "test", "value": 42}"#;

    let mut app_state = AppState::default();
    let result = app_state.load_file("simple.json", json_content);

    assert!(result.is_ok(), "加载简单JSON应该成功");
    assert!(app_state.dom.is_some(), "DOM应该被加载");
    assert!(!app_state.tree_flat.is_empty(), "影子树应该被构建");
    assert_eq!(app_state.tree_flat.len(), 3, "应该有3个节点：根、name、value");
}

#[test]
fn test_load_nested_json() {
    let json_content = r#"
        {
            "user": {
                "name": "张三",
                "age": 30,
                "address": {
                    "city": "北京",
                    "district": "朝阳区"
                }
            },
            "items": [1, 2, 3]
        }"#;

    let mut app_state = AppState::default();
    let result = app_state.load_file("nested.json", json_content);

    assert!(result.is_ok(), "加载嵌套JSON应该成功");
    assert!(app_state.tree_flat.len() > 5, "嵌套结构应该产生多个节点");
}

#[test]
fn test_extract_subtree() {
    let app_state = loaded(r#"{"user": {"name": "张三", "age": 30}}"#);

    let root_result = app_state.extract_subtree_pretty("$");
    assert!(root_result.is_ok(), "提取根节点应该成功");

    let user_result = app_state.extract_subtree_pretty("$.user");
    assert!(user_result.is_ok(), "提取用户对象应该成功");

    let name_result = app_state.extract_subtree_pretty("$.user.name");
    assert!(name_result.is_ok(), "提取用户名应该成功");
    assert!(name_result.unwrap().contains("张三"), "结果应该包含用户名");
}

#[test]
fn test_update_node() {
    let mut app_state = loaded(r#"{"user": {"name": "张三", "age": 30}}"#);

    let new_name = r#""李四""#;
    let result = app_state.update_node_from_str("$.user.name", new_name);
    assert!(result.is_ok(), "更新节点应该成功");

    let updated_name = app_state.extract_subtree_pretty("$.user.name").unwrap();
    assert!(updated_name.contains("李四"), "用户名应该被更新为李四");
}

#[test]
fn test_invalid_json_path() {
    let app_state = loaded(r#"{"user": {"name": "张三"}}"#);

    let result = app_state.extract_subtree_pretty("$.nonexistent");
    assert!(result.is_err(), "无效路径应该返回错误");
}

#[test]
fn test_invalid_json_content() {
    let invalid_json = r#"{"invalid": json content}"#;

    let mut app_state = AppState::default();
    let result = app_state.load_file("invalid.json", invalid_json);

    assert!(result.is_err(), "无效JSON应该返回错误");
}

#[test]
fn test_search_results_single_match() {
    let mut app_state =
        loaded(r#"{"user": {"name": "张三", "age": 30}, "config": {"debug": true}}"#);

    app_state.apply_search_filter("name");

    let result = app_state.extract_search_results("name");
    assert!(result.is_ok(), "搜索结果提取应该成功");

    let search_result = result.unwrap();
    assert!(search_result.contains("张三"), "搜索结果应该包含匹配的内容");
    println!("单个匹配搜索结果: {}", search_result);
}

#[test]
fn test_search_results_multiple_matches() {
    let mut app_state = loaded(
        r#"{"users": [{"name": "张三", "description": "用户1"}, {"name": "李四", "description": "用户2"}], "metadata": {"description": "用户数据"}}"#,
    );

    app_state.apply_search_filter("description");

    let result = app_state.extract_search_results("description");
    assert!(result.is_ok(), "搜索结果提取应该成功");

    let search_result = result.unwrap();
    assert!(search_result.contains("search_filter"), "搜索结果应该包含搜索信息");
    assert!(search_result.contains("total_matches"), "搜索结果应该包含匹配数量");
    assert!(search_result.contains("displayed_matches"), "搜索结果应该包含显示数量");
    println!("多个匹配搜索结果: {}", search_result);
}

#[test]
fn test_update_node_type_change() {
    let mut app_state = loaded(r#"{"data": {"value": "原始字符串"}}"#);

    let new_object = r#"{"name": "新对象", "id": 123}"#;
    let result = app_state.update_node_from_str("$.data.value", new_object);
    assert!(result.is_ok(), "类型变更应该成功");

    let updated_value = app_state.extract_subtree_pretty("$.data.value").unwrap();
    assert!(updated_value.contains("新对象"), "应该包含新对象的内容");
    assert!(updated_value.contains("123"), "应该包含新对象的ID");
}

#[test]
fn test_update_array_element() {
    let mut app_state = loaded(r#"{"items": ["第一项", "第二项", "第三项"]}"#);

    let new_item = r#""更新的第二项""#;
    let result = app_state.update_node_from_str("$.items[1]", new_item);
    assert!(result.is_ok(), "数组元素更新应该成功");

    let updated_item = app_state.extract_subtree_pretty("$.items[1]").unwrap();
    assert!(updated_item.contains("更新的第二项"), "数组元素应该被更新");

    let first_item = app_state.extract_subtree_pretty("$.items[0]").unwrap();
    assert!(first_item.contains("第一项"), "第一项应该保持不变");
}

#[test]
fn test_update_with_invalid_json() {
    let mut app_state = loaded(r#"{"data": "原始值"}"#);

    // The replacement is stored as a string and never read as JSON, so a text
    // that is not JSON is as good as any other.
    let invalid_json = r#"{"invalid": json content"#;
    let result = app_state.update_node_from_str("$.data", invalid_json);
    assert!(result.is_ok());

    let stored = app_state.extract_subtree_pretty("$.data").unwrap();
    let parsed: serde_json::Value = serde_json::from_str(&stored).unwrap();
    assert_eq!(parsed, serde_json::Value::String(invalid_json.to_string()));
    assert!(!stored.contains("原始值"));
}

#[test]
fn test_update_nonexistent_path() {
    let mut app_state = loaded(r#"{"data": "值"}"#);

    let new_value = r#""新值""#;
    let result = app_state.update_node_from_str("$.nonexistent.path", new_value);
    assert!(result.is_err(), "不存在的路径应该导致更新失败");
}

#[test]
fn test_shadow_tree_rebuild_after_update() {
    let mut app_state = loaded(r#"{"user": {"name": "张三", "age": 30}}"#);

    let original_tree_len = app_state.tree_flat.len();

    // The replacement is stored as one string: the index is built anew, but
    // the text is not taken apart into members.
    let complex_object = r#"{"profile": {"bio": "个人简介", "skills": ["Rust", "JSON"]}}"#;
    let result = app_state.update_node_from_str("$.user.name", complex_object);
    assert!(result.is_ok(), "复杂对象更新应该成功");

    let new_tree_len = app_state.tree_flat.len();
    assert_eq!(original_tree_len, new_tree_len);
    let name = app_state.tree_flat.iter().find(|n| n.path == "$.user.name").unwrap();
    assert_eq!(name.children, 0);
    assert!(name.preview.starts_with("\"{\"profile\""));

    let bio_result = app_state.extract_subtree_pretty("$.user.name.profile.bio");
    assert!(bio_result.is_err());
}

#[test]
fn operations_without_a_document_say_so() {
    let mut state = AppState::default();
    assert!(matches!(state.extract_subtree_pretty("$"), Err(AppError::State(_))));
    assert!(matches!(state.update_node_from_str("$", "x"), Err(AppError::State(_))));
    assert!(matches!(state.update_json_value("$", "x"), Err(AppError::State(_))));
    assert!(matches!(state.document_text(), Err(AppError::State(_))));
    assert!(matches!(state.extract_search_results("a"), Err(AppError::State(_))));
    assert!(matches!(state.detect_english_fields(false), Err(AppError::State(_))));
    let mut progress = Vec::new();
    assert!(matches!(
        state.build_intermediate_stage2("a", &mut progress),
        Err(AppError::State(_))
    ));
    assert!(progress.is_empty());
    assert!(matches!(state.apply_corrections("{}", r#"{"items": []}"#), Err(AppError::State(_))));
    let e = state.extract_subtree_pretty("$").unwrap_err();
    assert_eq!(e.message(), "状态错误: DOM尚未加载");
}

#[test]
fn load_failure_leaves_the_session_as_it_was() {
    let mut state = loaded(r#"{"a": 1}"#);
    let result = state.load_file("other.json", "{not json");
    assert!(matches!(result, Err(AppError::Parse(_))));
    assert_eq!(state.source_path.as_deref(), Some("memory.json"));
    assert_eq!(state.original_file_path.as_deref(), Some("memory.json"));
    assert_eq!(state.tree_flat.len(), 2);
    assert_eq!(state.extract_subtree_pretty("$.a").unwrap(), "1");
}

#[test]
fn load_records_the_location_and_replaces_document_and_index() {
    let mut state = loaded(r#"{"a": 1}"#);
    state.tree_flat[0].expanded = true;
    state.load_file("second.json", r#"[true, false, null]"#).unwrap();
    assert_eq!(state.source_path.as_deref(), Some("second.json"));
    assert_eq!(state.original_file_path.as_deref(), Some("second.json"));
    let paths: Vec<&str> = state.tree_flat.iter().map(|n| n.path.as_str()).collect();
    assert_eq!(paths, vec!["$", "$[0]", "$[1]", "$[2]"]);
    assert!(state.tree_flat.iter().all(|n| !n.expanded && n.visible));
}

#[test]
fn extract_root_parses_back_to_the_document() {
    let text = r#"{"a": {"b": [1, 2.5, -3, "x", null, true]}, "c": "\"quoted\"\n", "d": {}}"#;
    let state = loaded(text);
    let extracted = state.extract_subtree_pretty("$").unwrap();
    let original: serde_json::Value = serde_json::from_str(text).unwrap();
    let back: serde_json::Value = serde_json::from_str(&extracted).unwrap();
    assert_eq!(back, original);
    assert_eq!(state.document_text().unwrap(), extracted);
}

#[test]
fn extract_is_pretty_printed() {
    let state = loaded(r#"{"a": {"b": 1}}"#);
    assert_eq!(state.extract_subtree_pretty("$.a").unwrap(), "{\n  \"b\": 1\n}");
    assert_eq!(state.extract_subtree_pretty("$['a']['b']").unwrap(), "1");
}

#[test]
fn extract_takes_the_first_of_several_matches() {
    let state = loaded(r#"{"items": [{"v": 10}, {"v": 20}, {"v": 30}]}"#);
    assert_eq!(state.extract_subtree_pretty("$.items[*].v").unwrap(), "10");
}

#[test]
fn extract_errors_tell_refusal_from_no_match() {
    let state = loaded(r#"{"a": 1}"#);
    match state.extract_subtree_pretty("$.missing") {
        Err(AppError::JsonPath(m)) => assert_eq!(m, "未匹配到任何节点"),
        other => panic!("{:?}", other),
    }
    match state.extract_subtree_pretty("$[") {
        Err(AppError::JsonPath(m)) => assert_ne!(m, "未匹配到任何节点"),
        other => panic!("{:?}", other),
    }
}

#[test]
fn mutate_then_extract_returns_the_text_as_a_string() {
    let mut state = loaded(r#"{"a": {"b": 1}, "list": [1, 2]}"#);
    for (addr, text) in [("$.a.b", "plain words"), ("$.list[1]", "42"), ("$.a", "[1, 2]")] {
        state.update_node_from_str(addr, text).unwrap();
        let extracted = state.extract_subtree_pretty(addr).unwrap();
        assert!(extracted.contains(text));
        assert_eq!(extracted, format!("\"{}\"", text));
    }
}

#[test]
fn mutate_failure_leaves_document_and_index_as_they_were() {
    let mut state = loaded(r#"{"a": {"b": 1}}"#);
    state.tree_flat[1].expanded = true;
    let before = state.document_text().unwrap();
    match state.update_node_from_str("$.nope", "x") {
        Err(AppError::JsonPath(m)) => assert_eq!(m, "未匹配到可更新路径"),
        other => panic!("{:?}", other),
    }
    assert!(matches!(state.update_node_from_str("$..[", "x"), Err(AppError::JsonPath(_))));
    assert_eq!(state.document_text().unwrap(), before);
    assert!(state.tree_flat[1].expanded);
    assert_eq!(state.tree_flat.len(), 3);
}

#[test]
fn mutate_rebuilds_the_index_with_default_flags() {
    let mut state = loaded(r#"{"a": {"b": 1, "c": 2}}"#);
    state.toggle_node_expanded("$");
    assert!(state.tree_flat[0].expanded);
    state.update_json_value("$.a", "gone").unwrap();
    let paths: Vec<&str> = state.tree_flat.iter().map(|n| n.path.as_str()).collect();
    assert_eq!(paths, vec!["$", "$.a"]);
    assert!(state.tree_flat.iter().all(|n| !n.expanded && n.visible));
    assert_eq!(state.tree_flat[1].preview, "\"gone\"");
}

#[test]
fn error_messages_name_their_kind() {
    assert_eq!(AppError::Io("x".to_string()).message(), "IO失败: x");
    assert_eq!(AppError::Parse("x".to_string()).message(), "JSON解析失败: x");
    assert_eq!(AppError::JsonPath("x".to_string()).message(), "JSONPath错误: x");
    assert_eq!(AppError::State("x".to_string()).message(), "状态错误: x");
}

#[test]
fn clipboard_errors_say_what_went_wrong() {
    let e = shadow_json::clipboard::ClipboardError::Clip("no display".to_string());
    assert_eq!(e.message(), "clipboard error: no display");
    assert_eq!(format!("{:?}", e), "Clip(\"no display\")");
}

#[test]
fn install_replaces_document_and_index_and_keeps_the_location() {
    let mut state = loaded(r#"{"a": {"b": 1}}"#);
    state.tree_flat[0].expanded = true;
    let doc: serde_json::Value = serde_json::from_str(r#"["x", {"y": null}]"#).unwrap();
    state.install_document(doc.clone());
    assert_eq!(state.dom, Some(doc));
    let paths: Vec<&str> = state.tree_flat.iter().map(|n| n.path.as_str()).collect();
    assert_eq!(paths, vec!["$", "$[0]", "$[1]", "$[1].y"]);
    assert!(state.tree_flat.iter().all(|n| !n.expanded && n.visible));
    assert_eq!(state.source_path.as_deref(), Some("memory.json"));
    assert_eq!(state.original_file_path.as_deref(), Some("memory.json"));
    let mut empty = AppState::default();
    empty.install_document(serde_json::Value::Null);
    assert_eq!(empty.tree_flat.len(), 1);
    assert_eq!(empty.source_path, None);
    assert_eq!(empty.extract_subtree_pretty("$").unwrap(), "null");
}

#[test]
fn a_replacement_that_looks_like_json_is_stored_as_one_string() {
    let mut state = loaded(r#"{"a": 1}"#);
    for text in ["[1, 2]", "{\"k\": true}", "null", "17", "\"quoted\"", ""] {
        state.update_node_from_str("$.a", text).unwrap();
        assert_eq!(state.dom.as_ref().unwrap()["a"], serde_json::Value::String(text.to_string()));
        assert_eq!(state.tree_flat.len(), 2);
        assert_eq!(state.tree_flat[1].kind, shadow_json::shadow_tree::NodeKind::String);
    }
}

#[test]
fn an_address_with_a_filter_may_select_another_value_after_the_update() {
    let mut state = loaded(r#"{"a": [{"x": 1}, {"x": 1}]}"#);
    let addr = "$.a[?(@.x == 1)]";
    assert_eq!(state.extract_subtree_pretty(addr).unwrap(), "{\n  \"x\": 1\n}");
    state.update_node_from_str(addr, "t").unwrap();
    assert_eq!(state.extract_subtree_pretty("$.a[0]").unwrap(), "\"t\"");
    assert_eq!(state.extract_subtree_pretty(addr).unwrap(), "{\n  \"x\": 1\n}");
}

#[test]
fn a_text_with_a_quote_comes_back_escaped() {
    let mut state = loaded(r#"{"a": 1}"#);
    state.update_node_from_str("$.a", "a\"b").unwrap();
    let extracted = state.extract_subtree_pretty("$.a").unwrap();
    assert_eq!(extracted, "\"a\\\"b\"");
    assert!(!extracted.contains("a\"b"));
    let back: serde_json::Value = serde_json::from_str(&extracted).unwrap();
    assert_eq!(back, serde_json::Value::String("a\"b".to_string()));
}
