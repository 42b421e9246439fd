use serde_json::Value;
use shadow_json::shadow_tree::{build_shadow_tree, NodeKind};

fn doc(text: &str) -> Value {
    serde_json::from_str(text).unwrap()
}

#[test]
fn test_simple_object_shadow_tree() {
    let json = doc(r#"{"name": "测试", "age": 30}"#);

    let tree = build_shadow_tree(&json);

    assert_eq!(tree.len(), 3);

    assert_eq!(tree[0].name, "$");
    assert_eq!(tree[0].path, "$");
    assert_eq!(tree[0].kind, NodeKind::Object);
    assert_eq!(tree[0].children, 2);

    let field_nodes: Vec<_> = tree.iter().skip(1).collect();
    assert_eq!(field_nodes.len(), 2);

    let names: Vec<&str> = field_nodes.iter().map(|n| n.name.as_str()).collect();
    assert!(names.contains(&"name"));
    assert!(names.contains(&"age"));

    let paths: Vec<&str> = field_nodes.iter().map(|n| n.path.as_str()).collect();
    assert!(paths.contains(&"$.name"));
    assert!(paths.contains(&"$.age"));
}

#[test]
fn test_nested_object_shadow_tree() {
    let json = doc(r#"{"user": {"profile": {"name": "张三"}}}"#);

    let tree = build_shadow_tree(&json);

    assert_eq!(tree.len(), 4);

    assert_eq!(tree[0].path, "$");
    assert_eq!(tree[1].path, "$.user");
    assert_eq!(tree[2].path, "$.user.profile");
    assert_eq!(tree[3].path, "$.user.profile.name");
}

#[test]
fn test_array_shadow_tree() {
    let json = doc(r#"{"items": ["第一项", {"id": 1}, [1, 2, 3]]}"#);

    let tree = build_shadow_tree(&json);

    let paths: Vec<&str> = tree.iter().map(|n| n.path.as_str()).collect();
    assert!(paths.contains(&"$"));
    assert!(paths.contains(&"$.items"));
    assert!(paths.contains(&"$.items[0]"));
    assert!(paths.contains(&"$.items[1]"));
    assert!(paths.contains(&"$.items[1].id"));
    assert!(paths.contains(&"$.items[2]"));
    assert!(paths.contains(&"$.items[2][0]"));
    assert!(paths.contains(&"$.items[2][1]"));
    assert!(paths.contains(&"$.items[2][2]"));
}

#[test]
fn test_special_characters_in_keys() {
    let json = doc(
        r#"{
            "normal_key": "value1",
            "key with spaces": "value2",
            "key-with-dashes": "value3",
            "key.with.dots": "value4",
            "key'with'quotes": "value5"
        }"#,
    );

    let tree = build_shadow_tree(&json);

    let paths: Vec<&str> = tree.iter().map(|n| n.path.as_str()).collect();
    assert!(paths.contains(&"$.normal_key"));
    assert!(paths.contains(&"$['key with spaces']"));
    assert!(paths.contains(&"$['key-with-dashes']"));
    assert!(paths.contains(&"$['key.with.dots']"));
    assert!(paths.contains(&"$['key\\'with\\'quotes']"));
}

#[test]
fn test_node_preview_generation() {
    let json = doc(
        r#"{
            "short_string": "短文本",
            "long_string": "这是一个非常长的字符串，应该被截断以便在预览中显示，不应该显示完整内容",
            "number": 42,
            "boolean": true,
            "null_value": null,
            "object": {"nested": "value"},
            "array": [1, 2, 3, 4, 5]
        }"#,
    );

    let tree = build_shadow_tree(&json);

    for node in &tree {
        match node.name.as_str() {
            "short_string" => assert_eq!(node.preview, "\"短文本\""),
            "long_string" => assert!(node.preview.contains("...")),
            "number" => assert_eq!(node.preview, "42"),
            "boolean" => assert_eq!(node.preview, "true"),
            "null_value" => assert_eq!(node.preview, "null"),
            "object" => assert_eq!(node.preview, "{..} (1 keys)"),
            "array" => assert_eq!(node.preview, "[..] (5 items)"),
            _ => {}
        }
    }
}

#[test]
fn index_starts_at_root_with_depth_zero() {
    for text in ["null", "7", "\"x\"", "[]", "{}", r#"{"a": [1, {"b": null}]}"#] {
        let tree = build_shadow_tree(&doc(text));
        assert_eq!(tree[0].path, "$");
        assert_eq!(tree[0].name, "$");
        assert_eq!(tree[0].depth, 0);
        assert!(!tree[0].expanded);
        assert!(tree[0].visible);
    }
}

#[test]
fn index_has_one_entry_per_node_in_pre_order() {
    let tree = build_shadow_tree(&doc(r#"{"a": {"b": [10, 20]}, "c": "x"}"#));
    let paths: Vec<&str> = tree.iter().map(|n| n.path.as_str()).collect();
    assert_eq!(paths, vec!["$", "$.a", "$.a.b", "$.a.b[0]", "$.a.b[1]", "$.c"]);
    let depths: Vec<usize> = tree.iter().map(|n| n.depth).collect();
    assert_eq!(depths, vec![0, 1, 2, 3, 3, 1]);
    let names: Vec<&str> = tree.iter().map(|n| n.name.as_str()).collect();
    assert_eq!(names, vec!["$", "a", "b", "[0]", "[1]", "c"]);
    let children: Vec<usize> = tree.iter().map(|n| n.children).collect();
    assert_eq!(children, vec![2, 1, 2, 0, 0, 0]);
}

#[test]
fn preview_cuts_a_long_string_after_32_characters() {
    let long = "界".repeat(33);
    let exact = "界".repeat(32);
    let text = format!(r#"{{"long": "{}", "exact": "{}", "padded": "  x  "}}"#, long, exact);
    let tree = build_shadow_tree(&doc(&text));
    for node in &tree {
        match node.name.as_str() {
            "long" => assert_eq!(node.preview, format!("\"{}...\"", exact)),
            "exact" => assert_eq!(node.preview, format!("\"{}\"", exact)),
            "padded" => assert_eq!(node.preview, "\"  x  \""),
            _ => {}
        }
    }
}

#[test]
fn empty_key_takes_the_bracket_form() {
    let tree = build_shadow_tree(&doc(r#"{"": 1, "9lives": 2}"#));
    let paths: Vec<&str> = tree.iter().map(|n| n.path.as_str()).collect();
    assert_eq!(paths, vec!["$", "$['']", "$.9lives"]);
}

#[test]
fn array_items_are_numbered_in_decimal() {
    let tree = build_shadow_tree(&doc("[0,1,2,3,4,5,6,7,8,9,10,11]"));
    assert_eq!(tree.len(), 13);
    assert_eq!(tree[0].preview, "[..] (12 items)");
    assert_eq!(tree[11].name, "[10]");
    assert_eq!(tree[12].path, "$[11]");
}

#[test]
fn deep_documents_are_indexed_without_recursion() {
    let depth = 2_000;
    let mut json = Value::Null;
    for _ in 0..depth {
        json = Value::Array(vec![json]);
    }
    let tree = build_shadow_tree(&json);
    assert_eq!(tree.len(), depth + 1);
    assert_eq!(tree[depth].depth, depth);
    assert_eq!(tree[depth].preview, "null");
    assert_eq!(tree[depth].path, format!("${}", "[0]".repeat(depth)));
    assert_eq!(tree[1].path, "$[0]");
    std::mem::forget(json);
}
