use serde_json::Value;
use shadow_json::data_core::{AppError, AppState};
use shadow_json::pipeline::{
    assemble_items, build_intermediate, derive_name_path, first_text, resolve, resolve_all,
    select_candidates, text_of_value, ProgressEvent,
};
use shadow_json::shadow_tree::build_shadow_tree;

fn loaded(text: &str) -> AppState {
    let mut state = AppState::default();
    state.load_file("memory.json", text).unwrap();
    state
}

fn run(state: &AppState, filter: &str, leaf: bool) -> (Value, Vec<ProgressEvent>) {
    let mut progress = Vec::new();
    let text = state
        .build_intermediate_stage2_with_leaf_filter(filter, leaf, &mut progress)
        .unwrap();
    (serde_json::from_str(&text).unwrap(), progress)
}

fn field<'a>(item: &'a Value, key: &str) -> &'a str {
    item.get(key).unwrap().as_str().unwrap()
}

#[test]
fn derive_name_address_replaces_the_last_top_level_segment() {
    assert_eq!(derive_name_path("$.items[2].title").as_deref(), Some("$.items[2].name"));
    assert_eq!(derive_name_path("$.name").as_deref(), Some("$.name"));
    assert_eq!(derive_name_path("$.a.b.c").as_deref(), Some("$.a.b.name"));
    assert_eq!(derive_name_path("$.a['x.y']").as_deref(), Some("$.name"));
    assert_eq!(derive_name_path("$.a['x.y'].z").as_deref(), Some("$.a['x.y'].name"));
    assert_eq!(derive_name_path("$.a.").as_deref(), Some("$.a.name"));
}

#[test]
fn derive_name_address_fails_without_a_top_level_dot() {
    assert_eq!(derive_name_path("$"), None);
    assert_eq!(derive_name_path(""), None);
    assert_eq!(derive_name_path("$[0]"), None);
    assert_eq!(derive_name_path("$['a.b']"), None);
    assert_eq!(derive_name_path("$[0][1]"), None);
}

#[test]
fn derive_name_address_counts_characters_not_bytes() {
    assert_eq!(derive_name_path("$.名称.值").as_deref(), Some("$.名称.name"));
    assert_eq!(derive_name_path("$]x.y[.z").as_deref(), Some("$]x.y[.name"));
    assert_eq!(derive_name_path("$].[x.y").as_deref(), Some("$].[x.name"));
    assert_eq!(derive_name_path("$].x").as_deref(), None);
    assert_eq!(derive_name_path("$[].[]x.y").as_deref(), Some("$[].[]x.name"));
}

#[test]
fn intermediate_product_numbers_items_without_gaps() {
    let state = loaded(r#"{"x":{"name":"A"},"y":{"name":"B"}}"#);
    let (artifact, _) = run(&state, "name", false);
    assert_eq!(artifact.get("stage").unwrap(), "intermediate2");
    assert_eq!(artifact.get("filter").unwrap(), "name");
    assert_eq!(artifact.get("count").unwrap().as_u64(), Some(2));
    let items = artifact.get("items").unwrap().as_array().unwrap();
    assert_eq!(items.len(), 2);
    assert_eq!(items[0].get("seq").unwrap().as_u64(), Some(0));
    assert_eq!(items[1].get("seq").unwrap().as_u64(), Some(1));
    assert_eq!(field(&items[0], "source_path"), "$.x.name");
    assert_eq!(field(&items[0], "name_path"), "$.x.name");
    assert_eq!(field(&items[0], "name"), "A");
    assert_eq!(field(&items[0], "field_name"), "name");
    assert_eq!(field(&items[0], "name_field_value"), "A");
    assert_eq!(field(&items[1], "source_path"), "$.y.name");
    assert_eq!(field(&items[1], "name"), "B");
}

#[test]
fn intermediate_product_is_pretty_text_with_sorted_keys() {
    let state = loaded(r#"{"a": "v"}"#);
    let mut progress = Vec::new();
    let text = state.build_intermediate_stage2("a", &mut progress).unwrap();
    let expected = "{\n  \"count\": 1,\n  \"filter\": \"a\",\n  \"items\": [\n    {\n      \"field_name\": \"a\",\n      \"name\": \"v\",\n      \"name_field_value\": \"\",\n      \"name_path\": \"$.name\",\n      \"seq\": 0,\n      \"source_path\": \"$.a\"\n    }\n  ],\n  \"stage\": \"intermediate2\"\n}";
    assert_eq!(text, expected);
}

#[test]
fn items_carry_the_sibling_name_and_the_value_as_text() {
    let state = loaded(
        r#"{"items": [{"name": "first", "title": "T1", "n": 7, "ok": true, "none": null, "sub": {"k": [1, "a"]}},
                      {"title": "T2"}]}"#,
    );
    let (artifact, _) = run(&state, "items[", false);
    let items = artifact.get("items").unwrap().as_array().unwrap();
    let by_path = |p: &str| items.iter().find(|i| field(i, "source_path") == p).unwrap();

    let title = by_path("$.items[0].title");
    assert_eq!(field(title, "name"), "T1");
    assert_eq!(field(title, "name_path"), "$.items[0].name");
    assert_eq!(field(title, "name_field_value"), "first");
    assert_eq!(field(title, "field_name"), "title");

    assert_eq!(field(by_path("$.items[0].n"), "name"), "7");
    assert_eq!(field(by_path("$.items[0].ok"), "name"), "true");
    assert_eq!(field(by_path("$.items[0].none"), "name"), "null");
    assert_eq!(field(by_path("$.items[0].sub"), "name"), r#"{"k":[1,"a"]}"#);
    assert_eq!(field(by_path("$.items[0].sub.k[1]"), "name"), "a");
    assert_eq!(field(by_path("$.items[0].sub.k[1]"), "name_path"), "$.items[0].sub.name");
    assert_eq!(field(by_path("$.items[0].sub.k[1]"), "name_field_value"), "");

    let orphan = by_path("$.items[1].title");
    assert_eq!(field(orphan, "name_path"), "$.items[1].name");
    assert_eq!(field(orphan, "name_field_value"), "");

    let element = by_path("$.items[0]");
    assert_eq!(field(element, "field_name"), "[0]");
    assert_eq!(field(element, "name_path"), "$.name");

    for (i, item) in items.iter().enumerate() {
        assert_eq!(item.get("seq").unwrap().as_u64(), Some(i as u64));
    }
    assert_eq!(artifact.get("count").unwrap().as_u64(), Some(items.len() as u64));
}

#[test]
fn an_entry_without_a_top_level_dot_falls_back_to_its_own_address() {
    let state = loaded(r#"[["x"]]"#);
    let (artifact, _) = run(&state, "[0]", false);
    let items = artifact.get("items").unwrap().as_array().unwrap();
    assert_eq!(items.len(), 2);
    assert_eq!(field(&items[0], "source_path"), "$[0]");
    assert_eq!(field(&items[0], "name_path"), "$[0]");
    assert_eq!(field(&items[0], "name"), r#"["x"]"#);
    assert_eq!(field(&items[0], "name_field_value"), "");
    assert_eq!(field(&items[1], "source_path"), "$[0][0]");
    assert_eq!(field(&items[1], "name"), "x");
}

#[test]
fn selection_takes_visible_entries_only() {
    let mut state = loaded(r#"{"a": {"name": "A"}, "b": {"name": "B"}}"#);
    state.tree_flat[2].visible = false;
    let (artifact, _) = run(&state, "name", false);
    let items = artifact.get("items").unwrap().as_array().unwrap();
    assert_eq!(items.len(), 1);
    assert_eq!(field(&items[0], "source_path"), "$.b.name");
    assert_eq!(items[0].get("seq").unwrap().as_u64(), Some(0));
}

#[test]
fn leaf_only_mode_takes_scalars_whose_name_matches() {
    let state = loaded(r#"{"title": {"title": "x", "n": 1}, "titles": ["title"], "t": null}"#);
    let (all, _) = run(&state, "title", false);
    let paths: Vec<&str> = all.get("items").unwrap().as_array().unwrap().iter()
        .map(|i| field(i, "source_path")).collect();
    assert_eq!(paths, vec!["$.title", "$.title.n", "$.title.title", "$.titles", "$.titles[0]"]);
    let (leaves, _) = run(&state, "title", true);
    let paths: Vec<&str> = leaves.get("items").unwrap().as_array().unwrap().iter()
        .map(|i| field(i, "source_path")).collect();
    assert_eq!(paths, vec!["$.title.title"]);
    let (nulls, _) = run(&state, "t", true);
    let paths: Vec<&str> = nulls.get("items").unwrap().as_array().unwrap().iter()
        .map(|i| field(i, "source_path")).collect();
    assert_eq!(paths, vec!["$.t", "$.title.title"]);
}

#[test]
fn empty_filter_gives_the_empty_text_and_reports_nothing() {
    let state = loaded(r#"{"a": 1}"#);
    let mut progress = Vec::new();
    assert_eq!(state.build_intermediate_stage2("", &mut progress).unwrap(), "");
    assert!(progress.is_empty());
    let empty = AppState::default();
    assert_eq!(empty.build_intermediate_stage2("", &mut progress).unwrap(), "");
    assert_eq!(
        build_intermediate(&None, &Vec::new(), "", true, &mut progress).unwrap(),
        ""
    );
    assert!(progress.is_empty());
}

#[test]
fn a_filter_that_selects_nothing_gives_an_empty_listing() {
    let state = loaded(r#"{"a": 1}"#);
    let (artifact, progress) = run(&state, "zzz", false);
    assert_eq!(artifact.get("count").unwrap().as_u64(), Some(0));
    assert!(artifact.get("items").unwrap().as_array().unwrap().is_empty());
    assert_eq!(progress.len(), 4);
}

#[test]
fn progress_is_reported_at_four_checkpoints() {
    let state = loaded(r#"{"a": 1}"#);
    let mut progress = vec![ProgressEvent { percent: 0, label: "before".to_string() }];
    state.build_intermediate_stage2("a", &mut progress).unwrap();
    let seen: Vec<(u8, &str)> = progress.iter().map(|e| (e.percent, e.label.as_str())).collect();
    assert_eq!(
        seen,
        vec![
            (0, "before"),
            (10, "开始分析匹配节点..."),
            (50, "正在查询JSON路径..."),
            (90, "正在构建最终结果..."),
            (100, "完成"),
        ]
    );
}

#[test]
fn a_refused_address_fails_after_the_first_report() {
    let state = loaded(r#"{"9a": {"x": 1}, "b": 2}"#);
    assert_eq!(state.tree_flat[1].path, "$.9a");
    let mut progress = Vec::new();
    let result = state.build_intermediate_stage2("9a", &mut progress);
    assert!(matches!(result, Err(AppError::JsonPath(_))));
    assert_eq!(progress.len(), 1);
    assert_eq!(progress[0].percent, 10);
    let ok = state.build_intermediate_stage2("b", &mut progress);
    assert!(ok.is_ok());
    assert_eq!(progress.len(), 5);
}

#[test]
fn select_candidates_returns_positions_in_index_order() {
    let doc: Value = serde_json::from_str(r#"{"ab": 1, "c": {"ab": 2, "d": 3}, "xab": 4}"#).unwrap();
    let mut nodes = build_shadow_tree(&doc);
    assert_eq!(select_candidates(&nodes, "ab", false), vec![1, 3, 5]);
    assert_eq!(select_candidates(&nodes, "c", false), vec![2, 3, 4]);
    assert_eq!(select_candidates(&nodes, "c", true), Vec::<usize>::new());
    nodes[3].visible = false;
    assert_eq!(select_candidates(&nodes, "ab", true), vec![1, 5]);
}

#[test]
fn resolution_gives_text_empty_text_or_the_refusal() {
    let doc: Value = serde_json::from_str(r#"{"s": "text", "n": 1.5, "o": {"k": "v"}}"#).unwrap();
    assert_eq!(resolve(&doc, "$.s").unwrap(), "text");
    assert_eq!(resolve(&doc, "$.n").unwrap(), "1.5");
    assert_eq!(resolve(&doc, "$.o").unwrap(), r#"{"k":"v"}"#);
    assert_eq!(resolve(&doc, "$.missing").unwrap(), "");
    assert!(resolve(&doc, "$.[").is_err());
    assert_eq!(text_of_value(&Value::String("\"q\"".to_string())), "\"q\"");
    assert_eq!(text_of_value(&Value::Null), "null");
    assert_eq!(first_text(&vec![&doc["n"], &doc["s"]]), "1.5");
    assert_eq!(first_text(&Vec::new()), "");
}

#[test]
fn phases_compose_into_the_listing() {
    let doc: Value = serde_json::from_str(r#"{"p": {"name": "N", "x": 1, "y": 2}}"#).unwrap();
    let nodes = build_shadow_tree(&doc);
    let picked = select_candidates(&nodes, "p.", false);
    assert_eq!(picked, vec![2, 3, 4]);
    let store = resolve_all(&doc, &nodes, &picked).unwrap();
    let keys: Vec<String> = store.entries.iter().map(|e| e.0.iter().collect()).collect();
    assert_eq!(keys, vec!["$.p.name", "$.p.x", "$.p.y"]);
    let items = assemble_items(&store, &nodes, &picked);
    assert_eq!(items.len(), 3);
    assert_eq!(items[1].source_path, "$.p.x");
    assert_eq!(items[1].name_path, "$.p.name");
    assert_eq!(items[1].name, "1");
    assert_eq!(items[1].name_field_value, "N");
    assert_eq!(items[1].seq, 1);
    assert_eq!(items[2].seq, 2);
    assert_eq!(items[0].name_field_value, "N");
}
