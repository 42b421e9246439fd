use shadow_json::data_core::AppState;
use shadow_json::shadow_tree::{build_shadow_tree, JsonTreeNode};
use shadow_json::visibility::{apply_filter, find_by_path, recompute_visibility, toggle_expanded};

fn index(text: &str) -> Vec<JsonTreeNode> {
    let doc: serde_json::Value = serde_json::from_str(text).unwrap();
    build_shadow_tree(&doc)
}

fn visible_paths(nodes: &[JsonTreeNode]) -> Vec<&str> {
    nodes.iter().filter(|n| n.visible).map(|n| n.path.as_str()).collect()
}

#[test]
fn empty_filter_shows_every_entry() {
    let mut nodes = index(r#"{"a": {"b": [1, 2]}, "c": null}"#);
    recompute_visibility(&mut nodes);
    assert_eq!(visible_paths(&nodes), vec!["$"]);
    apply_filter(&mut nodes, "");
    assert!(nodes.iter().all(|n| n.visible));
    assert_eq!(nodes.len(), 6);
}

#[test]
fn expanded_chain_is_visible_down_to_the_collapsed_entry() {
    let mut nodes = index(r#"{"a": {"b": 1}}"#);
    nodes[0].expanded = true;
    nodes[1].expanded = true;
    recompute_visibility(&mut nodes);
    assert_eq!(visible_paths(&nodes), vec!["$", "$.a", "$.a.b"]);
    assert!(!nodes[2].expanded);
}

#[test]
fn collapsed_entry_hides_what_is_below_it() {
    let mut nodes = index(r#"{"a": {"b": {"c": 1}}, "d": [1, 2]}"#);
    nodes[0].expanded = true;
    nodes[2].expanded = true;
    recompute_visibility(&mut nodes);
    assert_eq!(visible_paths(&nodes), vec!["$", "$.a", "$.d"]);
    nodes[1].expanded = true;
    recompute_visibility(&mut nodes);
    assert_eq!(visible_paths(&nodes), vec!["$", "$.a", "$.a.b", "$.a.b.c", "$.d"]);
}

#[test]
fn root_is_visible_whatever_the_flags() {
    let mut nodes = index(r#"[1, [2, 3]]"#);
    for n in nodes.iter_mut() {
        n.visible = false;
    }
    recompute_visibility(&mut nodes);
    assert_eq!(visible_paths(&nodes), vec!["$"]);
    let mut none: Vec<JsonTreeNode> = Vec::new();
    recompute_visibility(&mut none);
    assert!(none.is_empty());
}

#[test]
fn recompute_follows_depths_even_in_an_index_that_is_no_tree() {
    let mut nodes = index(r#"[0, 1, 2, 3]"#);
    let depths = [0usize, 2, 1, 2, 1];
    for (n, d) in nodes.iter_mut().zip(depths) {
        n.depth = d;
        n.expanded = true;
    }
    recompute_visibility(&mut nodes);
    let shown: Vec<bool> = nodes.iter().map(|n| n.visible).collect();
    assert_eq!(shown, vec![true, false, true, true, true]);
}

#[test]
fn filter_replaces_expansion_visibility_and_is_case_sensitive() {
    let mut nodes = index(r#"{"Name": 1, "name": 2, "other": {"name": 3}}"#);
    recompute_visibility(&mut nodes);
    apply_filter(&mut nodes, "name");
    assert_eq!(visible_paths(&nodes), vec!["$.name", "$.other.name"]);
    apply_filter(&mut nodes, "other");
    assert_eq!(visible_paths(&nodes), vec!["$.other", "$.other.name"]);
    apply_filter(&mut nodes, "  ");
    assert!(visible_paths(&nodes).is_empty());
    apply_filter(&mut nodes, "");
    assert_eq!(visible_paths(&nodes).len(), 5);
    recompute_visibility(&mut nodes);
    assert_eq!(visible_paths(&nodes), vec!["$"]);
}

#[test]
fn filter_matches_the_name_where_the_address_differs() {
    let mut nodes = index(r#"{"it's": 1}"#);
    apply_filter(&mut nodes, "it's");
    assert_eq!(nodes[1].path, "$['it\\'s']");
    assert_eq!(visible_paths(&nodes), vec!["$['it\\'s']"]);
    apply_filter(&mut nodes, "[0]");
    assert!(visible_paths(&nodes).is_empty());
}

#[test]
fn toggle_flips_the_entry_and_recomputes() {
    let mut nodes = index(r#"{"a": {"b": 1}, "c": 2}"#);
    toggle_expanded(&mut nodes, "$");
    assert!(nodes[0].expanded);
    assert_eq!(visible_paths(&nodes), vec!["$", "$.a", "$.c"]);
    toggle_expanded(&mut nodes, "$.a");
    assert_eq!(visible_paths(&nodes), vec!["$", "$.a", "$.a.b", "$.c"]);
    toggle_expanded(&mut nodes, "$");
    assert!(!nodes[0].expanded);
    assert!(nodes[1].expanded);
    assert_eq!(visible_paths(&nodes), vec!["$"]);
}

#[test]
fn toggle_of_an_unknown_address_only_recomputes() {
    let mut nodes = index(r#"{"a": 1}"#);
    apply_filter(&mut nodes, "");
    toggle_expanded(&mut nodes, "$.missing");
    assert!(nodes.iter().all(|n| !n.expanded));
    assert_eq!(visible_paths(&nodes), vec!["$"]);
}

#[test]
fn find_by_path_gives_the_first_position_or_the_length() {
    let mut nodes = index(r#"{"a": 1, "b": 2}"#);
    assert_eq!(find_by_path(&nodes, "$.b"), 2);
    assert_eq!(find_by_path(&nodes, "$.z"), 3);
    nodes[2].path = "$.a".to_string();
    assert_eq!(find_by_path(&nodes, "$.a"), 1);
}

#[test]
fn session_methods_act_on_the_index() {
    let mut state = AppState::default();
    state.load_file("m.json", r#"{"a": {"b": 1}}"#).unwrap();
    state.tree_flat[0].expanded = true;
    state.update_visibility_by_expansion();
    assert_eq!(visible_paths(&state.tree_flat), vec!["$", "$.a"]);
    state.toggle_node_expanded("$.a");
    assert_eq!(visible_paths(&state.tree_flat), vec!["$", "$.a", "$.a.b"]);
    state.apply_search_filter("b");
    assert_eq!(visible_paths(&state.tree_flat), vec!["$.a.b"]);
    state.apply_search_filter("");
    assert_eq!(visible_paths(&state.tree_flat).len(), 3);
}
