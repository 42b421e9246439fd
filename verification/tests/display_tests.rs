use shadow_json::display::{
    display_rows, is_chinese_char, is_empty_value, is_english_char, log_line,
    matches_char_filter, paginate_text, split_lines,
};
use shadow_json::shadow_tree::build_shadow_tree;
use shadow_json::structure::{compare_json_structure, validate_json_format};

fn lines(text: &str) -> Vec<String> {
    split_lines(&text.chars().collect()).into_iter().map(|l| l.into_iter().collect()).collect()
}

#[test]
fn lines_split_like_the_standard_library() {
    for text in [
        "", "a", "a\n", "a\nb", "a\n\nb\n", "\n", "\n\n", "a\r\nb\r\n", "a\rb", "a\r", "\r\n",
        "\r", "x\r\r\ny", "foo\nbar\n\r\nbaz\r", "日本\n語",
    ] {
        let expected: Vec<String> = text.lines().map(|l| l.to_string()).collect();
        assert_eq!(lines(text), expected, "{:?}", text);
    }
}

#[test]
fn pages_hold_the_lines_in_order() {
    let text = "l1\nl2\nl3\nl4\nl5";
    assert_eq!(paginate_text(text, 1, 2), ("l1\nl2".to_string(), 3));
    assert_eq!(paginate_text(text, 2, 2), ("l3\nl4".to_string(), 3));
    assert_eq!(paginate_text(text, 3, 2), ("l5".to_string(), 3));
    assert_eq!(paginate_text(text, 1, 5), (text.to_string(), 1));
    assert_eq!(paginate_text(text, 1, 300), (text.to_string(), 1));
    assert_eq!(paginate_text(text, 5, 1), ("l5".to_string(), 5));
}

#[test]
fn a_page_that_does_not_exist_is_empty() {
    let text = "l1\nl2\nl3";
    assert_eq!(paginate_text(text, 0, 2), (String::new(), 2));
    assert_eq!(paginate_text(text, 3, 2), (String::new(), 2));
    assert_eq!(paginate_text("", 1, 10), (String::new(), 1));
    assert_eq!(paginate_text("", 2, 10), (String::new(), 1));
    assert_eq!(paginate_text("\n", 1, 10), (String::new(), 1));
    assert_eq!(paginate_text("a\r\nb\n", 1, 10), ("a\nb".to_string(), 1));
}

#[test]
fn scripts_are_told_apart_by_their_characters() {
    assert!(is_chinese_char('中'));
    assert!(is_chinese_char('\u{3400}'));
    assert!(is_chinese_char('\u{f900}'));
    assert!(!is_chinese_char('あ'));
    assert!(!is_chinese_char('a'));
    assert!(!is_chinese_char('\u{4dc0}'));
    assert!(is_english_char('a') && is_english_char('Z'));
    assert!(!is_english_char('1') && !is_english_char('é') && !is_english_char('_'));
    assert!(matches_char_filter("\"中文\"", "chinese"));
    assert!(!matches_char_filter("\"中文 and English\"", "chinese"));
    assert!(!matches_char_filter("\"123\"", "chinese"));
    assert!(matches_char_filter("\"words\"", "english"));
    assert!(!matches_char_filter("\"中文 and English\"", "english"));
    assert!(!matches_char_filter("42", "english"));
    assert!(matches_char_filter("anything 中", "all"));
    assert!(matches_char_filter("", "Chinese"));
}

#[test]
fn empty_values_are_known_by_their_preview() {
    assert!(is_empty_value("null", "Null"));
    assert!(is_empty_value("anything", "Null"));
    assert!(is_empty_value("\"\"", "String"));
    assert!(is_empty_value("\"   \"", "String"));
    assert!(is_empty_value("\"\"\"\"", "String"));
    assert!(!is_empty_value("\"a\"", "String"));
    assert!(!is_empty_value("\" \"x\" \"", "String"));
    assert!(is_empty_value(" [] ", "Array"));
    assert!(!is_empty_value("[..] (0 items)", "Array"));
    assert!(is_empty_value("{}", "Object"));
    assert!(!is_empty_value("{..} (0 keys)", "Object"));
    assert!(!is_empty_value("0", "Number"));
    assert!(!is_empty_value("", "Bool"));
    assert!(!is_empty_value("", "string"));
}

#[test]
fn structure_compares_kinds_keys_and_lengths() {
    let v = |t: &str| -> serde_json::Value { serde_json::from_str(t).unwrap() };
    let same = [
        ("1", "2.5"), ("\"a\"", "\"\""), ("true", "false"), ("null", "null"), ("[]", "[]"),
        ("{}", "{}"), (r#"{"a": 1, "b": [1, "x"]}"#, r#"{"b": [0, ""], "a": -7}"#),
        (r#"[{"k": null}, [true]]"#, r#"[{"k": null}, [false]]"#),
    ];
    for (a, b) in same {
        assert!(compare_json_structure(&v(a), &v(b)), "{} {}", a, b);
    }
    let different = [
        ("1", "\"1\""), ("null", "false"), ("[]", "{}"), ("[1]", "[1, 2]"), ("[1]", "[\"1\"]"),
        (r#"{"a": 1}"#, r#"{"b": 1}"#), (r#"{"a": 1}"#, r#"{"a": 1, "b": 2}"#),
        (r#"{"a": {"b": 1}}"#, r#"{"a": {"b": "1"}}"#), (r#"[[1], [2]]"#, r#"[[1], [null]]"#),
    ];
    for (a, b) in different {
        assert!(!compare_json_structure(&v(a), &v(b)), "{} {}", a, b);
        assert!(!compare_json_structure(&v(b), &v(a)), "{} {}", b, a);
    }
}

#[test]
fn format_validation_names_what_is_wrong() {
    assert_eq!(validate_json_format("not json", ""), Ok(()));
    assert_eq!(validate_json_format("not json", "  \n"), Ok(()));
    assert_eq!(validate_json_format(r#"{"0": "x"}"#, r#"{"0": "y"}"#), Ok(()));
    let e = validate_json_format("not json", "{}").unwrap_err();
    assert!(e.starts_with("上传文件不是有效的JSON: "));
    assert!(e.len() > "上传文件不是有效的JSON: ".len());
    let e = validate_json_format("{}", "not json").unwrap_err();
    assert!(e.starts_with("最终产物不是有效的JSON: "));
    assert_eq!(
        validate_json_format(r#"{"0": "x"}"#, r#"{"0": "y", "1": "z"}"#),
        Err("JSON结构不匹配，字段数量或类型不一致".to_string())
    );
    assert_eq!(
        validate_json_format(r#"{"0": 1}"#, r#"{"0": "y"}"#),
        Err("JSON结构不匹配，字段数量或类型不一致".to_string())
    );
}

#[test]
fn rows_are_made_for_the_entries_that_pass() {
    let doc: serde_json::Value =
        serde_json::from_str(r#"{"cn": "中文", "en": "text", "mixed": "中 a", "none": null, "blank": " "}"#)
            .unwrap();
    let mut nodes = build_shadow_tree(&doc);
    let paths = |rows: &Vec<shadow_json::display::TreeRow>| -> Vec<String> {
        rows.iter().map(|r| r.path.clone()).collect()
    };
    let all = display_rows(&nodes, "all", false, false);
    assert_eq!(paths(&all), vec!["$", "$.blank", "$.cn", "$.en", "$.mixed", "$.none"]);
    assert_eq!(all[2].depth, 1);
    assert_eq!(all[2].preview, "\"中文\"");
    let flat = display_rows(&nodes, "all", false, true);
    assert!(flat.iter().all(|r| r.depth == 0));
    assert_eq!(paths(&display_rows(&nodes, "chinese", false, false)), vec!["$.cn"]);
    assert_eq!(paths(&display_rows(&nodes, "english", false, false)), vec!["$", "$.en", "$.none"]);
    assert_eq!(
        paths(&display_rows(&nodes, "all", true, false)),
        vec!["$", "$.cn", "$.en", "$.mixed"]
    );
    nodes[3].visible = false;
    nodes[0].expanded = true;
    let rows = display_rows(&nodes, "english", true, true);
    assert_eq!(paths(&rows), vec!["$"]);
    assert!(rows[0].expanded);
    assert_eq!(rows[0].children, 5);
}

#[test]
fn log_lines_bear_the_time_of_day() {
    assert_eq!(log_line("", 0, "start"), "[00:00:00.000] start");
    assert_eq!(log_line("", 86_399_999, "end"), "[23:59:59.999] end");
    assert_eq!(log_line("", 86_400_000 + 3_723_004, "next day"), "[01:02:03.004] next day");
    assert_eq!(log_line("first", 45_296_789, "second"), "first\n[12:34:56.789] second");
    assert_eq!(log_line("a\nb", 1, ""), "a\nb\n[00:00:00.001] ");
}

#[test]
fn structure_is_compared_at_any_depth() {
    let nest = |leaf: &str| -> serde_json::Value {
        let mut doc: serde_json::Value = serde_json::from_str(leaf).unwrap();
        for _ in 0..100_000 {
            doc = serde_json::Value::Array(vec![doc]);
        }
        doc
    };
    let a = nest("1");
    let b = nest("2");
    let c = nest("\"x\"");
    assert!(compare_json_structure(&a, &b));
    assert!(!compare_json_structure(&a, &c));
    std::mem::forget((a, b, c));
}
