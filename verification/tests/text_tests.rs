use shadow_json::text::{
    chars_of, compare_chars, contains_chars, decimal_chars, extend_chars, extend_str, has_char,
    matches_at, parse_index, push_decimal, same_chars, space, str_contains, str_equal, string_of,
    trim_chars, Order,
};
use shadow_json::text_map::TextMap;

fn chars(s: &str) -> Vec<char> {
    s.chars().collect()
}

#[test]
fn strings_and_character_vectors_convert_both_ways() {
    for s in ["", "abc", "日本語 text 😀", "\n\t\\\"'"] {
        assert_eq!(chars_of(s), chars(s));
        assert_eq!(string_of(&chars(s)), s);
    }
    let mut out = chars("ab");
    extend_chars(&mut out, &chars("cd"));
    extend_str(&mut out, "é!");
    assert_eq!(string_of(&out), "abcdé!");
}

#[test]
fn substring_search_finds_contiguous_runs() {
    assert!(str_contains("hello world", "o w"));
    assert!(str_contains("hello", "hello"));
    assert!(str_contains("hello", ""));
    assert!(str_contains("", ""));
    assert!(!str_contains("", "a"));
    assert!(!str_contains("hello", "hello!"));
    assert!(!str_contains("hello", "hlo"));
    assert!(!str_contains("Name", "name"));
    assert!(str_contains("aab", "ab"));
    assert!(str_contains("日本語", "本語"));
    assert!(contains_chars(&chars("xyz"), &chars("z")));
    assert!(matches_at(&chars("xyz"), &chars("axyz"), 1));
    assert!(!matches_at(&chars("xyz"), &chars("axyz"), 0));
    assert!(has_char(&chars("a-b"), '-'));
    assert!(!has_char(&chars("ab"), '-'));
}

#[test]
fn equality_compares_every_character() {
    assert!(str_equal("", ""));
    assert!(str_equal("abc", "abc"));
    assert!(!str_equal("abc", "abd"));
    assert!(!str_equal("abc", "ab"));
    assert!(same_chars(&chars("日"), &chars("日")));
}

#[test]
fn decimal_notation_has_no_leading_zeros() {
    for n in [0u64, 1, 9, 10, 11, 99, 100, 101, 12345, u64::MAX] {
        assert_eq!(string_of(&decimal_chars(n)), n.to_string());
    }
    let mut out = chars("n=");
    push_decimal(&mut out, 407);
    assert_eq!(string_of(&out), "n=407");
}

#[test]
fn order_of_strings_goes_by_code_point() {
    let cases = [
        ("", "", Order::Same),
        ("", "a", Order::Before),
        ("a", "", Order::After),
        ("10", "2", Order::Before),
        ("2", "10", Order::After),
        ("abc", "abd", Order::Before),
        ("abc", "abcd", Order::Before),
        ("Z", "a", Order::Before),
        ("a", "é", Order::Before),
        ("日", "😀", Order::Before),
        ("\u{ffff}", "\u{10000}", Order::Before),
        ("same", "same", Order::Same),
    ];
    for (a, b, expected) in cases {
        assert_eq!(compare_chars(&chars(a), &chars(b)), expected, "{:?} {:?}", a, b);
        let std_order = a.cmp(b);
        let expected_std = match expected {
            Order::Before => std::cmp::Ordering::Less,
            Order::Same => std::cmp::Ordering::Equal,
            Order::After => std::cmp::Ordering::Greater,
        };
        assert_eq!(std_order, expected_std);
    }
}

#[test]
fn trimming_removes_unicode_white_space_at_both_ends() {
    for s in [
        "", " ", "a", " a ", "\t\n a b \r\n", "\u{a0}x\u{3000}", "\u{2003}\u{2028}y\u{205f}",
        "\u{200b}z", "x\u{85}", "  inner  space  ", "\u{1680}q\u{202f}", "\u{b}\u{c}v",
    ] {
        assert_eq!(string_of(&trim_chars(&chars(s))), s.trim(), "{:?}", s);
    }
    for c in ['\u{0}', ' ', '\t', '\u{1f}', '\u{85}', '\u{a0}', '\u{200a}', '\u{200b}', '\u{feff}', 'a'] {
        assert_eq!(space(c), c.is_whitespace(), "{:?}", c);
    }
}

#[test]
fn index_parsing_accepts_digits_with_an_optional_plus() {
    for s in ["0", "7", "007", "+7", "123456", "+0", "18446744073709551615"] {
        assert_eq!(parse_index(&chars(s)), s.parse::<usize>().ok(), "{:?}", s);
        assert!(parse_index(&chars(s)).is_some());
    }
    for s in [
        "", "+", "-", "-1", "-0", "1 ", " 1", "1.0", "1e3", "++1", "1+", "x", "١",
        "18446744073709551616", "99999999999999999999999999999",
    ] {
        assert_eq!(parse_index(&chars(s)), None, "{:?}", s);
        assert!(s.parse::<usize>().is_err());
    }
}

#[test]
fn text_map_keeps_entries_sorted_and_replaces_values() {
    let mut map: TextMap<u32> = TextMap::new();
    assert_eq!(map.len(), 0);
    assert_eq!(map.get(&chars("a")), None);
    for (k, v) in [("m", 1), ("a", 2), ("z", 3), ("10", 4), ("2", 5), ("a", 6), ("", 7)] {
        map.insert(chars(k), v);
    }
    assert_eq!(map.len(), 6);
    assert_eq!(map.get(&chars("a")), Some(&6));
    assert_eq!(map.get(&chars("")), Some(&7));
    assert_eq!(map.get(&chars("b")), None);
    assert_eq!(map.locate(&chars("b")), (4, false));
    assert_eq!(map.locate(&chars("m")), (4, true));
    assert_eq!(map.locate(&chars("zz")), (6, false));
    let listing = map.into_entries();
    let expected: Vec<(String, u32)> = [("", 7), ("10", 4), ("2", 5), ("a", 6), ("m", 1), ("z", 3)]
        .iter()
        .map(|(k, v)| (k.to_string(), *v))
        .collect();
    assert_eq!(listing, expected);
}
