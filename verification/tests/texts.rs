use swarm_monitor::order::{permute, sort_order, SortKey};
use swarm_monitor::text::{
    clip_text, decimal_text, ends_with, eq_ignore_case, file_name, le, parse_number, replace_char,
    same_text, skip_text, split_lines, starts_with, strip_prefix, trim_front_text,
    trim_prefix_text, trim_text, CharClass,
};

#[test]
fn clipping_counts_characters() {
    assert_eq!(clip_text("héllo", 2), "hé");
    assert_eq!(clip_text("hé", 5), "hé");
    assert_eq!(clip_text("hé", 0), "");
    assert_eq!(skip_text("héllo", 2), "llo");
}

#[test]
fn trimming() {
    assert_eq!(trim_text(" \u{2003}a b\u{85}\n", CharClass::Space), "a b");
    assert_eq!(trim_text("xx12y3z", CharClass::NonDigit), "12y3");
    assert_eq!(trim_text("''", CharClass::Only('\'')), "");
    assert_eq!(trim_front_text("//a/", CharClass::Only('/')), "a/");
    assert_eq!(trim_prefix_text("ababc", "ab"), "c");
}

#[test]
fn prefixes_and_suffixes() {
    assert!(starts_with("abc", "ab"));
    assert!(starts_with("abc", ""));
    assert!(!starts_with("a", "ab"));
    assert!(ends_with("abc", "bc"));
    assert!(!ends_with("c", "bc"));
    assert_eq!(strip_prefix("abc", "ab").as_deref(), Some("c"));
    assert_eq!(strip_prefix("abc", "b"), None);
}

#[test]
fn lines_end_in_line_feeds() {
    assert_eq!(split_lines("a\r\nb\n\nc"), ["a", "b", "", "c"]);
    assert_eq!(split_lines("a\n"), ["a"]);
    assert_eq!(split_lines("a\r"), ["a\r"]);
    assert_eq!(split_lines("\n"), [""]);
    assert!(split_lines("").is_empty());
    let mut pieces = split_lines("a\r\n\n");
    pieces.extend(split_lines("b\rc"));
    assert_eq!(pieces, split_lines("a\r\n\nb\rc"));
}

#[test]
fn comparing() {
    assert!(same_text("é", "é"));
    assert!(!same_text("a", "A"));
    assert!(eq_ignore_case("aBc", "AbC"));
    assert!(!eq_ignore_case("é", "É"));
    assert!(!eq_ignore_case("a", "ab"));
    assert!(le("", "a"));
    assert!(le("Z", "a"));
    assert!(le("a", "ab"));
    assert!(!le("b", "ab"));
    assert_eq!(replace_char("a/b/", '/', '-'), "a-b-");
}

#[test]
fn numbers() {
    assert_eq!(decimal_text(0), "0");
    assert_eq!(decimal_text(18_446_744_073_709_551_615), "18446744073709551615");
    assert_eq!(parse_number("007"), Some(7));
    assert_eq!(parse_number("9223372036854775807"), Some(9_223_372_036_854_775_807));
    assert_eq!(parse_number("9223372036854775808"), None);
    assert_eq!(parse_number(""), None);
    assert_eq!(parse_number("1 2"), None);
}

#[test]
fn last_components_of_paths() {
    assert_eq!(file_name("/a/b").as_deref(), Some("b"));
    assert_eq!(file_name("b//").as_deref(), Some("b"));
    assert_eq!(file_name("b/./.").as_deref(), Some("b"));
    assert_eq!(file_name(".b").as_deref(), Some(".b"));
    assert_eq!(file_name("a.").as_deref(), Some("a."));
    assert_eq!(file_name("/"), None);
    assert_eq!(file_name(""), None);
    assert_eq!(file_name("."), None);
    assert_eq!(file_name("/."), None);
    assert_eq!(file_name("a/.."), None);
}

fn key(first: bool, text: &str) -> SortKey {
    SortKey { first, text: text.to_string() }
}

#[test]
fn sorting_keeps_equal_keys_in_order() {
    let keys = vec![key(false, "b"), key(false, "a"), key(true, "z"), key(false, "a")];
    let order = sort_order(&keys);
    assert_eq!(order, [2, 1, 3, 0]);
    assert_eq!(permute(vec!['p', 'q', 'r', 's'], &order), ['r', 'q', 's', 'p']);
    assert!(sort_order(&vec![]).is_empty());
}
