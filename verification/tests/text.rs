//! Texts.
use bgumcl::text::{
    among, begins, concat3, copied, decimal_text, ends, find, has, join, parse_i64, parse_unsigned,
    precedes, replace, rsplit_once, same, same_ignoring_case, signed_decimal_text, split,
    split_once, strip_prefix, strip_suffix, to_lower, trim, trim_end, trim_slashes, trim_start,
    without_repetitions,
};

fn texts(list: &[&str]) -> Vec<String> {
    list.iter().map(|s| s.to_string()).collect()
}

#[test]
fn patterns_are_found() {
    assert_eq!(find("abcabc", "ca"), Some(2));
    assert_eq!(find("abc", ""), Some(0));
    assert_eq!(find("abc", "x"), None);
    assert!(has("größe", "öß") && !has("a", "ab"));
    assert!(begins("abc", "ab") && !begins("abc", "b"));
    assert!(ends("abc", "bc") && !ends("abc", "b"));
}

#[test]
fn texts_are_parted() {
    assert_eq!(strip_prefix("abc", "a"), Some("bc".to_string()));
    assert_eq!(strip_suffix("abc", "c"), Some("ab".to_string()));
    assert_eq!(strip_suffix("abc", "x"), None);
    assert_eq!(split_once("a-b-c", "-"), Some(("a".to_string(), "b-c".to_string())));
    assert_eq!(rsplit_once("a-b-c", "-"), Some(("a-b".to_string(), "c".to_string())));
    assert_eq!(split("a//b", '/'), vec!["a", "", "b"]);
    assert_eq!(split("", '/'), vec![""]);
    assert_eq!(join(&texts(&["a", "", "b"]), '/'), "a//b");
}

#[test]
fn texts_are_trimmed() {
    assert_eq!(trim_end("a//", '/'), "a");
    assert_eq!(trim_start("vv1", 'v'), "1");
    assert_eq!(trim("\t a b\u{a0}\n"), "a b");
    assert_eq!(trim_slashes("/\\a/b\\/"), "a/b");
}

#[test]
fn texts_are_replaced_and_joined() {
    assert_eq!(replace("aaa", "aa", "b"), "ba");
    assert_eq!(replace("abc", "x", "y"), "abc");
    assert_eq!(concat3("a", "b", "c"), "abc");
    assert_eq!(to_lower("AbÄ"), "abÄ");
    assert!(same("a", "a") && !same("a", "A"));
    assert!(same_ignoring_case("ZIP", "zip") && !same_ignoring_case("zi", "zip"));
}

#[test]
fn numbers_are_written_and_read() {
    assert_eq!(decimal_text(0), "0");
    assert_eq!(decimal_text(u64::MAX), "18446744073709551615");
    assert_eq!(signed_decimal_text(i64::MIN), "-9223372036854775808");
    assert_eq!(parse_unsigned("+7", 10), Some(7));
    assert_eq!(parse_unsigned("11", 10), None);
    assert_eq!(parse_unsigned("", 10), None);
    assert_eq!(parse_i64("-9223372036854775808"), Some(i64::MIN));
    assert_eq!(parse_i64("9223372036854775808"), None);
    assert_eq!(parse_i64("-"), None);
}

#[test]
fn texts_are_ordered() {
    assert!(precedes("a", "b") && precedes("a", "aa") && !precedes("b", "a"));
    assert!(!precedes("a", "a"));
}

#[test]
fn repetitions_are_left_out_without_reordering() {
    assert_eq!(without_repetitions(&texts(&["b", "a", "b", "c", "a"])), vec!["b", "a", "c"]);
    assert!(among(&texts(&["x"]), "x") && !among(&texts(&["x"]), "y"));
    assert_eq!(copied(&texts(&["x", "y"])), vec!["x", "y"]);
}
