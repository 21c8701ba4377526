use journal_core::text::i32_to_string;
use journal_core::text::match_at;
use journal_core::text::replace_all_str;
use journal_core::text::str_eq;

#[test]
fn replace_all_single_occurrence() {
    let out = replace_all_str("a cat sat", "cat", "dog");
    assert_eq!(out, "a dog sat");
}

#[test]
fn replace_all_every_occurrence() {
    let out = replace_all_str("xx yy xx", "xx", "z");
    assert_eq!(out, "z yy z");
}

#[test]
fn replace_all_absent_pattern_is_identity() {
    let out = replace_all_str("left as it was", "missing", "r");
    assert_eq!(out, "left as it was");
}

#[test]
fn replace_all_empty_pattern_is_identity() {
    let out = replace_all_str("unchanged", "", "r");
    assert_eq!(out, "unchanged");
}

#[test]
fn replace_all_overlapping_greedy_from_left() {
    let out = replace_all_str("aaa", "aa", "b");
    assert_eq!(out, "ba");
}

#[test]
fn replace_all_on_empty_text() {
    let out = replace_all_str("", "pat", "rep");
    assert_eq!(out, "");
}

#[test]
fn replace_all_with_multibyte_text() {
    let out = replace_all_str("內容 https://e.x 內容", "https://e.x", "/a");
    assert_eq!(out, "內容 /a 內容");
}

#[test]
fn str_eq_on_equal_and_unequal() {
    assert!(str_eq("same", "same"));
    assert!(!str_eq("same", "samé"));
    assert!(!str_eq("short", "shorter"));
    assert!(str_eq("", ""));
}

#[test]
fn match_at_positions() {
    assert!(match_at("abcdef", "cde", 2));
    assert!(!match_at("abcdef", "cde", 1));
    assert!(!match_at("abcdef", "cdefg", 2));
    assert!(match_at("abcdef", "", 6));
}

#[test]
fn i32_to_string_values() {
    assert_eq!(i32_to_string(0), "0");
    assert_eq!(i32_to_string(42), "42");
    assert_eq!(i32_to_string(-7), "-7");
    assert_eq!(i32_to_string(1000), "1000");
    assert_eq!(i32_to_string(i32::MAX), "2147483647");
    assert_eq!(i32_to_string(i32::MIN), "-2147483648");
}
