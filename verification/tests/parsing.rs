use feed_notify::rules::{apply_rule, apply_rules, parse};

fn owned(pairs: &[(&str, &str)]) -> Vec<(String, String)> {
    pairs.iter().map(|(s, r)| (s.to_string(), r.to_string())).collect()
}

#[test]
fn parse_empty_yields_one_empty_rule() {
    assert_eq!(parse(""), owned(&[("", "")]));
}

#[test]
fn parse_single_rule() {
    assert_eq!(parse("foo/bar:"), owned(&[("foo", "bar"), ("", "")]));
}

#[test]
fn parse_escaped_colon_is_literal() {
    assert_eq!(parse("a\\:b/c:"), owned(&[("a:b", "c"), ("", "")]));
}

#[test]
fn parse_two_rules() {
    assert_eq!(parse("x/y:p/q:"), owned(&[("x", "y"), ("p", "q"), ("", "")]));
}

#[test]
fn parse_escaped_slash_and_backslash() {
    assert_eq!(parse("a\\/b/c\\\\d:"), owned(&[("a/b", "c\\d"), ("", "")]));
}

#[test]
fn parse_without_slash_fills_replacement_side() {
    assert_eq!(parse("abc"), owned(&[("", "abc")]));
}

#[test]
fn parse_trailing_backslash_is_dropped() {
    assert_eq!(parse("a/b\\"), owned(&[("a", "b")]));
}

#[test]
fn apply_rule_replaces_every_occurrence() {
    assert_eq!(apply_rule("one cat, two cats", "cat", "dog"), "one dog, two dogs");
}

#[test]
fn apply_rule_empty_search_is_a_no_op() {
    assert_eq!(apply_rule("anything at all", "", "junk"), "anything at all");
    assert_eq!(apply_rule("", "", "junk"), "");
}

#[test]
fn apply_rule_scans_left_to_right_without_overlap() {
    assert_eq!(apply_rule("aaa", "aa", "b"), "ba");
}

#[test]
fn apply_rules_applies_in_order_to_transformed_text() {
    let rules = parse("a/b:b/c:");
    assert_eq!(apply_rules("a", &rules), "c");
}

#[test]
fn apply_rules_later_rule_sees_earlier_substitution() {
    let rules = owned(&[("world", "there"), ("there", "here")]);
    assert_eq!(apply_rules("hello world", &rules), "hello here");
}

#[test]
fn apply_rules_with_no_rules_keeps_text() {
    let rules: Vec<(String, String)> = Vec::new();
    assert_eq!(apply_rules("unchanged", &rules), "unchanged");
}
