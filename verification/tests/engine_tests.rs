use regex_engine::Error;
use regex_engine::Pattern;

#[test]
fn empty_input_start_end_anchors() {
    let pattern = Pattern::new("^$").expect("Pattern is correct");
    assert!(pattern.test(""));
}

#[test]
fn empty_input_anchored_literal() {
    let pattern = Pattern::new("^a").expect("Pattern is correct");
    assert!(!pattern.test(""));
}

#[test]
fn empty_input_optional_literal() {
    let pattern = Pattern::new("a?").expect("Pattern is correct");
    assert!(pattern.test(""));
}

#[test]
fn empty_input_plain_literal() {
    let pattern = Pattern::new("a").expect("Pattern is correct");
    assert!(!pattern.test(""));
}

#[test]
fn plus_needs_one_occurrence() {
    let pattern = Pattern::new("x+").expect("Pattern is correct");
    assert!(!pattern.test("yyy"));
    assert!(!pattern.test(""));
    assert!(pattern.test("yxz"));
}

#[test]
fn backreference_to_empty_capture() {
    let pattern = Pattern::new(r"(b*)a\1c").expect("Pattern is correct");
    assert!(pattern.test("ac"));
}

#[test]
fn alternation_picks_first_then_backtracks() {
    let pattern = Pattern::new("(a|ab)c").expect("Pattern is correct");
    assert!(pattern.test("abc"));
    assert!(pattern.test("ac"));
    assert!(!pattern.test("ab"));
}

#[test]
fn group_gives_back_for_suffix() {
    let pattern = Pattern::new("(ab*)b").expect("Pattern is correct");
    assert!(pattern.test("abb"));
    assert!(pattern.test("ab"));
    assert!(!pattern.test("a"));
}

#[test]
fn run_reports_span_from_match_start() {
    let pattern = Pattern::new("b+").expect("Pattern is correct");
    let (matched, all, groups) = pattern.run("abbbc");
    assert!(matched);
    assert_eq!(all, "bbb");
    assert_eq!(groups.len(), 0);
}

#[test]
fn run_counts_toplevel_groups() {
    let pattern = Pattern::new(r"([abc]+)(\d+)").expect("Pattern is correct");
    let (matched, _all, groups) = pattern.run("xxabc123yy");
    assert!(matched);
    assert_eq!(groups.len(), 2);
    assert_eq!(groups[0], "abc");
    assert_eq!(groups[1], "123");
}

#[test]
fn run_on_no_match_is_empty() {
    let pattern = Pattern::new(r"q").expect("Pattern is correct");
    let (matched, all, groups) = pattern.run("abc");
    assert!(!matched);
    assert_eq!(all, "");
    assert_eq!(groups.len(), 0);
}

#[test]
fn unterminated_group_is_an_error() {
    assert_eq!(Pattern::new("(ab").unwrap_err(), Error::UnterminatedGroup);
}

#[test]
fn trailing_escape_is_an_error() {
    assert_eq!(Pattern::new("abc\\").unwrap_err(), Error::EOF);
}

#[test]
fn unterminated_bracket_is_an_error() {
    assert_eq!(Pattern::new("[abc").unwrap_err(), Error::EOF);
}

#[test]
fn unknown_class_is_an_error() {
    assert_eq!(Pattern::new(r"\q").unwrap_err(), Error::UnknownCharacterType('q'));
}

#[test]
fn escaped_punctuation_is_literal() {
    let pattern = Pattern::new(r"a\.b").expect("Pattern is correct");
    assert!(pattern.test("a.b"));
    assert!(!pattern.test("axb"));
}

#[test]
fn dot_matches_any_character() {
    let pattern = Pattern::new("a.c").expect("Pattern is correct");
    assert!(pattern.test("abc"));
    assert!(pattern.test("a:c"));
    assert!(!pattern.test("ac"));
}

#[test]
fn bracket_keeps_dot_literal() {
    let pattern = Pattern::new("[.]").expect("Pattern is correct");
    assert!(pattern.test("."));
    assert!(!pattern.test("a"));
}

#[test]
fn toplevel_alternation_via_implicit_group() {
    let pattern = Pattern::new("ab|cd").expect("Pattern is correct");
    assert!(pattern.test("ab"));
    assert!(pattern.test("xcdy"));
    assert!(!pattern.test("ad"));
}

#[test]
fn quantified_group_with_alternatives() {
    let pattern = Pattern::new("(ab|b)+c").expect("Pattern is correct");
    assert!(pattern.test("ababc"));
    assert!(pattern.test("bc"));
    assert!(!pattern.test("ad"));
}

#[test]
fn backreference_requires_equal_text() {
    let pattern = Pattern::new(r"(\w+) and \1").expect("Pattern is correct");
    assert!(!pattern.test("cat and dog"));
}

#[test]
fn alternative_capture_is_reported() {
    let pattern = Pattern::new(r"(abc|xyz)\d").expect("Pattern is correct");
    let (matched, all, groups) = pattern.run("xyz2");
    assert!(matched);
    assert_eq!(all, "xyz2");
    assert_eq!(groups.len(), 1);
    assert_eq!(groups[0], "xyz");
}

#[test]
fn test_agrees_with_run() {
    for (pat, line) in [
        ("a", "banana"),
        ("^b", "banana"),
        ("(na)+$", "banana"),
        ("x?", ""),
        ("[^b]+", "bbb"),
    ] {
        let pattern = Pattern::new(pat).expect("Pattern is correct");
        assert_eq!(pattern.test(line), pattern.run(line).0);
    }
}
