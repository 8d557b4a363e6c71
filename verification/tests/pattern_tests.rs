use regex_engine::Pattern;

#[test]
fn single_character_match() {
    let pattern = Pattern::new("x").expect("Pattern is correct");
    assert!(!pattern.test(""));
    assert!(!pattern.test("X"));
    assert!(!pattern.test("abc"));
    assert!(pattern.test("x"));
    assert!(pattern.test("xylophone"));
    assert!(pattern.test("lax"));
    assert!(pattern.test("taxi"));
}

#[test]
fn literal_match() {
    let pattern = Pattern::new("abc").expect("Pattern is correct");
    assert!(pattern.test("abc"));
    assert!(pattern.test("abcde"));
    assert!(pattern.test("012abcde"));
    assert!(!pattern.test("lax"));
    assert!(!pattern.test("abxc"));
}

#[test]
fn digit_match() {
    let pattern = Pattern::new(r"\d").expect("Pattern is correct");
    assert!(pattern.test("1"));
    assert!(pattern.test("a2"));
    assert!(pattern.test("012abcde"));
    assert!(!pattern.test("lax"));
    assert!(!pattern.test("abxc"));
}

#[test]
fn alphanumeric_match() {
    let pattern = Pattern::new(r"\w").expect("Pattern is correct");
    assert!(pattern.test("1"));
    assert!(pattern.test("a"));
    assert!(pattern.test("Z"));
    assert!(pattern.test("_"));
    assert!(!pattern.test("-"));
    assert!(!pattern.test(":"));
}

#[test]
fn group_match() {
    let pattern = Pattern::new(r"[a\d]").expect("Pattern is correct");
    assert!(pattern.test("1"));
    assert!(pattern.test("a"));
    assert!(pattern.test("9"));
    assert!(pattern.test("za"));
    assert!(!pattern.test("b"));
    assert!(!pattern.test(":"));
}

#[test]
fn negative_group_match() {
    let pattern = Pattern::new(r"[^a\d]").expect("Pattern is correct");
    assert!(!pattern.test("1"));
    assert!(!pattern.test("a"));
    assert!(!pattern.test("9"));
    assert!(pattern.test("za"));
    assert!(pattern.test("b"));
    assert!(pattern.test(":"));
}

#[test]
fn start_of_string_match() {
    let pattern = Pattern::new(r"^a").expect("Pattern is correct");
    assert!(pattern.test("a"));
    assert!(pattern.test("ab"));
    assert!(!pattern.test("ba"));
}

#[test]
fn end_of_string_match() {
    let pattern = Pattern::new(r"a$").expect("Pattern is correct");
    assert!(pattern.test("a"));
    assert!(!pattern.test("ab"));
    assert!(pattern.test("ba"));
}

#[test]
fn one_or_more_match() {
    let pattern = Pattern::new(r"ab+c").expect("Pattern is correct");
    assert!(pattern.test("abc"));
    assert!(pattern.test("abbc"));
    assert!(pattern.test("abbbc"));
    assert!(!pattern.test("ac"));
}

#[test]
fn zero_or_more_match() {
    let pattern = Pattern::new(r"ab*c").expect("Pattern is correct");
    assert!(pattern.test("abc"));
    assert!(pattern.test("abbc"));
    assert!(pattern.test("abbbc"));
    assert!(pattern.test("ac"));
}

#[test]
fn zero_or_one_match() {
    let pattern = Pattern::new(r"ab?c").expect("Pattern is correct");
    assert!(pattern.test("abc"));
    assert!(!pattern.test("abbc"));
    assert!(!pattern.test("abbbc"));
    assert!(pattern.test("ac"));
}

#[test]
fn alternative() {
    let pattern = Pattern::new(r"(abc|xyz)\d").expect("Pattern is correct");
    assert!(pattern.test("abc1"));
    assert!(pattern.test("xyz2"));
    assert!(!pattern.test("xyz"));
}

#[test]
fn match_test() {
    let pattern = Pattern::new(r"([abc]+)(\d+)").expect("Pattern is correct");
    let (matched, all, groups) = pattern.run("abc123");
    assert!(matched);
    assert_eq!(all, "abc123");
    assert_eq!(groups[0], "abc");
    assert_eq!(groups[1], "123");
}

#[test]
fn nested_match_test() {
    let pattern = Pattern::new(r"'((\w+) and cat)'").expect("Pattern is correct");
    let (matched, all, groups) = pattern.run("'dog and cat'");
    assert!(matched);
    assert_eq!(all, "'dog and cat'");
    assert_eq!(groups[0], "dog and cat");
    assert_eq!(groups[1], "dog");
}

#[test]
fn backreference_test() {
    let pattern = Pattern::new(r"(\w+) and \1").expect("Pattern is correct");
    assert!(pattern.test("cat and cat"));
    assert!(!pattern.test("cat and dog2"));
}

#[test]
fn nested_backreference_test() {
    let pattern = Pattern::new(r"('(\w+) and \2') is the same as \1").expect("Pattern is correct");
    assert!(pattern.test("'cat and cat' is the same as 'cat and cat'"));
}

#[test]
fn double_nested_backreference_test() {
    let pattern = Pattern::new(r"('((\w+) and) \3') is the same as \1").expect("Pattern is correct");
    assert!(pattern.test("'cat and cat' is the same as 'cat and cat'"));
}

#[test]
fn backtracking() {
    let pattern = Pattern::new(r"\w+a").expect("Pattern is correct");
    assert!(pattern.test("mocha"));
}

#[test]
fn backtracking_in_group() {
    let pattern = Pattern::new(r"([^xyz]+)a").expect("Pattern is correct");
    assert!(pattern.test("mocha"));
}

#[test]
fn zero_or_one_backtrack() {
    let pattern = Pattern::new(r"t?t").expect("Pattern is correct");
    assert!(pattern.test("tt"));
    assert!(pattern.test("t"));
}

#[test]
fn backreference_after_backtrack() {
    let pattern = Pattern::new(r"(t)t?\1").expect("Pattern is correct");
    assert!(pattern.test("ttt"));
    assert!(pattern.test("tt"));
}

#[test]
fn last_stage_test() {
    let pattern = Pattern::new(r"(([abc]+)-([def]+)) is \1, not ([^xyz]+), \2, or \3")
        .expect("Pattern is correct");
    assert!(pattern.test("abc-def is abc-def, not efg, abc, or def"));
}

#[test]
fn full_test() {
    let pattern = Pattern::new(r"a\d[\w:][^x]").expect("Pattern is correct");
    assert!(pattern.test("a9cv"));
    assert!(pattern.test("da4cg"));
    assert!(!pattern.test("da4cx"));
    assert!(!pattern.test("ab9cv"));
    assert!(!pattern.test("ab9Xv"));
    assert!(!pattern.test("ab9_v"));
    assert!(!pattern.test("ab9:v"));
}
