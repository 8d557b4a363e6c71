use regex_engine::backtrack::BacktrackInfo;
use regex_engine::cursor::BufferedIterator;
use regex_engine::Error;
use regex_engine::Matcher;
use regex_engine::SingleCharacterMatcher;

#[test]
fn character_class_parses_and_tests() {
    let chars: Vec<char> = r"\d".chars().collect();
    let mut i = 0usize;
    let cls = SingleCharacterMatcher::new(&chars, &mut i).expect("class is correct");
    assert_eq!(i, 2);
    assert!(cls.test('7'));
    assert!(!cls.test('x'));
}

#[test]
fn bracket_class_parses_and_tests() {
    let chars: Vec<char> = r"[a\d]x".chars().collect();
    let mut i = 0usize;
    let cls = SingleCharacterMatcher::new(&chars, &mut i).expect("class is correct");
    assert_eq!(i, 5);
    assert!(cls.test('a'));
    assert!(cls.test('3'));
    assert!(!cls.test('b'));
}

#[test]
fn negative_bracket_class_after_open() {
    let chars: Vec<char> = "^ab]".chars().collect();
    let mut i = 0usize;
    let cls = SingleCharacterMatcher::new_group(&chars, &mut i).expect("class is correct");
    assert_eq!(i, 4);
    assert!(!cls.test('a'));
    assert!(cls.test('c'));
}

#[test]
fn literal_class_matches_itself() {
    let cls = SingleCharacterMatcher::new_literal('k');
    assert!(cls.test('k'));
    assert!(!cls.test('K'));
}

#[test]
fn class_escape_names() {
    assert!(SingleCharacterMatcher::new_class('w').expect("known class").test('_'));
    assert!(SingleCharacterMatcher::new_class('.').expect("literal escape").test('.'));
    assert_eq!(SingleCharacterMatcher::new_class('z').unwrap_err(), Error::UnknownCharacterType('z'));
}

#[test]
fn cursor_walks_the_input() {
    let chars: Vec<char> = "ab".chars().collect();
    let mut cur = BufferedIterator::new(0);
    assert_eq!(cur.peek(&chars), Some((0, 'a')));
    assert_eq!(cur.next(&chars), Some((0, 'a')));
    cur.subdivide();
    assert_eq!(cur.next(&chars), Some((1, 'b')));
    assert_eq!(cur.next(&chars), None);
    assert_eq!(cur.pop_divided(), Some((1, 2)));
    assert_eq!(cur.pop_divided(), None);
    assert_eq!(cur.take(), (0, 2));
}

#[test]
fn matcher_consumes_greedily() {
    let pat: Vec<char> = "a+".chars().collect();
    let mut i = 0usize;
    let m = Matcher::new(&pat, &mut i).expect("matcher is correct");
    assert_eq!(i, 2);
    let line: Vec<char> = "aaab".chars().collect();
    let mut cur = BufferedIterator::new(0);
    let mut fuel = 1_000u64;
    let caps: Vec<(usize, usize)> = Vec::new();
    let (ok, newcaps, handle) = m.test(&line, &mut cur, &caps, None, &mut fuel).expect("budget");
    assert!(ok);
    assert_eq!(newcaps.len(), 0);
    assert!(matches!(handle, Some(BacktrackInfo::Range(3))));
    assert_eq!(cur.take(), (0, 3));
}

#[test]
fn matcher_resumes_with_fewer_repetitions() {
    let pat: Vec<char> = "a+".chars().collect();
    let mut i = 0usize;
    let m = Matcher::new(&pat, &mut i).expect("matcher is correct");
    let line: Vec<char> = "aaab".chars().collect();
    let mut cur = BufferedIterator::new(0);
    let mut fuel = 1_000u64;
    let caps: Vec<(usize, usize)> = Vec::new();
    let (ok, _newcaps, handle) = m
        .test(&line, &mut cur, &caps, Some(BacktrackInfo::Range(3)), &mut fuel)
        .expect("budget");
    assert!(ok);
    assert!(matches!(handle, Some(BacktrackInfo::Range(2))));
    assert_eq!(cur.take(), (0, 2));
}
