//! The grammar of patterns, as a functional description: a ghost mirror of
//! the pattern tree, and spec-level parsing functions that say exactly which
//! tree (or which error) a pattern string denotes.

use vstd::prelude::*;

use crate::ast::Error;
use crate::ast::Matcher;
use crate::ast::SingleCharacterMatcher;
use crate::class::is_digit_char;

verus! {

/// Ghost mirror of a character class.
pub ghost enum GClass {
    Literal(char),
    Any,
    Digit,
    Alphanumeric,
    Group(Seq<GClass>),
    NegativeGroup(Seq<GClass>),
}

/// Ghost mirror of a matcher node.
pub ghost enum GMatcher {
    Repeat { matcher: Box<GMatcher>, min: Option<usize>, max: Option<usize> },
    CaptureGroup(Seq<GMatcher>),
    SingleCharacter(GClass),
    Backreference(usize),
    StartOfString,
    EndOfString,
    Alternative,
}

/// The ghost mirror of a character class value.
pub open spec fn class_view(c: SingleCharacterMatcher) -> GClass
    decreases c,
{
    match c {
        SingleCharacterMatcher::Literal(l) => GClass::Literal(l),
        SingleCharacterMatcher::Any => GClass::Any,
        SingleCharacterMatcher::Digit => GClass::Digit,
        SingleCharacterMatcher::Alphanumeric => GClass::Alphanumeric,
        SingleCharacterMatcher::Group(options) => GClass::Group(classes_view(options@)),
        SingleCharacterMatcher::NegativeGroup(options) => GClass::NegativeGroup(
            classes_view(options@),
        ),
    }
}

/// The ghost mirror of a list of character classes.
pub open spec fn classes_view(cs: Seq<SingleCharacterMatcher>) -> Seq<GClass>
    decreases cs,
{
    if cs.len() == 0 {
        Seq::empty()
    } else {
        classes_view(cs.drop_last()).push(class_view(cs.last()))
    }
}

/// The ghost mirror of a matcher value.
pub open spec fn matcher_view(m: Matcher) -> GMatcher
    decreases m,
{
    match m {
        Matcher::Repeat { matcher, min, max } => GMatcher::Repeat {
            matcher: Box::new(matcher_view(*matcher)),
            min,
            max,
        },
        Matcher::CaptureGroup(inner) => GMatcher::CaptureGroup(matchers_view(inner@)),
        Matcher::SingleCharacter(c) => GMatcher::SingleCharacter(class_view(c)),
        Matcher::Backreference(k) => GMatcher::Backreference(k),
        Matcher::StartOfString => GMatcher::StartOfString,
        Matcher::EndOfString => GMatcher::EndOfString,
        Matcher::Alternative => GMatcher::Alternative,
    }
}

/// The ghost mirror of a list of matchers.
pub open spec fn matchers_view(ms: Seq<Matcher>) -> Seq<GMatcher>
    decreases ms,
{
    if ms.len() == 0 {
        Seq::empty()
    } else {
        matchers_view(ms.drop_last()).push(matcher_view(ms.last()))
    }
}

/// An ASCII letter or digit. Escaped characters outside this set are
/// literals; inside it they must name a known class.
pub open spec fn is_alnum_char(ch: char) -> bool {
    ||| is_digit_char(ch)
    ||| 65 <= ch as u32 <= 90
    ||| 97 <= ch as u32 <= 122
}

/// What a `\`-escape denotes: a class shorthand, a literal, or an error.
pub open spec fn p_class_escape(ch: char) -> Result<GClass, Error> {
    if !is_alnum_char(ch) {
        Ok(GClass::Literal(ch))
    } else if ch == 'd' {
        Ok(GClass::Digit)
    } else if ch == 'w' {
        Ok(GClass::Alphanumeric)
    } else {
        Err(Error::UnknownCharacterType(ch))
    }
}

/// One member of a bracket class, read from position `i`: an escape or a
/// literal. Inside brackets only `\`-escapes are special.
pub open spec fn p_set_item(s: Seq<char>, i: int) -> Result<(GClass, int), Error> {
    if i < 0 || i >= s.len() {
        Err(Error::EOF)
    } else if s[i] == '\\' {
        if i + 1 >= s.len() {
            Err(Error::EOF)
        } else {
            match p_class_escape(s[i + 1]) {
                Err(e) => Err(e),
                Ok(c) => Ok((c, i + 2)),
            }
        }
    } else {
        Ok((GClass::Literal(s[i]), i + 1))
    }
}

/// The members of a bracket class, read from position `i` up to the closing
/// `]`.
pub open spec fn p_set_items(s: Seq<char>, i: int) -> Result<(Seq<GClass>, int), Error>
    decreases s.len() - i,
{
    if i < 0 || i >= s.len() {
        Err(Error::EOF)
    } else if s[i] == ']' {
        Ok((Seq::empty(), i + 1))
    } else {
        match p_set_item(s, i) {
            Err(e) => Err(e),
            Ok((c, j)) => {
                let j1 = if i < j <= s.len() { j } else { i + 1 };
                match p_set_items(s, j1) {
                    Err(e) => Err(e),
                    Ok((rest, k)) => Ok((seq![c] + rest, k)),
                }
            },
        }
    }
}

/// A bracket class read from position `i`, just after the opening `[`:
/// a leading `^` negates the class.
pub open spec fn p_bracket(s: Seq<char>, i: int) -> Result<(GClass, int), Error> {
    if i < s.len() && s[i] == '^' {
        match p_set_items(s, i + 1) {
            Err(e) => Err(e),
            Ok((items, j)) => Ok((GClass::NegativeGroup(items), j)),
        }
    } else {
        match p_set_items(s, i) {
            Err(e) => Err(e),
            Ok((items, j)) => Ok((GClass::Group(items), j)),
        }
    }
}

/// A single character class read from position `i`: an escape, a bracket
/// class, `.`, or a literal.
pub open spec fn p_charclass(s: Seq<char>, i: int) -> Result<(GClass, int), Error> {
    if i < 0 || i >= s.len() {
        Err(Error::EOF)
    } else if s[i] == '\\' {
        if i + 1 >= s.len() {
            Err(Error::EOF)
        } else {
            match p_class_escape(s[i + 1]) {
                Err(e) => Err(e),
                Ok(c) => Ok((c, i + 2)),
            }
        }
    } else if s[i] == '[' {
        p_bracket(s, i + 1)
    } else if s[i] == '.' {
        Ok((GClass::Any, i + 1))
    } else {
        Ok((GClass::Literal(s[i]), i + 1))
    }
}

/// A trailing `+`, `*` or `?` wraps the node in a quantifier.
pub open spec fn p_maybe_repeat(m: GMatcher, s: Seq<char>, i: int) -> (GMatcher, int) {
    if 0 <= i < s.len() && s[i] == '+' {
        (GMatcher::Repeat { matcher: Box::new(m), min: Some(1usize), max: None }, i + 1)
    } else if 0 <= i < s.len() && s[i] == '*' {
        (GMatcher::Repeat { matcher: Box::new(m), min: None, max: None }, i + 1)
    } else if 0 <= i < s.len() && s[i] == '?' {
        (GMatcher::Repeat { matcher: Box::new(m), min: None, max: Some(1usize) }, i + 1)
    } else {
        (m, i)
    }
}

/// One matcher node read from position `i`.
pub open spec fn p_matcher(s: Seq<char>, i: int) -> Result<(GMatcher, int), Error>
    decreases s.len() - i, 0int,
{
    if i < 0 || i >= s.len() {
        Err(Error::EOF)
    } else if s[i] == '^' {
        Ok((GMatcher::StartOfString, i + 1))
    } else if s[i] == '$' {
        Ok((GMatcher::EndOfString, i + 1))
    } else if s[i] == '(' {
        match p_group_items(s, i + 1) {
            Err(e) => Err(e),
            Ok((inner, j)) => Ok(p_maybe_repeat(GMatcher::CaptureGroup(inner), s, j)),
        }
    } else if s[i] == '|' {
        Ok((GMatcher::Alternative, i + 1))
    } else if s[i] == '\\' && i + 1 < s.len() && is_digit_char(s[i + 1]) {
        Ok((GMatcher::Backreference((s[i + 1] as u32 - 48) as usize), i + 2))
    } else {
        match p_charclass(s, i) {
            Err(e) => Err(e),
            Ok((c, j)) => Ok(p_maybe_repeat(GMatcher::SingleCharacter(c), s, j)),
        }
    }
}

/// The children of a capture group, read from position `i` up to the closing
/// `)`.
pub open spec fn p_group_items(s: Seq<char>, i: int) -> Result<(Seq<GMatcher>, int), Error>
    decreases s.len() - i, 1int,
{
    if i < 0 || i >= s.len() {
        Err(Error::UnterminatedGroup)
    } else if s[i] == ')' {
        Ok((Seq::empty(), i + 1))
    } else {
        match p_matcher(s, i) {
            Err(e) => Err(e),
            Ok((m, j)) => {
                // A parsed matcher always advances; the bound below only
                // makes that fact available to the termination measure.
                let j1 = if i < j <= s.len() { j } else { i + 1 };
                match p_group_items(s, j1) {
                    Err(e) => Err(e),
                    Ok((rest, k)) => Ok((seq![m] + rest, k)),
                }
            },
        }
    }
}

/// The whole pattern: matchers read until the input is exhausted.
pub open spec fn p_pattern(s: Seq<char>, i: int) -> Result<Seq<GMatcher>, Error>
    decreases s.len() - i,
{
    if i < 0 || i >= s.len() {
        Ok(Seq::empty())
    } else {
        match p_matcher(s, i) {
            Err(e) => Err(e),
            Ok((m, j)) => {
                let j1 = if i < j <= s.len() { j } else { i + 1 };
                match p_pattern(s, j1) {
                    Err(e) => Err(e),
                    Ok(rest) => Ok(seq![m] + rest),
                }
            },
        }
    }
}

/// What a pattern string denotes: the parse started at its first character.
pub open spec fn parses_to(s: Seq<char>) -> Result<Seq<GMatcher>, Error> {
    p_pattern(s, 0)
}

/// A list parse with `pre` put in front of the parsed items.
pub open spec fn prepend_classes(pre: Seq<GClass>, r: Result<(Seq<GClass>, int), Error>) -> Result<
    (Seq<GClass>, int),
    Error,
> {
    match r {
        Err(e) => Err(e),
        Ok((rest, j)) => Ok((pre + rest, j)),
    }
}

/// A list parse with `pre` put in front of the parsed items.
pub open spec fn prepend_matchers(pre: Seq<GMatcher>, r: Result<(Seq<GMatcher>, int), Error>) -> Result<
    (Seq<GMatcher>, int),
    Error,
> {
    match r {
        Err(e) => Err(e),
        Ok((rest, j)) => Ok((pre + rest, j)),
    }
}

/// A whole-pattern parse with `pre` put in front of the parsed items.
pub open spec fn prepend_pattern(pre: Seq<GMatcher>, r: Result<Seq<GMatcher>, Error>) -> Result<
    Seq<GMatcher>,
    Error,
> {
    match r {
        Err(e) => Err(e),
        Ok(rest) => Ok(pre + rest),
    }
}

/// Mirroring a pushed element commutes with the view of the list.
pub proof fn lemma_classes_view_push(cs: Seq<SingleCharacterMatcher>, c: SingleCharacterMatcher)
    ensures
        classes_view(cs.push(c)) == classes_view(cs).push(class_view(c)),
{
    assert(cs.push(c).drop_last() =~= cs);
    assert(cs.push(c).last() == c);
}

/// Mirroring a pushed element commutes with the view of the list.
pub proof fn lemma_matchers_view_push(ms: Seq<Matcher>, m: Matcher)
    ensures
        matchers_view(ms.push(m)) == matchers_view(ms).push(matcher_view(m)),
{
    assert(ms.push(m).drop_last() =~= ms);
    assert(ms.push(m).last() == m);
}

/// The view of a list keeps its length.
pub proof fn lemma_matchers_view_len(ms: Seq<Matcher>)
    ensures
        matchers_view(ms).len() == ms.len(),
    decreases ms,
{
    if ms.len() > 0 {
        lemma_matchers_view_len(ms.drop_last());
    }
}

} // verus!
