//! What a character class accepts, and the check that decides it.

use vstd::prelude::*;

use crate::ast::Error;
use crate::ast::SingleCharacterMatcher;
use crate::grammar::class_view;
use crate::grammar::classes_view;
use crate::grammar::lemma_classes_view_push;
use crate::grammar::p_bracket;
use crate::grammar::p_charclass;
use crate::grammar::p_class_escape;
use crate::grammar::p_set_item;
use crate::grammar::p_set_items;
use crate::grammar::prepend_classes;
use crate::grammar::GClass;

verus! {

/// An ASCII digit.
pub open spec fn is_digit_char(ch: char) -> bool {
    48 <= ch as u32 <= 57
}

/// An ASCII letter, an ASCII digit, or an underscore.
pub open spec fn is_word_char(ch: char) -> bool {
    ||| is_digit_char(ch)
    ||| 65 <= ch as u32 <= 90
    ||| 97 <= ch as u32 <= 122
    ||| ch == '_'
}

/// What a character class accepts.
pub open spec fn class_matches(c: SingleCharacterMatcher, ch: char) -> bool
    decreases c,
{
    match c {
        SingleCharacterMatcher::Literal(l) => l == ch,
        SingleCharacterMatcher::Any => true,
        SingleCharacterMatcher::Digit => is_digit_char(ch),
        SingleCharacterMatcher::Alphanumeric => is_word_char(ch),
        SingleCharacterMatcher::Group(options) => exists|k: int|
            0 <= k < options@.len() && class_matches(#[trigger] options@[k], ch),
        SingleCharacterMatcher::NegativeGroup(options) => !exists|k: int|
            0 <= k < options@.len() && class_matches(#[trigger] options@[k], ch),
    }
}

impl SingleCharacterMatcher {
    /// Read one character class from position `*i`: an escape, a bracket
    /// class, `.`, or a literal.
    pub fn new(s: &Vec<char>, i: &mut usize) -> (r: Result<SingleCharacterMatcher, Error>)
        requires
            *old(i) <= s@.len(),
        ensures
            *final(i) <= s@.len(),
            match r {
                Ok(c) => p_charclass(s@, *old(i) as int) == Ok::<_, Error>(
                    (class_view(c), *final(i) as int),
                ) && *old(i) < *final(i),
                Err(e) => p_charclass(s@, *old(i) as int) == Err::<(GClass, int), _>(e),
            },
    {
        if *i >= s.len() {
            return Err(Error::EOF);
        }
        let ch = s[*i];
        if ch == '\\' {
            if s.len() - *i < 2 {
                return Err(Error::EOF);
            }
            let c2 = s[*i + 1];
            *i = *i + 2;
            Self::new_class(c2)
        } else if ch == '[' {
            *i = *i + 1;
            Self::new_group(s, i)
        } else if ch == '.' {
            *i = *i + 1;
            Ok(SingleCharacterMatcher::Any)
        } else {
            *i = *i + 1;
            Ok(Self::new_literal(ch))
        }
    }

    /// Read one member of a bracket class from position `*i`: an escape or a
    /// literal.
    fn new_in_group(s: &Vec<char>, i: &mut usize) -> (r: Result<SingleCharacterMatcher, Error>)
        requires
            *old(i) <= s@.len(),
        ensures
            *final(i) <= s@.len(),
            match r {
                Ok(c) => p_set_item(s@, *old(i) as int) == Ok::<_, Error>(
                    (class_view(c), *final(i) as int),
                ) && *old(i) < *final(i),
                Err(e) => p_set_item(s@, *old(i) as int) == Err::<(GClass, int), _>(e),
            },
    {
        if *i >= s.len() {
            return Err(Error::EOF);
        }
        let ch = s[*i];
        if ch == '\\' {
            if s.len() - *i < 2 {
                return Err(Error::EOF);
            }
            let c2 = s[*i + 1];
            *i = *i + 2;
            Self::new_class(c2)
        } else {
            *i = *i + 1;
            Ok(Self::new_literal(ch))
        }
    }

    /// The class matching exactly this character.
    pub fn new_literal(ch: char) -> (r: Self)
        ensures
            class_view(r) == GClass::Literal(ch),
    {
        SingleCharacterMatcher::Literal(ch)
    }

    /// The class named by an escaped character: a non-alphanumeric escape is
    /// a literal, `d` and `w` are shorthands, any other letter or digit is an
    /// error.
    pub fn new_class(class: char) -> (r: Result<Self, Error>)
        ensures
            match r {
                Ok(c) => p_class_escape(class) == Ok::<_, Error>(class_view(c)),
                Err(e) => p_class_escape(class) == Err::<GClass, _>(e),
            },
    {
        let v = class as u32;
        let alnum = (48 <= v && v <= 57) || (65 <= v && v <= 90) || (97 <= v && v <= 122);
        if !alnum {
            Ok(SingleCharacterMatcher::Literal(class))
        } else if class == 'd' {
            Ok(SingleCharacterMatcher::Digit)
        } else if class == 'w' {
            Ok(SingleCharacterMatcher::Alphanumeric)
        } else {
            Err(Error::UnknownCharacterType(class))
        }
    }

    /// Read a bracket class from position `*i`, just after the opening `[`.
    pub fn new_group(s: &Vec<char>, i: &mut usize) -> (r: Result<Self, Error>)
        requires
            *old(i) <= s@.len(),
        ensures
            *final(i) <= s@.len(),
            match r {
                Ok(c) => p_bracket(s@, *old(i) as int) == Ok::<_, Error>(
                    (class_view(c), *final(i) as int),
                ) && *old(i) <= *final(i),
                Err(e) => p_bracket(s@, *old(i) as int) == Err::<(GClass, int), _>(e),
            },
    {
        let negative = if *i < s.len() && s[*i] == '^' {
            *i = *i + 1;
            true
        } else {
            false
        };
        let ghost i0: int = *i as int;
        proof {
            if negative {
                assert(p_bracket(s@, *old(i) as int) == (match p_set_items(s@, i0) {
                    Err(e) => Err::<(GClass, int), Error>(e),
                    Ok((items, j)) => Ok((GClass::NegativeGroup(items), j)),
                }));
            } else {
                assert(p_bracket(s@, *old(i) as int) == (match p_set_items(s@, i0) {
                    Err(e) => Err::<(GClass, int), Error>(e),
                    Ok((items, j)) => Ok((GClass::Group(items), j)),
                }));
            }
        }
        let mut options: Vec<SingleCharacterMatcher> = Vec::new();
        loop
            invariant
                *old(i) <= i0 <= *i <= s@.len(),
                p_set_items(s@, i0) == prepend_classes(
                    classes_view(options@),
                    p_set_items(s@, *i as int),
                ),
                p_bracket(s@, *old(i) as int) == (if negative {
                    match p_set_items(s@, i0) {
                        Err(e) => Err::<(GClass, int), Error>(e),
                        Ok((items, j)) => Ok((GClass::NegativeGroup(items), j)),
                    }
                } else {
                    match p_set_items(s@, i0) {
                        Err(e) => Err::<(GClass, int), Error>(e),
                        Ok((items, j)) => Ok((GClass::Group(items), j)),
                    }
                }),
            decreases s@.len() - *i,
        {
            if *i >= s.len() {
                return Err(Error::EOF);
            }
            if s[*i] == ']' {
                proof {
                    assert(p_set_items(s@, *i as int) == Ok::<_, Error>(
                        (Seq::<GClass>::empty(), *i as int + 1),
                    ));
                    assert(classes_view(options@) + Seq::<GClass>::empty() =~= classes_view(
                        options@,
                    ));
                }
                *i = *i + 1;
                if negative {
                    return Ok(SingleCharacterMatcher::NegativeGroup(options));
                } else {
                    return Ok(SingleCharacterMatcher::Group(options));
                }
            }
            let ghost ik: int = *i as int;
            match Self::new_in_group(s, i) {
                Err(e) => {
                    return Err(e);
                },
                Ok(c) => {
                    proof {
                        lemma_classes_view_push(options@, c);
                        assert(classes_view(options@) + seq![class_view(c)] =~= classes_view(
                            options@.push(c),
                        ));
                    }
                    let ghost pre = classes_view(options@);
                    options.push(c);
                    proof {
                        match p_set_items(s@, *i as int) {
                            Ok(p) => {
                                assert(p_set_items(s@, ik) == prepend_classes(
                                    seq![class_view(c)],
                                    p_set_items(s@, *i as int),
                                ));
                                assert(pre + (seq![class_view(c)] + p.0) =~= classes_view(
                                    options@,
                                ) + p.0);
                            },
                            Err(e) => {
                                assert(p_set_items(s@, ik) == Err::<(Seq<GClass>, int), _>(e));
                            },
                        }
                    }
                },
            }
        }
    }

    /// Whether this class accepts the character.
    pub fn test(&self, ch: char) -> (r: bool)
        ensures
            r == class_matches(*self, ch),
        decreases *self,
    {
        match self {
            SingleCharacterMatcher::Literal(c) => *c == ch,
            SingleCharacterMatcher::Any => true,
            SingleCharacterMatcher::Digit => {
                let v = ch as u32;
                48 <= v && v <= 57
            },
            SingleCharacterMatcher::Alphanumeric => {
                let v = ch as u32;
                (48 <= v && v <= 57) || (65 <= v && v <= 90) || (97 <= v && v <= 122) || ch == '_'
            },
            SingleCharacterMatcher::Group(options) => Self::test_any(options, ch),
            SingleCharacterMatcher::NegativeGroup(options) => !Self::test_any(options, ch),
        }
    }

    /// Whether any class of the list accepts the character.
    fn test_any(options: &Vec<SingleCharacterMatcher>, ch: char) -> (r: bool)
        ensures
            r == exists|k: int| 0 <= k < options@.len() && class_matches(#[trigger] options@[k], ch),
        decreases options@,
    {
        let mut j: usize = 0;
        let mut found = false;
        while j < options.len()
            invariant
                j <= options@.len(),
                found == exists|k: int| 0 <= k < j && class_matches(#[trigger] options@[k], ch),
            decreases options@.len() - j,
        {
            if options[j].test(ch) {
                found = true;
            }
            j = j + 1;
        }
        found
    }
}

} // verus!
