//! The pattern parser: one character of lookahead, one matcher node at a
//! time.

use vstd::prelude::*;

use crate::ast::evaluable;
use crate::ast::group_wf;
use crate::ast::Error;
use crate::ast::Matcher;
use crate::ast::SingleCharacterMatcher;
use crate::grammar::lemma_matchers_view_push;
use crate::grammar::matcher_view;
use crate::grammar::matchers_view;
use crate::grammar::p_group_items;
use crate::grammar::p_matcher;
use crate::grammar::p_maybe_repeat;
use crate::grammar::prepend_matchers;
use crate::grammar::GMatcher;

verus! {

impl Matcher {
    /// Read one matcher node from position `*i`.
    pub fn new(s: &Vec<char>, i: &mut usize) -> (r: Result<Matcher, Error>)
        requires
            *old(i) <= s@.len(),
        ensures
            *final(i) <= s@.len(),
            match r {
                Ok(m) => p_matcher(s@, *old(i) as int) == Ok::<_, Error>(
                    (matcher_view(m), *final(i) as int),
                ) && *old(i) < *final(i) && (m is Alternative || evaluable(m)),
                Err(e) => p_matcher(s@, *old(i) as int) == Err::<(GMatcher, int), _>(e),
            },
        decreases s@.len() - *old(i),
    {
        if *i >= s.len() {
            return Err(Error::EOF);
        }
        let ch = s[*i];
        if ch == '^' {
            *i = *i + 1;
            Ok(Matcher::StartOfString)
        } else if ch == '$' {
            *i = *i + 1;
            Ok(Matcher::EndOfString)
        } else if ch == '(' {
            *i = *i + 1;
            let ghost i0: int = *i as int;
            let mut matchers: Vec<Matcher> = Vec::new();
            loop
                invariant
                    *old(i) < i0 <= *i <= s@.len(),
                    i0 == *old(i) + 1,
                    s@[*old(i) as int] == '(',
                    group_wf(matchers@),
                    p_group_items(s@, i0) == prepend_matchers(
                        matchers_view(matchers@),
                        p_group_items(s@, *i as int),
                    ),
                decreases s@.len() - *i,
            {
                if *i >= s.len() {
                    proof {
                        assert(p_group_items(s@, *i as int) == Err::<(Seq<GMatcher>, int), Error>(
                            Error::UnterminatedGroup,
                        ));
                    }
                    return Err(Error::UnterminatedGroup);
                }
                if s[*i] == ')' {
                    proof {
                        assert(p_group_items(s@, *i as int) == Ok::<_, Error>(
                            (Seq::<GMatcher>::empty(), *i as int + 1),
                        ));
                        assert(matchers_view(matchers@) + Seq::<GMatcher>::empty()
                            =~= matchers_view(matchers@));
                    }
                    *i = *i + 1;
                    let g = Matcher::CaptureGroup(matchers);
                    return Ok(Self::maybe_repeat(g, s, i));
                }
                let ghost ik: int = *i as int;
                match Matcher::new(s, i) {
                    Err(e) => {
                        proof {
                            assert(p_group_items(s@, ik) == Err::<(Seq<GMatcher>, int), Error>(e));
                        }
                        return Err(e);
                    },
                    Ok(m) => {
                        proof {
                            lemma_matchers_view_push(matchers@, m);
                        }
                        let ghost pre = matchers_view(matchers@);
                        let ghost mv = matcher_view(m);
                        matchers.push(m);
                        proof {
                            assert(p_group_items(s@, ik) == prepend_matchers(
                                seq![mv],
                                p_group_items(s@, *i as int),
                            ));
                            match p_group_items(s@, *i as int) {
                                Ok(p) => {
                                    assert(pre + (seq![mv] + p.0) =~= matchers_view(matchers@)
                                        + p.0);
                                },
                                Err(e) => {},
                            }
                        }
                    },
                }
            }
        } else if ch == '|' {
            *i = *i + 1;
            Ok(Matcher::Alternative)
        } else {
            if ch == '\\' && s.len() - *i >= 2 {
                let d = s[*i + 1];
                let v = #[verifier::truncate] (d as u32);
                if 48 <= v && v <= 57 {
                    *i = *i + 2;
                    return Ok(Matcher::Backreference((v - 48) as usize));
                }
            }
            match SingleCharacterMatcher::new(s, i) {
                Err(e) => Err(e),
                Ok(c) => Ok(Self::maybe_repeat(Matcher::SingleCharacter(c), s, i)),
            }
        }
    }

    /// Wrap the node in a quantifier when a `+`, `*` or `?` follows.
    fn maybe_repeat(matcher: Matcher, s: &Vec<char>, i: &mut usize) -> (r: Matcher)
        requires
            *old(i) <= s@.len(),
            evaluable(matcher),
            !(matcher is Alternative),
        ensures
            *old(i) <= *final(i) <= s@.len(),
            (matcher_view(r), *final(i) as int) == p_maybe_repeat(
                matcher_view(matcher),
                s@,
                *old(i) as int,
            ),
            evaluable(r),
    {
        if *i < s.len() && s[*i] == '+' {
            *i = *i + 1;
            Matcher::Repeat { matcher: Box::new(matcher), min: Some(1), max: None }
        } else if *i < s.len() && s[*i] == '*' {
            *i = *i + 1;
            Matcher::Repeat { matcher: Box::new(matcher), min: None, max: None }
        } else if *i < s.len() && s[*i] == '?' {
            *i = *i + 1;
            Matcher::Repeat { matcher: Box::new(matcher), min: None, max: Some(1) }
        } else {
            matcher
        }
    }
}

} // verus!
