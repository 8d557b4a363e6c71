//! The compiled pattern and its public operations: compile, boolean test,
//! and the full match with captured groups.

use vstd::prelude::*;
use vstd::string::StrSliceExecFns;

use crate::ast::group_wf;
use crate::ast::Error;
use crate::ast::Matcher;
use crate::backtrack::caps_view;
use crate::cursor::BufferedIterator;
use crate::cursor::Cur;
use crate::grammar::lemma_matchers_view_push;
use crate::grammar::matchers_view;
use crate::grammar::p_pattern;
use crate::grammar::parses_to;
use crate::grammar::prepend_pattern;
use crate::grammar::GMatcher;
use crate::sem::caps_ok;
use crate::sem::eval_attempts;
use crate::sem::eval_options;
use crate::sem::eval_run;
use crate::sem::lemma_attempts_ok;
use crate::sem::lemma_options_ok;
use crate::sem::run_result;
use crate::sem::STEP_LIMIT;

verus! {

/// The characters of a string, as a vector.
fn to_char_vec(t: &str) -> (r: Vec<char>)
    ensures
        r@ == t@,
{
    let n = t.unicode_len();
    let mut v: Vec<char> = Vec::new();
    let mut k: usize = 0;
    while k < n
        invariant
            k <= n,
            n == t@.len(),
            v@ == t@.subrange(0, k as int),
        decreases n - k,
    {
        v.push(t.get_char(k));
        proof {
            assert(v@ =~= t@.subrange(0, k + 1));
        }
        k = k + 1;
    }
    proof {
        assert(v@ =~= t@);
    }
    v
}

/// The substring of `t` between two character positions, as an owned string.
fn substr(t: &str, a: usize, b: usize) -> (r: String)
    requires
        a <= b <= t@.len(),
    ensures
        r@ == t@.subrange(a as int, b as int),
{
    t.substring_char(a, b).to_owned()
}

/// A compiled pattern: the parsed matcher sequence, evaluated as one
/// implicit capture group.
#[derive(Debug)]
pub struct Pattern {
    matchers: Vec<Matcher>,
}

impl View for Pattern {
    type V = Seq<Matcher>;

    closed spec fn view(&self) -> Seq<Matcher> {
        self.matchers@
    }
}

impl Pattern {
    /// Every matcher of a compiled pattern can be evaluated; alternation
    /// separators stand only where the implicit group splits on them.
    #[verifier::type_invariant]
    pub closed spec fn wf(self) -> bool {
        group_wf(self.matchers@)
    }

    /// Compile a pattern string. Returns the compiled pattern exactly when
    /// the grammar accepts the string, and the grammar's error otherwise.
    #[verifier::loop_isolation(false)]
    pub fn new(input: &str) -> (r: Result<Pattern, Error>)
        ensures
            match r {
                Ok(p) => parses_to(input@) == Ok::<_, Error>(matchers_view(p@)),
                Err(e) => parses_to(input@) == Err::<Seq<GMatcher>, _>(e),
            },
    {
        let s = to_char_vec(input);
        let mut i: usize = 0;
        let mut ms: Vec<Matcher> = Vec::new();
        loop
            invariant
                i <= s@.len(),
                s@ == input@,
                group_wf(ms@),
                p_pattern(s@, 0) == prepend_pattern(matchers_view(ms@), p_pattern(s@, i as int)),
            decreases s@.len() - i,
        {
            if i >= s.len() {
                proof {
                    assert(p_pattern(s@, i as int) == Ok::<_, Error>(Seq::<GMatcher>::empty()));
                    assert(matchers_view(ms@) + Seq::<GMatcher>::empty() =~= matchers_view(ms@));
                }
                return Ok(Pattern { matchers: ms });
            }
            let ghost ik: int = i as int;
            match Matcher::new(&s, &mut i) {
                Err(e) => {
                    proof {
                        assert(p_pattern(s@, ik) == Err::<Seq<GMatcher>, _>(e));
                    }
                    return Err(e);
                },
                Ok(m) => {
                    proof {
                        lemma_matchers_view_push(ms@, m);
                    }
                    let ghost pre = matchers_view(ms@);
                    let ghost mv = crate::grammar::matcher_view(m);
                    ms.push(m);
                    proof {
                        assert(p_pattern(s@, ik) == prepend_pattern(
                            seq![mv],
                            p_pattern(s@, i as int),
                        ));
                        match p_pattern(s@, i as int) {
                            Ok(rest) => {
                                assert(pre + (seq![mv] + rest) =~= matchers_view(ms@) + rest);
                            },
                            Err(_) => {},
                        }
                    }
                },
            }
        }
    }

    /// Whether the pattern matches somewhere in the line: the first
    /// component of `run`.
    pub fn test(&self, input: &str) -> (r: bool)
        ensures
            r == run_result(self@, input@).ok,
    {
        let (matched, _text, _groups) = self.run(input);
        matched
    }

    /// Match the pattern against the line by unanchored search. Returns
    /// whether it matched, the matched substring, and the text captured by
    /// each group, exactly as the search semantics describes under the step
    /// budget.
    #[verifier::loop_isolation(false)]
    pub fn run(&self, input: &str) -> (r: (bool, String, Vec<String>))
        ensures
            ({
                let ro = run_result(self@, input@);
                &&& r.0 == ro.ok
                &&& ro.ok ==> r.1@ == input@.subrange(ro.start, ro.end)
                &&& ro.ok ==> r.2@.len() == ro.caps.len()
                &&& ro.ok ==> forall|k: int| 0 <= k < ro.caps.len() ==> (#[trigger] r.2@[k])@
                    == input@.subrange(ro.caps[k].0, ro.caps[k].1)
                &&& !ro.ok ==> r.1@ == Seq::<char>::empty() && r.2@.len() == 0
            }),
    {
        proof {
            use_type_invariant(self);
        }
        let s = to_char_vec(input);
        let mut fuel: u64 = STEP_LIMIT;
        let ghost big: nat = STEP_LIMIT as nat;
        let mut p: usize = 0;
        loop
            invariant
                s@ == input@,
                p <= s@.len(),
                group_wf(self@),
                fuel as nat <= big,
                eval_attempts(big, self@, s@, 0) == eval_attempts(fuel as nat, self@, s@, p as int),
            decreases fuel,
        {
            if fuel == 0 {
                proof {
                    assert(eval_run(STEP_LIMIT as nat, self@, input@) is None);
                }
                return (false, String::new(), Vec::new());
            }
            let ghost fe: nat = fuel as nat;
            fuel = fuel - 1;
            let ghost f1: nat = fuel as nat;
            let mut cur = BufferedIterator::new(p);
            let ghost cv: Cur = cur@;
            match self.test_section(&s, &mut cur, &mut fuel) {
                None => {
                    proof {
                        assert(eval_attempts(big, self@, s@, 0) is None);
                        assert(eval_run(STEP_LIMIT as nat, self@, input@) is None);
                    }
                    return (false, String::new(), Vec::new());
                },
                Some((matched, rcaps)) => {
                    if matched {
                        let (st, en) = cur.take();
                        proof {
                            match eval_attempts(fe, self@, s@, p as int) {
                                Some((ro, ff)) => {
                                    lemma_attempts_ok(fe, self@, s@, p as int, ro, ff);
                                },
                                None => {
                                    assert(false);
                                },
                            }
                        }
                        let text = substr(input, st, en);
                        let mut groups: Vec<String> = Vec::new();
                        let mut k: usize = 0;
                        let ghost rr = match eval_attempts(big, self@, s@, 0) {
                            Some((ro, _)) => ro,
                            None => arbitrary(),
                        };
                        while k < rcaps.len()
                            invariant
                                k <= rcaps@.len(),
                                s@ == input@,
                                rr.caps == caps_view(rcaps@),
                                caps_ok(rr.caps, s@.len() as int),
                                groups@.len() == k,
                                forall|t: int| 0 <= t < k ==> (#[trigger] groups@[t])@ == input@
                                    .subrange(rr.caps[t].0, rr.caps[t].1),
                            decreases rcaps@.len() - k,
                        {
                            let (a, b) = rcaps[k];
                            proof {
                                assert(rr.caps[k as int] == (a as int, b as int));
                            }
                            groups.push(substr(input, a, b));
                            k = k + 1;
                        }
                        return (true, text, groups);
                    } else {
                        if s.len() - p >= 2 {
                            p = p + 1;
                        } else {
                            return (false, String::new(), Vec::new());
                        }
                    }
                },
            }
        }
    }

    /// Evaluate the matcher sequence as one implicit group at the cursor,
    /// and strip the group's own capture from the result.
    fn test_section(
        &self,
        s: &Vec<char>,
        cur: &mut BufferedIterator,
        fuel: &mut u64,
    ) -> (r: Option<(bool, Vec<(usize, usize)>)>)
        requires
            group_wf(self@),
            0 <= old(cur)@.pos <= s@.len(),
            old(cur)@.marks.len() == 0,
        ensures
            *final(fuel) <= *old(fuel),
            final(cur).start == old(cur).start,
            match r {
                Some(t) => match eval_options(
                    *old(fuel) as nat,
                    self@,
                    0,
                    s@,
                    old(cur)@,
                    Seq::<(int, int)>::empty(),
                    None,
                ) {
                    Some((out, f2)) => t.0 == out.ok && *final(fuel) as nat == f2 && final(cur)@
                        == out.cur && caps_view(t.1@) == (if out.ok {
                        out.caps.drop_first()
                    } else {
                        out.caps
                    }),
                    None => false,
                },
                None => eval_options(
                    *old(fuel) as nat,
                    self@,
                    0,
                    s@,
                    old(cur)@,
                    Seq::<(int, int)>::empty(),
                    None,
                ) is None,
            },
    {
        let empty: Vec<(usize, usize)> = Vec::new();
        proof {
            assert(caps_view(Seq::<(usize, usize)>::empty()) =~= Seq::<(int, int)>::empty());
        }
        match Matcher::test_group(&self.matchers, s, cur, &empty, None, fuel) {
            None => None,
            Some((ok, caps2, _bt)) => {
                if ok {
                    let mut caps3 = caps2;
                    proof {
                        match eval_options(
                            *old(fuel) as nat,
                            self@,
                            0,
                            s@,
                            old(cur)@,
                            Seq::<(int, int)>::empty(),
                            None,
                        ) {
                            Some((out, f2)) => {
                                lemma_options_ok(
                                    *old(fuel) as nat,
                                    self@,
                                    0,
                                    s@,
                                    old(cur)@,
                                    Seq::<(int, int)>::empty(),
                                    None,
                                    old(cur)@.pos,
                                    out,
                                    f2,
                                );
                            },
                            None => {
                                assert(false);
                            },
                        }
                    }
                    let ghost pre = caps_view(caps3@);
                    caps3.remove(0);
                    proof {
                        assert(caps_view(caps3@) =~= pre.drop_first());
                    }
                    Some((true, caps3))
                } else {
                    Some((false, caps2))
                }
            },
        }
    }
}

} // verus!
