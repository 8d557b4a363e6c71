//! Properties of the matching semantics, stated and proved once for all
//! patterns and inputs.

use vstd::prelude::*;

use crate::ast::Matcher;
use crate::ast::SingleCharacterMatcher;
use crate::backtrack::BT;
use crate::class::class_matches;
use crate::cursor::Cur;
use crate::sem::caps_ok;
use crate::sem::eval;
use crate::sem::eval_attempts;
use crate::sem::eval_backref;
use crate::sem::eval_options;
use crate::sem::eval_run;
use crate::sem::fuel_cap;
use crate::sem::lemma_attempts_ok;
use crate::sem::lemma_options_mono;
use crate::sem::repeat_finish;
use crate::sem::run_result;
use crate::sem::RunOut;
use crate::sem::MatchOut;
use crate::sem::STEP_LIMIT;

verus! {

/// A reported match is a contiguous substring of the input: its span lies
/// within the input, start before end, and so does every capture range.
pub proof fn lemma_match_is_substring(ms: Seq<Matcher>, s: Seq<char>)
    ensures
        run_result(ms, s).ok ==> 0 <= run_result(ms, s).start <= run_result(ms, s).end <= s.len(),
        caps_ok(run_result(ms, s).caps, s.len() as int),
{
    match eval_run(STEP_LIMIT as nat, ms, s) {
        Some((ro, f)) => {
            lemma_attempts_ok(STEP_LIMIT as nat, ms, s, 0, ro, f);
        },
        None => {},
    }
}

/// One attempt of the unanchored search: the pattern evaluated as an
/// implicit group at position `p`, under budget `f`.
pub open spec fn attempt_result(ms: Seq<Matcher>, s: Seq<char>, p: int, f: nat) -> Option<
    (MatchOut, nat),
> {
    eval_options(
        f,
        ms,
        0,
        s,
        Cur { pos: p, marks: Seq::<int>::empty() },
        Seq::<(int, int)>::empty(),
        None,
    )
}

/// Whether the attempt at `p` completes under budget `f` and matches.
pub open spec fn attempt_matches(ms: Seq<Matcher>, s: Seq<char>, p: int, f: nat) -> bool {
    match attempt_result(ms, s, p, f) {
        Some((o, r)) => o.ok,
        None => false,
    }
}

/// Whether the pattern matches starting at position `p`: some budget lets
/// the attempt there complete with a match.
pub open spec fn matches_at(ms: Seq<Matcher>, s: Seq<char>, p: int) -> bool {
    exists|f: nat| attempt_matches(ms, s, p, f)
}

/// An attempt that completed without a match cannot match under any other
/// budget: the outcome of a completed attempt does not depend on the budget.
pub proof fn lemma_attempt_deterministic(
    ms: Seq<Matcher>,
    s: Seq<char>,
    p: int,
    f1: nat,
    o1: MatchOut,
    r1: nat,
)
    requires
        attempt_result(ms, s, p, f1) == Some((o1, r1)),
        matches_at(ms, s, p),
    ensures
        o1.ok,
{
    let fh = choose|fh: nat| attempt_matches(ms, s, p, fh);
    let c0 = Cur { pos: p, marks: Seq::<int>::empty() };
    match attempt_result(ms, s, p, fh) {
        Some((o2, r2)) => {
            lemma_options_mono(f1, fh, ms, 0, s, c0, Seq::empty(), None, o1, r1);
            lemma_options_mono(fh, f1, ms, 0, s, c0, Seq::empty(), None, o2, r2);
            assert((f1 + fh) as nat == (fh + f1) as nat);
        },
        None => {
            assert(false);
        },
    }
}

/// The unanchored search from `p` succeeds exactly when the pattern matches
/// at `p` or at some later position of the input.
pub proof fn lemma_attempts_search(
    f: nat,
    ms: Seq<Matcher>,
    s: Seq<char>,
    p: int,
    ro: RunOut,
    f2: nat,
)
    requires
        0 <= p <= s.len(),
        eval_attempts(f, ms, s, p) == Some((ro, f2)),
    ensures
        ro.ok <==> matches_at(ms, s, p) || exists|q: int| p < q < s.len() && matches_at(ms, s, q),
    decreases f,
{
    let f1 = (f - 1) as nat;
    match attempt_result(ms, s, p, f1) {
        None => {},
        Some((out, fo)) => {
            if out.ok {
                assert(attempt_matches(ms, s, p, f1));
                assert(matches_at(ms, s, p));
            } else {
                assert(!matches_at(ms, s, p)) by {
                    if matches_at(ms, s, p) {
                        lemma_attempt_deterministic(ms, s, p, f1, out, fo);
                    }
                }
                let f3 = fuel_cap(fo, f1);
                if p + 1 < s.len() {
                    lemma_attempts_search(f3, ms, s, p + 1, ro, f2);
                    assert(ro.ok <==> matches_at(ms, s, p) || exists|q: int|
                        p < q < s.len() && matches_at(ms, s, q)) by {
                        if matches_at(ms, s, p + 1) {
                            assert(p < p + 1 < s.len() && matches_at(ms, s, p + 1));
                        }
                        if exists|q: int| p < q < s.len() && matches_at(ms, s, q) {
                            let q = choose|q: int| p < q < s.len() && matches_at(ms, s, q);
                            if q == p + 1 {
                            } else {
                                assert(p + 1 < q < s.len() && matches_at(ms, s, q));
                            }
                        }
                    }
                } else {
                    assert(!(exists|q: int| p < q < s.len() && matches_at(ms, s, q))) by {
                        if exists|q: int| p < q < s.len() && matches_at(ms, s, q) {
                            let q = choose|q: int| p < q < s.len() && matches_at(ms, s, q);
                            assert(false);
                        }
                    }
                }
            }
        },
    }
}

/// A pattern matches a nonempty line exactly when it matches starting at
/// some position of the line, provided the search completed within the step
/// budget.
pub proof fn lemma_unanchored_search(ms: Seq<Matcher>, s: Seq<char>, ro: RunOut, f2: nat)
    requires
        s.len() > 0,
        eval_run(STEP_LIMIT as nat, ms, s) == Some((ro, f2)),
    ensures
        run_result(ms, s).ok <==> exists|q: int| 0 <= q < s.len() && matches_at(ms, s, q),
{
    lemma_attempts_search(STEP_LIMIT as nat, ms, s, 0, ro, f2);
    assert(run_result(ms, s) == ro);
    if matches_at(ms, s, 0) {
        assert(0 <= 0 < s.len() && matches_at(ms, s, 0));
    }
    if exists|q: int| 0 <= q < s.len() && matches_at(ms, s, q) {
        let q = choose|q: int| 0 <= q < s.len() && matches_at(ms, s, q);
        if q == 0 {
        } else {
            assert(0 < q < s.len() && matches_at(ms, s, q));
        }
    }
}

/// On empty input the search makes exactly one attempt, at position 0: the
/// match is reported exactly when the pattern accepts the empty string
/// there, provided the search completed within the step budget.
pub proof fn lemma_empty_input(ms: Seq<Matcher>, s: Seq<char>, ro: RunOut, f2: nat)
    requires
        s.len() == 0,
        eval_run(STEP_LIMIT as nat, ms, s) == Some((ro, f2)),
    ensures
        run_result(ms, s).ok <==> matches_at(ms, s, 0),
{
    lemma_attempts_search(STEP_LIMIT as nat, ms, s, 0, ro, f2);
}

/// A `+` quantifier over a class that matches no character fails, consuming
/// nothing, whatever captures and handle surround it.
pub proof fn lemma_plus_over_empty_class(
    f: nat,
    cls: SingleCharacterMatcher,
    mx: Option<usize>,
    s: Seq<char>,
    cur: Cur,
    caps: Seq<(int, int)>,
    bt: Option<BT>,
)
    requires
        f >= 1,
        forall|ch: char| !class_matches(cls, ch),
    ensures
        eval(
            f,
            Matcher::Repeat {
                matcher: Box::new(Matcher::SingleCharacter(cls)),
                min: Some(1usize),
                max: mx,
            },
            s,
            cur,
            caps,
            bt,
        ) == Some(
            (
                MatchOut { ok: false, caps: Seq::<(int, int)>::empty(), bt: None, cur },
                (f - 1) as nat,
            ),
        ),
{
    let f1 = (f - 1) as nat;
    if cur.pos < s.len() {
        assert(!class_matches(cls, s[cur.pos]));
    }
    assert(fuel_cap(f1, f1) == f1);
    let inner = Matcher::SingleCharacter(cls);
    let m = Matcher::Repeat { matcher: Box::new(inner), min: Some(1usize), max: mx };
    assert(eval(f, m, s, cur, caps, bt) == crate::sem::eval_repeat(
        f,
        inner,
        s,
        cur,
        caps,
        bt,
        Some(1usize),
        mx,
        0,
    ));
    assert(match eval(f1, inner, s, cur, caps, bt) {
        Some((t, ff)) => !t.ok && ff == f1,
        None => false,
    });
    assert(repeat_finish(Some(1usize), 0, cur) == (MatchOut {
        ok: false,
        caps: Seq::<(int, int)>::empty(),
        bt: None,
        cur,
    }));
}

/// A back-reference to a group captured as the empty string succeeds and
/// consumes nothing.
pub proof fn lemma_backref_empty(
    f: nat,
    k: usize,
    s: Seq<char>,
    cur: Cur,
    caps: Seq<(int, int)>,
    bt: Option<BT>,
)
    requires
        k < caps.len(),
        caps[k as int].0 == caps[k as int].1,
    ensures
        eval(f, Matcher::Backreference(k), s, cur, caps, bt) == Some(
            (
                MatchOut {
                    ok: true,
                    caps: Seq::<(int, int)>::empty(),
                    bt: None,
                    cur: Cur { pos: cur.pos, marks: cur.marks },
                },
                f,
            ),
        ),
{
    assert(eval_backref(s, cur.pos, caps[k as int].0, caps[k as int].1) == (true, cur.pos));
}

} // verus!
