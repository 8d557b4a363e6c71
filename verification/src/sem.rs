//! The semantics of matching: a step-indexed functional description of the
//! backtracking search. Each function takes a step budget and returns `None`
//! when the budget is exhausted, together with the budget that is left; the
//! engine is proved to return exactly what these functions describe.

use vstd::prelude::*;

use crate::ast::Matcher;
use crate::backtrack::Frame;
use crate::backtrack::BT;
use crate::class::class_matches;
use crate::cursor::Cur;

verus! {

/// The step budget of one evaluation. Every iteration of a search loop
/// spends one step; a search that would exceed the budget is abandoned and
/// reported as no match.
pub const STEP_LIMIT: u64 = u64::MAX;

/// What evaluating one matcher produced: whether it matched, the capture
/// ranges of groups closed inside it, a resumption handle when it can be
/// asked for another result, and the cursor after it.
pub ghost struct MatchOut {
    pub ok: bool,
    pub caps: Seq<(int, int)>,
    pub bt: Option<BT>,
    pub cur: Cur,
}

/// What running one alternative of a group produced: whether the whole
/// alternative matched, the cursor after it, the captures closed in it, and
/// the frames left for later backtracking.
pub ghost struct LoopOut {
    pub ok: bool,
    pub cur: Cur,
    pub caps: Seq<(int, int)>,
    pub stack: Seq<Frame>,
}

/// What an unanchored search produced: whether some start position matched,
/// the span of the match, and the capture ranges.
pub ghost struct RunOut {
    pub ok: bool,
    pub start: int,
    pub end: int,
    pub caps: Seq<(int, int)>,
}

/// The index of the first alternation separator at or after `j`, or the
/// length when there is none.
pub open spec fn next_alt(ms: Seq<Matcher>, j: int) -> int
    decreases ms.len() - j,
{
    if j < 0 || j >= ms.len() {
        ms.len() as int
    } else if ms[j] is Alternative {
        j
    } else {
        next_alt(ms, j + 1)
    }
}

/// The alternatives of a group body: the index ranges between alternation
/// separators, in order. A body without separators is one alternative; an
/// empty body is one empty alternative.
pub open spec fn alt_ranges_from(ms: Seq<Matcher>, j: int) -> Seq<(int, int)>
    decreases ms.len() - j,
{
    let e = next_alt(ms, j);
    let e1 = if e >= j { e } else { j };
    if e1 < ms.len() {
        seq![(j, e1)] + alt_ranges_from(ms, e1 + 1)
    } else {
        seq![(j, ms.len() as int)]
    }
}

/// The alternatives of a group body.
pub open spec fn alt_ranges(ms: Seq<Matcher>) -> Seq<(int, int)> {
    alt_ranges_from(ms, 0)
}

/// The smaller of a remaining budget and a bound.
pub open spec fn fuel_cap(f: nat, bound: nat) -> nat {
    if f <= bound {
        f
    } else {
        bound
    }
}

/// Walking a back-reference: the characters of `s[j..e]` are required, one
/// by one, to equal the characters at the cursor. Returns whether they all
/// did and the cursor position afterwards; a mismatch consumes the
/// mismatching character, exhausted input consumes nothing.
pub open spec fn eval_backref(s: Seq<char>, pos: int, j: int, e: int) -> (bool, int)
    decreases e - j,
{
    if j >= e {
        (true, pos)
    } else if j >= s.len() {
        (false, pos)
    } else if pos >= s.len() {
        (false, pos)
    } else if s[pos] != s[j] {
        (false, pos + 1)
    } else {
        eval_backref(s, pos + 1, j + 1, e)
    }
}

/// The result of a quantifier run that took `count` repetitions and stands
/// at `cur`: a failure when a required minimum was not reached, otherwise a
/// success carrying a give-back handle when any repetition was taken.
pub open spec fn repeat_finish(min: Option<usize>, count: int, cur: Cur) -> MatchOut {
    let minfail = match min {
        Some(mn) => count < mn,
        None => false,
    };
    if minfail {
        MatchOut { ok: false, caps: Seq::empty(), bt: None, cur }
    } else {
        MatchOut {
            ok: true,
            caps: Seq::empty(),
            bt: if count > 0 {
                Some(BT::Range(count))
            } else {
                None
            },
            cur,
        }
    }
}

/// Evaluate one matcher at a cursor, with the captures closed so far and an
/// optional resumption handle.
pub open spec fn eval(
    f: nat,
    m: Matcher,
    s: Seq<char>,
    cur: Cur,
    caps: Seq<(int, int)>,
    bt: Option<BT>,
) -> Option<(MatchOut, nat)>
    decreases f, 2int,
{
    match m {
        Matcher::SingleCharacter(c) => Some(
            (
                if cur.pos < s.len() {
                    MatchOut {
                        ok: class_matches(c, s[cur.pos]),
                        caps: Seq::empty(),
                        bt: None,
                        cur: Cur { pos: cur.pos + 1, marks: cur.marks },
                    }
                } else {
                    MatchOut { ok: false, caps: Seq::empty(), bt: None, cur }
                },
                f,
            ),
        ),
        Matcher::StartOfString => Some(
            (MatchOut { ok: cur.pos == 0, caps: Seq::empty(), bt: None, cur }, f),
        ),
        Matcher::EndOfString => Some(
            (MatchOut { ok: cur.pos >= s.len(), caps: Seq::empty(), bt: None, cur }, f),
        ),
        Matcher::Backreference(k) => Some(
            (
                if k >= caps.len() {
                    MatchOut { ok: false, caps: Seq::empty(), bt: None, cur }
                } else {
                    let r = eval_backref(s, cur.pos, caps[k as int].0, caps[k as int].1);
                    MatchOut {
                        ok: r.0,
                        caps: Seq::empty(),
                        bt: None,
                        cur: Cur { pos: r.1, marks: cur.marks },
                    }
                },
                f,
            ),
        ),
        Matcher::Alternative => Some(
            (MatchOut { ok: false, caps: Seq::empty(), bt: None, cur }, f),
        ),
        Matcher::Repeat { matcher, min, max } => eval_repeat(
            f,
            *matcher,
            s,
            cur,
            caps,
            bt,
            min,
            max,
            0,
        ),
        Matcher::CaptureGroup(inner) => eval_options(f, inner@, 0, s, cur, caps, bt),
    }
}

/// The greedy quantifier loop: run the inner matcher repeatedly, adopting
/// each success that makes progress, until it fails, a resume handle caps
/// the count, progress stops, or the maximum is reached.
pub open spec fn eval_repeat(
    f: nat,
    inner: Matcher,
    s: Seq<char>,
    cur: Cur,
    caps: Seq<(int, int)>,
    bt: Option<BT>,
    min: Option<usize>,
    max: Option<usize>,
    count: int,
) -> Option<(MatchOut, nat)>
    decreases f, 0int,
{
    if f == 0 {
        None
    } else {
        let f1 = (f - 1) as nat;
        match eval(f1, inner, s, cur, caps, bt) {
            None => None,
            Some((r, f2)) => {
                let f3 = fuel_cap(f2, f1);
                let limited = match bt {
                    Some(BT::Range(n)) => count + 1 >= n,
                    _ => false,
                };
                if !r.ok {
                    Some((repeat_finish(min, count, cur), f3))
                } else if limited {
                    Some((repeat_finish(min, count, cur), f3))
                } else if r.cur.pos <= cur.pos {
                    Some((repeat_finish(min, count, cur), f3))
                } else {
                    let maxhit = match max {
                        Some(mx) => count + 1 == mx,
                        None => false,
                    };
                    if maxhit {
                        Some((repeat_finish(min, count + 1, r.cur), f3))
                    } else {
                        eval_repeat(f3, inner, s, r.cur, caps, bt, min, max, count + 1)
                    }
                }
            },
        }
    }
}

/// One alternative of a group, run from child index `i` with the group's own
/// captures `oc`, an optional handle `bti` for the child at `i`, and the
/// frames pushed so far. A failing child pops the latest frame and re-runs
/// its matcher with the stored handle; with no frame left the alternative
/// fails.
pub open spec fn eval_match_loop(
    f: nat,
    opt: Seq<Matcher>,
    s: Seq<char>,
    outer: Seq<(int, int)>,
    i: int,
    cur: Cur,
    oc: Seq<(int, int)>,
    bti: Option<BT>,
    stack: Seq<Frame>,
) -> Option<(LoopOut, nat)>
    decreases f, 0int,
{
    if f == 0 {
        None
    } else {
        let f1 = (f - 1) as nat;
        if i < 0 || i >= opt.len() {
            Some((LoopOut { ok: true, cur, caps: oc, stack }, f1))
        } else {
            match eval(f1, opt[i], s, cur, all_caps(outer, oc), bti) {
                None => None,
                Some((r, f2)) => {
                    let f3 = fuel_cap(f2, f1);
                    if r.ok {
                        let stack2 = match r.bt {
                            Some(h) => stack.push(Frame { cur, caps: oc, bt: h, resume_at: i }),
                            None => stack,
                        };
                        eval_match_loop(f3, opt, s, outer, i + 1, r.cur, oc + r.caps, None, stack2)
                    } else if stack.len() > 0 {
                        let fr = stack.last();
                        eval_match_loop(
                            f3,
                            opt,
                            s,
                            outer,
                            fr.resume_at,
                            fr.cur,
                            fr.caps,
                            Some(fr.bt),
                            stack.drop_last(),
                        )
                    } else {
                        Some(
                            (
                                LoopOut {
                                    ok: false,
                                    cur: r.cur,
                                    caps: Seq::empty(),
                                    stack: Seq::empty(),
                                },
                                f3,
                            ),
                        )
                    }
                },
            }
        }
    }
}

/// A capture group, tried alternative by alternative from `oid`. A handle
/// naming alternative `oid` re-enters it: with frames left, from its latest
/// frame; with none, the alternative is skipped. On success the substring
/// consumed by the group is prepended to the captures as the group's own
/// capture.
pub open spec fn eval_options(
    f: nat,
    ms: Seq<Matcher>,
    oid: int,
    s: Seq<char>,
    cur: Cur,
    caps: Seq<(int, int)>,
    bt: Option<BT>,
) -> Option<(MatchOut, nat)>
    decreases f, 1int,
{
    if f == 0 {
        None
    } else {
        let f1 = (f - 1) as nat;
        let rngs = alt_ranges(ms);
        if oid < 0 || oid >= rngs.len() {
            Some((MatchOut { ok: false, caps: Seq::empty(), bt: None, cur }, f1))
        } else {
            let opt = ms.subrange(rngs[oid].0, rngs[oid].1);
            let skip = match bt {
                Some(BT::Group(so, st)) => oid < so || (so == oid && st.len() == 0),
                _ => false,
            };
            if skip {
                eval_options(f1, ms, oid + 1, s, cur, caps, bt)
            } else {
                let entry = Cur { pos: cur.pos, marks: cur.marks.push(cur.pos) };
                let start: (int, Cur, Seq<(int, int)>, Option<BT>, Seq<Frame>) = match bt {
                    Some(BT::Group(so, st)) => if so == oid {
                        (
                            st.last().resume_at,
                            st.last().cur,
                            st.last().caps,
                            Some(st.last().bt),
                            st.drop_last(),
                        )
                    } else {
                        (0, entry, Seq::empty(), None, Seq::empty())
                    },
                    _ => (0, entry, Seq::empty(), None, Seq::empty()),
                };
                match eval_match_loop(f1, opt, s, caps, start.0, start.1, start.2, start.3, start.4) {
                    None => None,
                    Some((lo, f2)) => {
                        let f3 = fuel_cap(f2, f1);
                        if lo.ok {
                            let capr = if lo.cur.marks.len() == 0 {
                                (0int, 0int)
                            } else {
                                (lo.cur.marks.last(), lo.cur.pos)
                            };
                            let newmarks = if lo.cur.marks.len() == 0 {
                                lo.cur.marks
                            } else {
                                lo.cur.marks.drop_last()
                            };
                            Some(
                                (
                                    MatchOut {
                                        ok: true,
                                        caps: seq![capr] + lo.caps,
                                        bt: Some(BT::Group(oid, lo.stack)),
                                        cur: Cur { pos: lo.cur.pos, marks: newmarks },
                                    },
                                    f3,
                                ),
                            )
                        } else {
                            eval_options(f3, ms, oid + 1, s, cur, caps, bt)
                        }
                    },
                }
            }
        }
    }
}

/// The capture list a child matcher sees: the enclosing captures, an empty
/// placeholder for the group being evaluated, then the group's own captures.
pub open spec fn all_caps(outer: Seq<(int, int)>, oc: Seq<(int, int)>) -> Seq<(int, int)> {
    outer + seq![(0int, 0int)] + oc
}

/// The first separator comes no earlier than the start of the scan and no
/// later than the end.
pub proof fn lemma_next_alt_bounds(ms: Seq<Matcher>, j: int)
    requires
        0 <= j <= ms.len(),
    ensures
        j <= next_alt(ms, j) <= ms.len(),
    decreases ms.len() - j,
{
    if j < ms.len() && !(ms[j] is Alternative) {
        lemma_next_alt_bounds(ms, j + 1);
    }
}

/// No separator stands before the first separator.
pub proof fn lemma_next_alt_no_alt(ms: Seq<Matcher>, j: int, t: int)
    requires
        0 <= j <= ms.len(),
        j <= t < next_alt(ms, j),
    ensures
        !(ms[t] is Alternative),
    decreases ms.len() - j,
{
    lemma_next_alt_bounds(ms, j);
    if j < ms.len() && !(ms[j] is Alternative) {
        if t > j {
            lemma_next_alt_no_alt(ms, j + 1, t);
        }
    }
}

/// Every alternative is a well-formed range of the body, and holds no
/// separator.
pub proof fn lemma_alt_ranges_from_wf(ms: Seq<Matcher>, j: int, k: int)
    requires
        0 <= j <= ms.len(),
        0 <= k < alt_ranges_from(ms, j).len(),
    ensures
        j <= alt_ranges_from(ms, j)[k].0 <= alt_ranges_from(ms, j)[k].1 <= ms.len(),
        forall|t: int|
            alt_ranges_from(ms, j)[k].0 <= t < alt_ranges_from(ms, j)[k].1 ==> !(#[trigger] ms[t]
                is Alternative),
    decreases ms.len() - j,
{
    lemma_next_alt_bounds(ms, j);
    let e = next_alt(ms, j);
    assert forall|t: int| j <= t < e implies !(#[trigger] ms[t] is Alternative) by {
        lemma_next_alt_no_alt(ms, j, t);
    }
    if e < ms.len() && k > 0 {
        lemma_alt_ranges_from_wf(ms, e + 1, k - 1);
    }
}

/// The unanchored search: try the pattern as an implicit group at position
/// `p`; on failure advance one position and retry while input remains. The
/// group's own capture is removed from the reported captures.
pub open spec fn eval_attempts(f: nat, ms: Seq<Matcher>, s: Seq<char>, p: int) -> Option<
    (RunOut, nat),
>
    decreases f,
{
    if f == 0 {
        None
    } else {
        let f1 = (f - 1) as nat;
        match eval_options(
            f1,
            ms,
            0,
            s,
            Cur { pos: p, marks: Seq::empty() },
            Seq::empty(),
            None,
        ) {
            None => None,
            Some((out, f2)) => {
                let f3 = fuel_cap(f2, f1);
                if out.ok {
                    Some(
                        (
                            RunOut {
                                ok: true,
                                start: p,
                                end: out.cur.pos,
                                caps: out.caps.drop_first(),
                            },
                            f3,
                        ),
                    )
                } else if p + 1 < s.len() {
                    eval_attempts(f3, ms, s, p + 1)
                } else {
                    Some((RunOut { ok: false, start: 0, end: 0, caps: Seq::empty() }, f3))
                }
            },
        }
    }
}

/// A cursor within bounds: its position between `lo` and `n`, its marks
/// between `lo` and the position.
pub open spec fn cur_ok(c: Cur, lo: int, n: int) -> bool {
    lo <= c.pos <= n && forall|k: int| 0 <= k < c.marks.len() ==> lo <= #[trigger] c.marks[k]
        <= c.pos
}

/// Capture ranges within the input.
pub open spec fn caps_ok(cs: Seq<(int, int)>, n: int) -> bool {
    forall|k: int| 0 <= k < cs.len() ==> 0 <= (#[trigger] cs[k]).0 <= cs[k].1 <= n
}

/// A handle whose stored cursors and captures are within bounds.
pub open spec fn bt_ok(b: BT, lo: int, n: int) -> bool
    decreases b,
{
    match b {
        BT::Range(_) => true,
        BT::Nothing => true,
        BT::Group(_, frames) => forall|k: int| 0 <= k < frames.len() ==> frame_ok(
            #[trigger] frames[k],
            lo,
            n,
        ),
    }
}

/// A frame whose cursor, captures and handle are within bounds.
pub open spec fn frame_ok(f: Frame, lo: int, n: int) -> bool
    decreases f,
{
    cur_ok(f.cur, lo, n) && caps_ok(f.caps, n) && bt_ok(f.bt, lo, n)
}

/// An optional handle within bounds.
pub open spec fn obt_ok(b: Option<BT>, lo: int, n: int) -> bool {
    match b {
        Some(x) => bt_ok(x, lo, n),
        None => true,
    }
}

/// Walking a back-reference keeps the cursor within bounds.
pub proof fn lemma_backref_ok(s: Seq<char>, pos: int, j: int, e: int, lo: int)
    requires
        lo <= pos <= s.len(),
    ensures
        lo <= eval_backref(s, pos, j, e).1 <= s.len(),
        eval_backref(s, pos, j, e).1 >= pos,
    decreases e - j,
{
    if j >= e || j >= s.len() || pos >= s.len() {
    } else if s[pos] != s[j] {
    } else {
        lemma_backref_ok(s, pos + 1, j + 1, e, lo);
    }
}

/// Evaluating a matcher keeps cursor, captures and handle within bounds.
pub proof fn lemma_eval_ok(
    f: nat,
    m: Matcher,
    s: Seq<char>,
    cur: Cur,
    caps: Seq<(int, int)>,
    bt: Option<BT>,
    lo: int,
    r: MatchOut,
    f2: nat,
)
    requires
        0 <= lo,
        cur_ok(cur, lo, s.len() as int),
        caps_ok(caps, s.len() as int),
        obt_ok(bt, lo, s.len() as int),
        eval(f, m, s, cur, caps, bt) == Some((r, f2)),
    ensures
        cur_ok(r.cur, lo, s.len() as int),
        caps_ok(r.caps, s.len() as int),
        obt_ok(r.bt, lo, s.len() as int),
    decreases f, 2int,
{
    let n = s.len() as int;
    match m {
        Matcher::SingleCharacter(c) => {},
        Matcher::StartOfString => {},
        Matcher::EndOfString => {},
        Matcher::Alternative => {},
        Matcher::Backreference(k) => {
            if k < caps.len() {
                lemma_backref_ok(s, cur.pos, caps[k as int].0, caps[k as int].1, lo);
            }
        },
        Matcher::Repeat { matcher, min, max } => {
            lemma_repeat_ok(f, *matcher, s, cur, caps, bt, min, max, 0, lo, r, f2);
        },
        Matcher::CaptureGroup(inner) => {
            lemma_options_ok(f, inner@, 0, s, cur, caps, bt, lo, r, f2);
        },
    }
}

/// The quantifier loop keeps cursor, captures and handle within bounds.
pub proof fn lemma_repeat_ok(
    f: nat,
    inner: Matcher,
    s: Seq<char>,
    cur: Cur,
    caps: Seq<(int, int)>,
    bt: Option<BT>,
    min: Option<usize>,
    max: Option<usize>,
    count: int,
    lo: int,
    r: MatchOut,
    f2: nat,
)
    requires
        0 <= lo,
        cur_ok(cur, lo, s.len() as int),
        caps_ok(caps, s.len() as int),
        obt_ok(bt, lo, s.len() as int),
        eval_repeat(f, inner, s, cur, caps, bt, min, max, count) == Some((r, f2)),
    ensures
        cur_ok(r.cur, lo, s.len() as int),
        caps_ok(r.caps, s.len() as int),
        obt_ok(r.bt, lo, s.len() as int),
    decreases f, 0int,
{
    let f1 = (f - 1) as nat;
    match eval(f1, inner, s, cur, caps, bt) {
        None => {},
        Some((ri, fi)) => {
            lemma_eval_ok(f1, inner, s, cur, caps, bt, lo, ri, fi);
            let f3 = fuel_cap(fi, f1);
            let limited = match bt {
                Some(BT::Range(nn)) => count + 1 >= nn,
                _ => false,
            };
            if !ri.ok || limited || ri.cur.pos <= cur.pos {
            } else {
                let maxhit = match max {
                    Some(mx) => count + 1 == mx,
                    None => false,
                };
                if maxhit {
                } else {
                    lemma_repeat_ok(f3, inner, s, ri.cur, caps, bt, min, max, count + 1, lo, r, f2);
                }
            }
        },
    }
}

/// One alternative's match loop keeps its state within bounds.
pub proof fn lemma_match_loop_ok(
    f: nat,
    opt: Seq<Matcher>,
    s: Seq<char>,
    outer: Seq<(int, int)>,
    i: int,
    cur: Cur,
    oc: Seq<(int, int)>,
    bti: Option<BT>,
    stack: Seq<Frame>,
    lo: int,
    r: LoopOut,
    f2: nat,
)
    requires
        0 <= lo,
        cur_ok(cur, lo, s.len() as int),
        caps_ok(outer, s.len() as int),
        caps_ok(oc, s.len() as int),
        obt_ok(bti, lo, s.len() as int),
        forall|k: int| 0 <= k < stack.len() ==> frame_ok(#[trigger] stack[k], lo, s.len() as int),
        eval_match_loop(f, opt, s, outer, i, cur, oc, bti, stack) == Some((r, f2)),
    ensures
        cur_ok(r.cur, lo, s.len() as int),
        caps_ok(r.caps, s.len() as int),
        forall|k: int| 0 <= k < r.stack.len() ==> frame_ok(#[trigger] r.stack[k], lo, s.len() as int),
    decreases f, 0int,
{
    let n = s.len() as int;
    let f1 = (f - 1) as nat;
    if i < 0 || i >= opt.len() {
    } else {
        let all = all_caps(outer, oc);
        assert(caps_ok(all, n)) by {
            assert(forall|k: int| 0 <= k < all.len() ==> 0 <= (#[trigger] all[k]).0 <= all[k].1
                <= n) by {
                assert forall|k: int| 0 <= k < all.len() implies 0 <= (#[trigger] all[k]).0
                    <= all[k].1 <= n by {
                    if k < outer.len() {
                        assert(all[k] == outer[k]);
                    } else if k == outer.len() {
                        assert(all[k] == (0int, 0int));
                    } else {
                        assert(all[k] == oc[k - outer.len() - 1]);
                    }
                }
            }
        }
        match eval(f1, opt[i], s, cur, all, bti) {
            None => {},
            Some((ri, fi)) => {
                lemma_eval_ok(f1, opt[i], s, cur, all, bti, lo, ri, fi);
                let f3 = fuel_cap(fi, f1);
                if ri.ok {
                    let stack2 = match ri.bt {
                        Some(h) => stack.push(Frame { cur, caps: oc, bt: h, resume_at: i }),
                        None => stack,
                    };
                    assert(forall|k: int| 0 <= k < stack2.len() ==> frame_ok(
                        #[trigger] stack2[k],
                        lo,
                        n,
                    ));
                    assert(caps_ok(oc + ri.caps, n));
                    lemma_match_loop_ok(
                        f3,
                        opt,
                        s,
                        outer,
                        i + 1,
                        ri.cur,
                        oc + ri.caps,
                        None,
                        stack2,
                        lo,
                        r,
                        f2,
                    );
                } else if stack.len() > 0 {
                    let fr = stack.last();
                    assert(frame_ok(fr, lo, n));
                    lemma_match_loop_ok(
                        f3,
                        opt,
                        s,
                        outer,
                        fr.resume_at,
                        fr.cur,
                        fr.caps,
                        Some(fr.bt),
                        stack.drop_last(),
                        lo,
                        r,
                        f2,
                    );
                } else {
                }
            },
        }
    }
}

/// Trying the alternatives keeps result, captures and handle within bounds.
pub proof fn lemma_options_ok(
    f: nat,
    ms: Seq<Matcher>,
    oid: int,
    s: Seq<char>,
    cur: Cur,
    caps: Seq<(int, int)>,
    bt: Option<BT>,
    lo: int,
    r: MatchOut,
    f2: nat,
)
    requires
        0 <= lo,
        cur_ok(cur, lo, s.len() as int),
        caps_ok(caps, s.len() as int),
        obt_ok(bt, lo, s.len() as int),
        eval_options(f, ms, oid, s, cur, caps, bt) == Some((r, f2)),
    ensures
        cur_ok(r.cur, lo, s.len() as int),
        caps_ok(r.caps, s.len() as int),
        obt_ok(r.bt, lo, s.len() as int),
        r.ok ==> r.caps.len() >= 1,
    decreases f, 1int,
{
    let n = s.len() as int;
    let f1 = (f - 1) as nat;
    let rngs = alt_ranges(ms);
    if oid < 0 || oid >= rngs.len() {
    } else {
        let opt = ms.subrange(rngs[oid].0, rngs[oid].1);
        let skip = match bt {
            Some(BT::Group(so, st)) => oid < so || (so == oid && st.len() == 0),
            _ => false,
        };
        if skip {
            lemma_options_ok(f1, ms, oid + 1, s, cur, caps, bt, lo, r, f2);
        } else {
            let entry = Cur { pos: cur.pos, marks: cur.marks.push(cur.pos) };
            let start: (int, Cur, Seq<(int, int)>, Option<BT>, Seq<Frame>) = match bt {
                Some(BT::Group(so, st)) => if so == oid {
                    (
                        st.last().resume_at,
                        st.last().cur,
                        st.last().caps,
                        Some(st.last().bt),
                        st.drop_last(),
                    )
                } else {
                    (0, entry, Seq::empty(), None, Seq::empty())
                },
                _ => (0, entry, Seq::empty(), None, Seq::empty()),
            };
            assert(cur_ok(entry, lo, n));
            assert(cur_ok(start.1, lo, n) && caps_ok(start.2, n) && obt_ok(start.3, lo, n)
                && forall|k: int| 0 <= k < start.4.len() ==> frame_ok(
                #[trigger] start.4[k],
                lo,
                n,
            )) by {
                match bt {
                    Some(BT::Group(so, st)) => {
                        if so == oid {
                            assert(frame_ok(st.last(), lo, n));
                            assert(forall|k: int| 0 <= k < st.drop_last().len() ==> frame_ok(
                                #[trigger] st.drop_last()[k],
                                lo,
                                n,
                            )) by {
                                assert forall|k: int|
                                    0 <= k < st.drop_last().len() implies frame_ok(
                                    #[trigger] st.drop_last()[k],
                                    lo,
                                    n,
                                ) by {
                                    assert(st.drop_last()[k] == st[k]);
                                    assert(frame_ok(st[k], lo, n));
                                }
                            }
                        }
                    },
                    _ => {},
                }
            }
            match eval_match_loop(f1, opt, s, caps, start.0, start.1, start.2, start.3, start.4) {
                None => {},
                Some((lout, fl)) => {
                    lemma_match_loop_ok(
                        f1,
                        opt,
                        s,
                        caps,
                        start.0,
                        start.1,
                        start.2,
                        start.3,
                        start.4,
                        lo,
                        lout,
                        fl,
                    );
                    let f3 = fuel_cap(fl, f1);
                    if lout.ok {
                        let capr = if lout.cur.marks.len() == 0 {
                            (0int, 0int)
                        } else {
                            (lout.cur.marks.last(), lout.cur.pos)
                        };
                        assert(caps_ok(seq![capr] + lout.caps, n));
                    } else {
                        lemma_options_ok(f3, ms, oid + 1, s, cur, caps, bt, lo, r, f2);
                    }
                },
            }
        }
    }
}

/// An unanchored search reports a span within the input, start before end,
/// and capture ranges within the input.
pub proof fn lemma_attempts_ok(f: nat, ms: Seq<Matcher>, s: Seq<char>, p: int, r: RunOut, f2: nat)
    requires
        0 <= p <= s.len(),
        eval_attempts(f, ms, s, p) == Some((r, f2)),
    ensures
        r.ok ==> 0 <= r.start <= r.end <= s.len(),
        !r.ok ==> r.start == 0 && r.end == 0,
        caps_ok(r.caps, s.len() as int),
    decreases f,
{
    let n = s.len() as int;
    let f1 = (f - 1) as nat;
    let c0 = Cur { pos: p, marks: Seq::<int>::empty() };
    match eval_options(f1, ms, 0, s, c0, Seq::empty(), None) {
        None => {},
        Some((out, fo)) => {
            assert(cur_ok(c0, p, n));
            assert(caps_ok(Seq::<(int, int)>::empty(), n));
            lemma_options_ok(f1, ms, 0, s, c0, Seq::empty(), None, p, out, fo);
            let f3 = fuel_cap(fo, f1);
            if out.ok {
                assert(caps_ok(out.caps.drop_first(), n)) by {
                    assert forall|k: int| 0 <= k < out.caps.drop_first().len() implies 0 <= (
                    #[trigger] out.caps.drop_first()[k]).0 <= out.caps.drop_first()[k].1 <= n by {
                        assert(out.caps.drop_first()[k] == out.caps[k + 1]);
                    }
                }
            } else if p + 1 < s.len() {
                lemma_attempts_ok(f3, ms, s, p + 1, r, f2);
            } else {
            }
        },
    }
}

/// A completed evaluation is stable under a larger budget: only the budget
/// left grows with it.
pub proof fn lemma_eval_mono(
    f: nat,
    d: nat,
    m: Matcher,
    s: Seq<char>,
    cur: Cur,
    caps: Seq<(int, int)>,
    bt: Option<BT>,
    o: MatchOut,
    rem: nat,
)
    requires
        eval(f, m, s, cur, caps, bt) == Some((o, rem)),
    ensures
        eval((f + d) as nat, m, s, cur, caps, bt) == Some((o, (rem + d) as nat)),
    decreases f, 2int,
{
    match m {
        Matcher::Repeat { matcher, min, max } => {
            lemma_repeat_mono(f, d, *matcher, s, cur, caps, bt, min, max, 0, o, rem);
        },
        Matcher::CaptureGroup(inner) => {
            lemma_options_mono(f, d, inner@, 0, s, cur, caps, bt, o, rem);
        },
        _ => {},
    }
}

/// A completed quantifier run is stable under a larger budget.
pub proof fn lemma_repeat_mono(
    f: nat,
    d: nat,
    inner: Matcher,
    s: Seq<char>,
    cur: Cur,
    caps: Seq<(int, int)>,
    bt: Option<BT>,
    min: Option<usize>,
    max: Option<usize>,
    count: int,
    o: MatchOut,
    rem: nat,
)
    requires
        eval_repeat(f, inner, s, cur, caps, bt, min, max, count) == Some((o, rem)),
    ensures
        eval_repeat((f + d) as nat, inner, s, cur, caps, bt, min, max, count) == Some(
            (o, (rem + d) as nat),
        ),
    decreases f, 0int,
{
    let f1 = (f - 1) as nat;
    match eval(f1, inner, s, cur, caps, bt) {
        None => {},
        Some((r, fi)) => {
            lemma_eval_mono(f1, d, inner, s, cur, caps, bt, r, fi);
            let f3 = fuel_cap(fi, f1);
            assert(fuel_cap((fi + d) as nat, (f1 + d) as nat) == (f3 + d) as nat);
            let limited = match bt {
                Some(BT::Range(n)) => count + 1 >= n,
                _ => false,
            };
            if !r.ok || limited || r.cur.pos <= cur.pos {
            } else {
                let maxhit = match max {
                    Some(mx) => count + 1 == mx,
                    None => false,
                };
                if !maxhit {
                    lemma_repeat_mono(f3, d, inner, s, r.cur, caps, bt, min, max, count + 1, o, rem);
                }
            }
        },
    }
}

/// A completed alternative run is stable under a larger budget.
pub proof fn lemma_match_loop_mono(
    f: nat,
    d: nat,
    opt: Seq<Matcher>,
    s: Seq<char>,
    outer: Seq<(int, int)>,
    i: int,
    cur: Cur,
    oc: Seq<(int, int)>,
    bti: Option<BT>,
    stack: Seq<Frame>,
    o: LoopOut,
    rem: nat,
)
    requires
        eval_match_loop(f, opt, s, outer, i, cur, oc, bti, stack) == Some((o, rem)),
    ensures
        eval_match_loop((f + d) as nat, opt, s, outer, i, cur, oc, bti, stack) == Some(
            (o, (rem + d) as nat),
        ),
    decreases f, 0int,
{
    let f1 = (f - 1) as nat;
    if i < 0 || i >= opt.len() {
    } else {
        match eval(f1, opt[i], s, cur, all_caps(outer, oc), bti) {
            None => {},
            Some((r, fi)) => {
                lemma_eval_mono(f1, d, opt[i], s, cur, all_caps(outer, oc), bti, r, fi);
                let f3 = fuel_cap(fi, f1);
                assert(fuel_cap((fi + d) as nat, (f1 + d) as nat) == (f3 + d) as nat);
                if r.ok {
                    let stack2 = match r.bt {
                        Some(h) => stack.push(Frame { cur, caps: oc, bt: h, resume_at: i }),
                        None => stack,
                    };
                    lemma_match_loop_mono(
                        f3,
                        d,
                        opt,
                        s,
                        outer,
                        i + 1,
                        r.cur,
                        oc + r.caps,
                        None,
                        stack2,
                        o,
                        rem,
                    );
                } else if stack.len() > 0 {
                    let fr = stack.last();
                    lemma_match_loop_mono(
                        f3,
                        d,
                        opt,
                        s,
                        outer,
                        fr.resume_at,
                        fr.cur,
                        fr.caps,
                        Some(fr.bt),
                        stack.drop_last(),
                        o,
                        rem,
                    );
                } else {
                }
            },
        }
    }
}

/// A completed group run is stable under a larger budget.
pub proof fn lemma_options_mono(
    f: nat,
    d: nat,
    ms: Seq<Matcher>,
    oid: int,
    s: Seq<char>,
    cur: Cur,
    caps: Seq<(int, int)>,
    bt: Option<BT>,
    o: MatchOut,
    rem: nat,
)
    requires
        eval_options(f, ms, oid, s, cur, caps, bt) == Some((o, rem)),
    ensures
        eval_options((f + d) as nat, ms, oid, s, cur, caps, bt) == Some((o, (rem + d) as nat)),
    decreases f, 1int,
{
    let f1 = (f - 1) as nat;
    let rngs = alt_ranges(ms);
    if oid < 0 || oid >= rngs.len() {
    } else {
        let opt = ms.subrange(rngs[oid].0, rngs[oid].1);
        let skip = match bt {
            Some(BT::Group(so, st)) => oid < so || (so == oid && st.len() == 0),
            _ => false,
        };
        if skip {
            lemma_options_mono(f1, d, ms, oid + 1, s, cur, caps, bt, o, rem);
        } else {
            let entry = Cur { pos: cur.pos, marks: cur.marks.push(cur.pos) };
            let start: (int, Cur, Seq<(int, int)>, Option<BT>, Seq<Frame>) = match bt {
                Some(BT::Group(so, st)) => if so == oid {
                    (
                        st.last().resume_at,
                        st.last().cur,
                        st.last().caps,
                        Some(st.last().bt),
                        st.drop_last(),
                    )
                } else {
                    (0, entry, Seq::empty(), None, Seq::empty())
                },
                _ => (0, entry, Seq::empty(), None, Seq::empty()),
            };
            match eval_match_loop(f1, opt, s, caps, start.0, start.1, start.2, start.3, start.4) {
                None => {},
                Some((lo, fl)) => {
                    lemma_match_loop_mono(
                        f1,
                        d,
                        opt,
                        s,
                        caps,
                        start.0,
                        start.1,
                        start.2,
                        start.3,
                        start.4,
                        lo,
                        fl,
                    );
                    let f3 = fuel_cap(fl, f1);
                    assert(fuel_cap((fl + d) as nat, (f1 + d) as nat) == (f3 + d) as nat);
                    if lo.ok {
                    } else {
                        lemma_options_mono(f3, d, ms, oid + 1, s, cur, caps, bt, o, rem);
                    }
                },
            }
        }
    }
}

/// A completed search is stable under a larger budget.
pub proof fn lemma_attempts_mono(
    f: nat,
    d: nat,
    ms: Seq<Matcher>,
    s: Seq<char>,
    p: int,
    o: RunOut,
    rem: nat,
)
    requires
        eval_attempts(f, ms, s, p) == Some((o, rem)),
    ensures
        eval_attempts((f + d) as nat, ms, s, p) == Some((o, (rem + d) as nat)),
    decreases f,
{
    let f1 = (f - 1) as nat;
    let c0 = Cur { pos: p, marks: Seq::<int>::empty() };
    match eval_options(f1, ms, 0, s, c0, Seq::empty(), None) {
        None => {},
        Some((out, fo)) => {
            lemma_options_mono(f1, d, ms, 0, s, c0, Seq::empty(), None, out, fo);
            let f3 = fuel_cap(fo, f1);
            assert(fuel_cap((fo + d) as nat, (f1 + d) as nat) == (f3 + d) as nat);
            if out.ok {
            } else if p + 1 < s.len() {
                lemma_attempts_mono(f3, d, ms, s, p + 1, o, rem);
            } else {
            }
        },
    }
}

/// The unanchored search started at position 0.
pub open spec fn eval_run(f: nat, ms: Seq<Matcher>, s: Seq<char>) -> Option<(RunOut, nat)> {
    eval_attempts(f, ms, s, 0)
}

/// What a compiled pattern reports for an input line: the search under the
/// step budget, an exhausted budget reported as no match.
pub open spec fn run_result(ms: Seq<Matcher>, s: Seq<char>) -> RunOut {
    match eval_run(STEP_LIMIT as nat, ms, s) {
        None => RunOut { ok: false, start: 0, end: 0, caps: Seq::empty() },
        Some((o, f)) => o,
    }
}

} // verus!
