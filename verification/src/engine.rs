//! The matcher engine: evaluates a parsed pattern tree against an input
//! line, with capture groups, alternation, greedy quantifiers that give
//! matches back, and back-references. Each function returns exactly what the
//! step-indexed semantics in `sem` describes, and `None` when the step
//! budget runs out.

use vstd::prelude::*;

use crate::ast::evaluable;
use crate::ast::group_wf;
use crate::ast::Matcher;
use crate::backtrack::build_all;
use crate::backtrack::caps_view;
use crate::backtrack::clone_caps;
use crate::backtrack::clone_frames;
use crate::backtrack::clone_obt;
use crate::backtrack::frame_view;
use crate::backtrack::frames_view;
use crate::backtrack::lemma_frames_view_len;
use crate::backtrack::lemma_frames_view_pop;
use crate::backtrack::lemma_frames_view_push;
use crate::backtrack::obt_view;
use crate::backtrack::BacktrackInfo;
use crate::backtrack::Frame;
use crate::backtrack::GroupBacktrackState;
use crate::backtrack::BT;
use crate::cursor::BufferedIterator;
use crate::cursor::Cur;
use crate::sem::all_caps;
use crate::sem::alt_ranges;
use crate::sem::alt_ranges_from;
use crate::sem::eval;
use crate::sem::eval_backref;
use crate::sem::eval_match_loop;
use crate::sem::eval_options;
use crate::sem::eval_repeat;
use crate::sem::lemma_alt_ranges_from_wf;
use crate::sem::next_alt;
use crate::sem::repeat_finish;
use crate::sem::LoopOut;
use crate::sem::MatchOut;

verus! {

/// Index ranges as mathematical integers.
pub open spec fn ranges_view(v: Seq<(usize, usize)>) -> Seq<(int, int)> {
    Seq::new(v.len(), |k: int| (v[k].0 as int, v[k].1 as int))
}

/// Whether an engine result is the one the semantics describes, given the
/// cursor and budget after the call.
pub open spec fn res_matches(
    r: Option<(bool, Vec<(usize, usize)>, Option<BacktrackInfo>)>,
    e: Option<(MatchOut, nat)>,
    cur_after: Cur,
    fuel_after: nat,
) -> bool {
    match r {
        Some(t) => e == Some(
            (
                MatchOut { ok: t.0, caps: caps_view(t.1@), bt: obt_view(t.2), cur: cur_after },
                fuel_after,
            ),
        ),
        None => e is None,
    }
}

/// Split a group body into its alternatives: the index ranges between
/// alternation separators.
#[verifier::loop_isolation(false)]
fn split_options(inner: &Vec<Matcher>) -> (r: Vec<(usize, usize)>)
    ensures
        ranges_view(r@) == alt_ranges(inner@),
{
    let n = inner.len();
    let mut r: Vec<(usize, usize)> = Vec::new();
    let mut j: usize = 0;
    loop
        invariant
            j <= n,
            alt_ranges(inner@) == ranges_view(r@) + alt_ranges_from(inner@, j as int),
        decreases n - j,
    {
        let mut e: usize = j;
        let mut found = false;
        while !found && e < n
            invariant
                j <= e <= n,
                next_alt(inner@, j as int) == next_alt(inner@, e as int),
                found ==> e < n && inner@[e as int] is Alternative,
            decreases n - e, (if found { 0int } else { 1int }),
        {
            let is_alt = match &inner[e] {
                Matcher::Alternative => true,
                _ => false,
            };
            if is_alt {
                found = true;
            } else {
                e = e + 1;
            }
        }
        proof {
            assert(next_alt(inner@, j as int) == e as int);
        }
        let ghost pre = ranges_view(r@);
        if e < n {
            r.push((j, e));
            proof {
                assert(ranges_view(r@) =~= pre.push((j as int, e as int)));
                assert(pre + (seq![(j as int, e as int)] + alt_ranges_from(inner@, e as int + 1))
                    =~= ranges_view(r@) + alt_ranges_from(inner@, e as int + 1));
            }
            j = e + 1;
        } else {
            r.push((j, n));
            proof {
                assert(ranges_view(r@) =~= pre.push((j as int, n as int)));
                assert(pre + seq![(j as int, n as int)] =~= ranges_view(r@));
            }
            return r;
        }
    }
}

impl Matcher {
    /// Evaluate this matcher at the cursor. `caps` are the captures closed
    /// so far, `bt` an optional resumption handle from an earlier success,
    /// and `fuel` the remaining step budget; `None` reports an exhausted
    /// budget. The result, the new cursor, and the budget left are exactly
    /// those of the step-indexed semantics.
    #[verifier::loop_isolation(false)]
    pub fn test(
        &self,
        s: &Vec<char>,
        cur: &mut BufferedIterator,
        caps: &Vec<(usize, usize)>,
        bt: Option<BacktrackInfo>,
        fuel: &mut u64,
    ) -> (r: Option<(bool, Vec<(usize, usize)>, Option<BacktrackInfo>)>)
        requires
            evaluable(*self),
        ensures
            *final(fuel) <= *old(fuel),
            final(cur).start == old(cur).start,
            res_matches(
                r,
                eval(*old(fuel) as nat, *self, s@, old(cur)@, caps_view(caps@), obt_view(bt)),
                final(cur)@,
                *final(fuel) as nat,
            ),
        decreases *self, 1int,
    {
        proof {
            assert(caps_view(Seq::<(usize, usize)>::empty()) =~= Seq::<(int, int)>::empty());
        }
        match self {
            Matcher::SingleCharacter(c) => {
                let r = match cur.next(s) {
                    Some((_idx, ch)) => c.test(ch),
                    None => false,
                };
                Some((r, Vec::new(), None))
            },
            Matcher::StartOfString => Some((cur.pos == 0, Vec::new(), None)),
            Matcher::EndOfString => Some((cur.pos >= s.len(), Vec::new(), None)),
            Matcher::Backreference(k) => {
                if *k >= caps.len() {
                    Some((false, Vec::new(), None))
                } else {
                    let (a, b) = caps[*k];
                    proof {
                        assert(caps_view(caps@)[*k as int] == (a as int, b as int));
                    }
                    let ghost pos0: int = cur@.pos;
                    let mut j = a;
                    let mut ok = true;
                    let mut going = true;
                    while going
                        invariant
                            cur.start == old(cur).start,
                            cur@.marks == old(cur)@.marks,
                            going ==> ok && eval_backref(s@, pos0, a as int, b as int)
                                == eval_backref(s@, cur@.pos, j as int, b as int),
                            !going ==> (ok, cur@.pos) == eval_backref(s@, pos0, a as int, b as int),
                        decreases (if j <= b { b - j } else { 0int }), (if going { 1int } else { 0int }),
                    {
                        if j >= b {
                            going = false;
                        } else if j >= s.len() {
                            ok = false;
                            going = false;
                        } else {
                            let expected = s[j];
                            match cur.next(s) {
                                None => {
                                    ok = false;
                                    going = false;
                                },
                                Some((_, ch)) => {
                                    if ch != expected {
                                        ok = false;
                                        going = false;
                                    } else {
                                        j = j + 1;
                                    }
                                },
                            }
                        }
                    }
                    Some((ok, Vec::new(), None))
                }
            },
            Matcher::Alternative => {
                proof {
                    assert(false);
                }
                None
            },
            Matcher::CaptureGroup(inner) => Self::test_group(inner, s, cur, caps, bt, fuel),
            Matcher::Repeat { matcher, min, max } => {
                let ghost f0: nat = *fuel as nat;
                let ghost cv0: Cur = cur@;
                let ghost capsv = caps_view(caps@);
                let ghost btv = obt_view(bt);
                let ghost pos0: int = cur@.pos;
                let mut count: usize = 0;
                loop
                    invariant
                        *fuel as nat <= f0,
                        cur.start == old(cur).start,
                        count as int <= cur@.pos - pos0,
                        eval_repeat(f0, **matcher, s@, cv0, capsv, btv, *min, *max, 0)
                            == eval_repeat(
                            *fuel as nat,
                            **matcher,
                            s@,
                            cur@,
                            capsv,
                            btv,
                            *min,
                            *max,
                            count as int,
                        ),
                    decreases *fuel,
                {
                    if *fuel == 0 {
                        return None;
                    }
                    let ghost fe: nat = *fuel as nat;
                    *fuel = *fuel - 1;
                    let ghost cvh: Cur = cur@;
                    let ghost ch: int = count as int;
                    let mut shadow = cur.clone();
                    let b2 = clone_obt(&bt);
                    match (**matcher).test(s, &mut shadow, caps, b2, fuel) {
                        None => {
                            return None;
                        },
                        Some((ok, _newcaps, _handle)) => {
                            let limited = match &bt {
                                Some(BacktrackInfo::Range(n)) => *n == 0 || count >= *n - 1,
                                _ => false,
                            };
                            let stalled = shadow.pos <= cur.pos;
                            if !ok || limited || stalled {
                                proof {
                                    assert(eval_repeat(
                                        fe,
                                        **matcher,
                                        s@,
                                        cvh,
                                        capsv,
                                        btv,
                                        *min,
                                        *max,
                                        ch,
                                    ) == Some((repeat_finish(*min, ch, cvh), *fuel as nat)));
                                }
                                let minfail = match min {
                                    Some(mn) => count < *mn,
                                    None => false,
                                };
                                if minfail {
                                    return Some((false, Vec::new(), None));
                                } else if count > 0 {
                                    return Some(
                                        (true, Vec::new(), Some(BacktrackInfo::Range(count))),
                                    );
                                } else {
                                    return Some((true, Vec::new(), None));
                                }
                            }
                            *cur = shadow;
                            count = count + 1;
                            let maxhit = match max {
                                Some(mx) => count == *mx,
                                None => false,
                            };
                            if maxhit {
                                proof {
                                    assert(eval_repeat(
                                        fe,
                                        **matcher,
                                        s@,
                                        cvh,
                                        capsv,
                                        btv,
                                        *min,
                                        *max,
                                        ch,
                                    ) == Some((repeat_finish(*min, ch + 1, cur@), *fuel as nat)));
                                }
                                let minfail = match min {
                                    Some(mn) => count < *mn,
                                    None => false,
                                };
                                if minfail {
                                    return Some((false, Vec::new(), None));
                                } else {
                                    return Some(
                                        (true, Vec::new(), Some(BacktrackInfo::Range(count))),
                                    );
                                }
                            }
                            proof {
                                assert(eval_repeat(fe, **matcher, s@, cvh, capsv, btv, *min, *max, ch)
                                    == eval_repeat(
                                    *fuel as nat,
                                    **matcher,
                                    s@,
                                    cur@,
                                    capsv,
                                    btv,
                                    *min,
                                    *max,
                                    count as int,
                                ));
                            }
                        },
                    }
                }
            },
        }
    }

    /// Evaluate a group body: try each alternative in turn, resuming or
    /// skipping the one a handle names, backtracking inside an alternative
    /// through the frames pushed as its children succeed.
    #[verifier::loop_isolation(false)]
    pub fn test_group(
        inner: &Vec<Matcher>,
        s: &Vec<char>,
        cur: &mut BufferedIterator,
        caps: &Vec<(usize, usize)>,
        bt: Option<BacktrackInfo>,
        fuel: &mut u64,
    ) -> (r: Option<(bool, Vec<(usize, usize)>, Option<BacktrackInfo>)>)
        requires
            group_wf(inner@),
        ensures
            *final(fuel) <= *old(fuel),
            final(cur).start == old(cur).start,
            res_matches(
                r,
                eval_options(
                    *old(fuel) as nat,
                    inner@,
                    0,
                    s@,
                    old(cur)@,
                    caps_view(caps@),
                    obt_view(bt),
                ),
                final(cur)@,
                *final(fuel) as nat,
            ),
        decreases inner@, 0int,
    {
        proof {
            assert(caps_view(Seq::<(usize, usize)>::empty()) =~= Seq::<(int, int)>::empty());
        }
        let ranges = split_options(inner);
        let ghost f0: nat = *fuel as nat;
        let ghost cur0: Cur = cur@;
        let ghost capsv = caps_view(caps@);
        let ghost btv = obt_view(bt);
        let mut oid: usize = 0;
        loop
            invariant
                *fuel as nat <= f0,
                cur@ == cur0,
                cur.start == old(cur).start,
                eval_options(f0, inner@, 0, s@, cur0, capsv, btv) == eval_options(
                    *fuel as nat,
                    inner@,
                    oid as int,
                    s@,
                    cur0,
                    capsv,
                    btv,
                ),
            decreases *fuel,
        {
            if *fuel == 0 {
                return None;
            }
            let ghost fe: nat = *fuel as nat;
            *fuel = *fuel - 1;
            if oid >= ranges.len() {
                proof {
                    assert(alt_ranges(inner@).len() == ranges@.len());
                }
                return Some((false, Vec::new(), None));
            }
            let (rs, re) = ranges[oid];
            proof {
                lemma_alt_ranges_from_wf(inner@, 0, oid as int);
                assert(alt_ranges(inner@)[oid as int] == (rs as int, re as int));
            }
            let ghost opt: Seq<Matcher> = inner@.subrange(rs as int, re as int);
            let mut resume = false;
            let mut skip = false;
            match &bt {
                Some(BacktrackInfo::Group(so, st)) => {
                    proof {
                        lemma_frames_view_len(st@);
                    }
                    if oid < *so {
                        skip = true;
                    } else if *so == oid {
                        if st.len() == 0 {
                            skip = true;
                        } else {
                            resume = true;
                        }
                    }
                },
                _ => {},
            }
            if skip {
                oid = oid + 1;
                continue;
            }
            let mut buffered = cur.clone();
            buffered.subdivide();
            let mut i: usize = 0;
            let mut our: Vec<(usize, usize)> = Vec::new();
            let mut bti: Option<BacktrackInfo> = None;
            let mut stack: Vec<GroupBacktrackState> = Vec::new();
            if resume {
                match &bt {
                    Some(BacktrackInfo::Group(_so, st)) => {
                        proof {
                            lemma_frames_view_len(st@);
                            lemma_frames_view_pop(st@);
                        }
                        stack = clone_frames(st);
                        proof {
                            lemma_frames_view_len(stack@);
                            lemma_frames_view_pop(stack@);
                        }
                        let ghost stfull = stack@;
                        match stack.pop() {
                            Some(fr) => {
                                proof {
                                    assert(frame_view(fr) == frames_view(st@).last());
                                    assert(frames_view(stack@) == frames_view(st@).drop_last());
                                }
                                buffered = fr.input;
                                our = fr.captures;
                                bti = Some(fr.backtrack);
                                i = fr.resume_at;
                            },
                            None => {
                                proof {
                                    assert(false);
                                }
                            },
                        }
                    },
                    _ => {
                        proof {
                            assert(false);
                        }
                    },
                }
            }
            let mut all = build_all(caps, &our);
            let ghost fml: nat = *fuel as nat;
            let ghost st0: (int, Cur, Seq<(int, int)>, Option<BT>, Seq<Frame>) = (
                i as int,
                buffered@,
                caps_view(our@),
                obt_view(bti),
                frames_view(stack@),
            );
            let mut failed = false;
            let mut done = false;
            while !done
                invariant
                    *fuel as nat <= fml,
                    !done ==> caps_view(all@) == all_caps(capsv, caps_view(our@)),
                    !done ==> eval_match_loop(fml, opt, s@, capsv, st0.0, st0.1, st0.2, st0.3, st0.4)
                        == eval_match_loop(
                        *fuel as nat,
                        opt,
                        s@,
                        capsv,
                        i as int,
                        buffered@,
                        caps_view(our@),
                        obt_view(bti),
                        frames_view(stack@),
                    ),
                    !done ==> !failed,
                    done && !failed ==> eval_match_loop(
                        fml,
                        opt,
                        s@,
                        capsv,
                        st0.0,
                        st0.1,
                        st0.2,
                        st0.3,
                        st0.4,
                    ) == Some(
                        (
                            LoopOut {
                                ok: true,
                                cur: buffered@,
                                caps: caps_view(our@),
                                stack: frames_view(stack@),
                            },
                            *fuel as nat,
                        ),
                    ),
                    done && failed ==> eval_match_loop(
                        fml,
                        opt,
                        s@,
                        capsv,
                        st0.0,
                        st0.1,
                        st0.2,
                        st0.3,
                        st0.4,
                    ) == Some(
                        (
                            LoopOut {
                                ok: false,
                                cur: buffered@,
                                caps: Seq::<(int, int)>::empty(),
                                stack: Seq::<Frame>::empty(),
                            },
                            *fuel as nat,
                        ),
                    ),
                decreases *fuel, (if done { 0int } else { 1int }),
            {
                if *fuel == 0 {
                    return None;
                }
                let ghost fme: nat = *fuel as nat;
                *fuel = *fuel - 1;
                if i >= re - rs {
                    done = true;
                    continue;
                }
                let m = &inner[rs + i];
                proof {
                    assert(opt[i as int] == inner@[rs + i]);
                    assert(evaluable(inner@[rs + i]));
                }
                let saved_cur = buffered.clone();
                let saved_caps = clone_caps(&our);
                let ghost btih = obt_view(bti);
                let bnow = bti;
                bti = None;
                let ghost bufh: Cur = buffered@;
                let ghost ourh = caps_view(our@);
                let r = m.test(s, &mut buffered, &all, bnow, fuel);
                match r {
                    None => {
                        return None;
                    },
                    Some((ok, newcaps, handle)) => {
                        if ok {
                            let ghost our_pre = caps_view(our@);
                            proof {
                                assert(caps_view(newcaps@.subrange(0, 0)) =~= Seq::<(int, int)>::empty());
                                assert(our_pre + Seq::<(int, int)>::empty() =~= our_pre);
                            }
                            let mut k: usize = 0;
                            while k < newcaps.len()
                                invariant
                                    k <= newcaps@.len(),
                                    caps_view(our@) == our_pre + caps_view(
                                        newcaps@.subrange(0, k as int),
                                    ),
                                    caps_view(all@) == all_caps(capsv, caps_view(our@)),
                                decreases newcaps@.len() - k,
                            {
                                let x = newcaps[k];
                                let ghost xi: (int, int) = (x.0 as int, x.1 as int);
                                let ghost ourg = caps_view(our@);
                                let ghost allg = caps_view(all@);
                                our.push(x);
                                all.push(x);
                                proof {
                                    assert(caps_view(our@) =~= ourg.push(xi));
                                    assert(caps_view(all@) =~= allg.push(xi));
                                    assert(newcaps@.subrange(0, k + 1) =~= newcaps@.subrange(
                                        0,
                                        k as int,
                                    ).push(newcaps@[k as int]));
                                    assert(caps_view(newcaps@.subrange(0, k + 1)) =~= caps_view(
                                        newcaps@.subrange(0, k as int),
                                    ).push(xi));
                                    assert(ourg.push(xi) =~= our_pre + caps_view(
                                        newcaps@.subrange(0, k + 1),
                                    ));
                                    assert(allg.push(xi) =~= all_caps(capsv, caps_view(our@)));
                                }
                                k = k + 1;
                            }
                            proof {
                                assert(newcaps@.subrange(0, newcaps@.len() as int) =~= newcaps@);
                            }
                            match handle {
                                Some(h) => {
                                    let fr = GroupBacktrackState {
                                        input: saved_cur,
                                        captures: saved_caps,
                                        backtrack: h,
                                        resume_at: i,
                                    };
                                    proof {
                                        lemma_frames_view_push(stack@, fr);
                                    }
                                    stack.push(fr);
                                },
                                None => {},
                            }
                            i = i + 1;
                        } else {
                            let ghost stf = stack@;
                            match stack.pop() {
                                Some(fr) => {
                                    proof {
                                        lemma_frames_view_len(stf);
                                        lemma_frames_view_pop(stf);
                                    }
                                    proof {
                                        assert(frame_view(fr) == frames_view(stf).last());
                                        assert(frames_view(stack@) == frames_view(stf).drop_last());
                                    }
                                    buffered = fr.input;
                                    our = fr.captures;
                                    bti = Some(fr.backtrack);
                                    i = fr.resume_at;
                                    all = build_all(caps, &our);
                                },
                                None => {
                                    failed = true;
                                    done = true;
                                },
                            }
                        }
                    },
                }
            }
            if failed {
                oid = oid + 1;
                continue;
            }
            let ghost lov: Cur = buffered@;
            let capt: (usize, usize) = match buffered.pop_divided() {
                Some(p) => p,
                None => (0, 0),
            };
            buffered.start = cur.start;
            let ghost ourv = caps_view(our@);
            let mut result_caps = our;
            result_caps.insert(0, capt);
            proof {
                assert(caps_view(result_caps@) =~= seq![(capt.0 as int, capt.1 as int)] + ourv);
            }
            let handle = Some(BacktrackInfo::Group(oid, stack));
            *cur = buffered;
            return Some((true, result_caps, handle));
        }
    }
}

} // verus!
