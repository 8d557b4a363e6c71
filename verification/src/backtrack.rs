//! Backtracking state: the resumption handles that matchers hand back, and
//! the frames a capture group keeps so that it can unwind a failed match.

use vstd::prelude::*;

use crate::cursor::BufferedIterator;
use crate::cursor::Cur;

verus! {

/// The ghost form of a resumption handle.
pub ghost enum BT {
    /// A quantifier took this many repetitions; a retry must take fewer.
    Range(int),
    /// A capture group was inside this alternative, with this frame stack.
    Group(int, Seq<Frame>),
    /// No retry information.
    Nothing,
}

/// The ghost form of one backtrack frame: the state a capture group restores
/// before it re-runs the matcher at `resume_at` with handle `bt`.
pub ghost struct Frame {
    pub cur: Cur,
    pub caps: Seq<(int, int)>,
    pub bt: BT,
    pub resume_at: int,
}

/// A resumption handle: what a matcher needs in order to produce its next
/// alternative result instead of its first.
#[derive(Debug)]
pub enum BacktrackInfo {
    /// A quantifier took this many repetitions.
    Range(usize),
    /// A capture group was inside this alternative, with this frame stack.
    Group(usize, Vec<GroupBacktrackState>),
    /// No retry information.
    Nothing,
}

/// One backtrack frame of a capture group.
#[derive(Debug)]
pub struct GroupBacktrackState {
    /// The cursor before the matcher ran.
    pub input: BufferedIterator,
    /// The group's own captures before the matcher ran.
    pub captures: Vec<(usize, usize)>,
    /// The handle with which to re-run that matcher.
    pub backtrack: BacktrackInfo,
    /// The index of that matcher within its alternative.
    pub resume_at: usize,
}

/// Capture ranges as mathematical integers.
pub open spec fn caps_view(v: Seq<(usize, usize)>) -> Seq<(int, int)> {
    Seq::new(v.len(), |k: int| (v[k].0 as int, v[k].1 as int))
}

/// The ghost form of a handle.
pub open spec fn bt_view(b: BacktrackInfo) -> BT
    decreases b,
{
    match b {
        BacktrackInfo::Range(n) => BT::Range(n as int),
        BacktrackInfo::Group(oid, stack) => BT::Group(oid as int, frames_view(stack@)),
        BacktrackInfo::Nothing => BT::Nothing,
    }
}

/// The ghost form of a frame stack.
pub open spec fn frames_view(v: Seq<GroupBacktrackState>) -> Seq<Frame>
    decreases v,
{
    if v.len() == 0 {
        Seq::empty()
    } else {
        frames_view(v.drop_last()).push(frame_view(v.last()))
    }
}

/// The ghost form of one frame.
pub open spec fn frame_view(f: GroupBacktrackState) -> Frame
    decreases f,
{
    Frame {
        cur: f.input@,
        caps: caps_view(f.captures@),
        bt: bt_view(f.backtrack),
        resume_at: f.resume_at as int,
    }
}

/// The ghost form of an optional handle.
pub open spec fn obt_view(b: Option<BacktrackInfo>) -> Option<BT> {
    match b {
        Some(x) => Some(bt_view(x)),
        None => None,
    }
}

/// The view of a stack keeps its length.
pub proof fn lemma_frames_view_len(v: Seq<GroupBacktrackState>)
    ensures
        frames_view(v).len() == v.len(),
    decreases v,
{
    if v.len() > 0 {
        lemma_frames_view_len(v.drop_last());
    }
}

/// Popping the top frame commutes with the view of the stack.
pub proof fn lemma_frames_view_pop(v: Seq<GroupBacktrackState>)
    requires
        v.len() > 0,
    ensures
        frames_view(v.drop_last()) == frames_view(v).drop_last(),
        frame_view(v.last()) == frames_view(v).last(),
{
    assert(frames_view(v.drop_last()).push(frame_view(v.last())).drop_last() =~= frames_view(
        v.drop_last(),
    ));
}

/// Viewing a pushed frame commutes with the view of the stack.
pub proof fn lemma_frames_view_push(v: Seq<GroupBacktrackState>, f: GroupBacktrackState)
    ensures
        frames_view(v.push(f)) == frames_view(v).push(frame_view(f)),
{
    assert(v.push(f).drop_last() =~= v);
    assert(v.push(f).last() == f);
}

/// Copy a capture list.
pub fn clone_caps(v: &Vec<(usize, usize)>) -> (r: Vec<(usize, usize)>)
    ensures
        r@ == v@,
{
    let mut r: Vec<(usize, usize)> = Vec::new();
    let mut k: usize = 0;
    while k < v.len()
        invariant
            k <= v@.len(),
            r@ == v@.subrange(0, k as int),
        decreases v@.len() - k,
    {
        r.push(v[k]);
        proof {
            assert(r@ =~= v@.subrange(0, k + 1));
        }
        k = k + 1;
    }
    proof {
        assert(r@ =~= v@);
    }
    r
}

/// Copy a frame stack.
pub fn clone_frames(v: &Vec<GroupBacktrackState>) -> (r: Vec<GroupBacktrackState>)
    ensures
        frames_view(r@) == frames_view(v@),
    decreases v@,
{
    let mut r: Vec<GroupBacktrackState> = Vec::new();
    let mut k: usize = 0;
    while k < v.len()
        invariant
            k <= v@.len(),
            r@.len() == k,
            frames_view(r@) == frames_view(v@.subrange(0, k as int)),
        decreases v@.len() - k,
    {
        let f = v[k].clone();
        proof {
            lemma_frames_view_push(r@, f);
            lemma_frames_view_push(v@.subrange(0, k as int), v@[k as int]);
            assert(v@.subrange(0, k as int).push(v@[k as int]) =~= v@.subrange(0, k + 1));
        }
        r.push(f);
        k = k + 1;
    }
    proof {
        assert(v@.subrange(0, k as int) =~= v@);
    }
    r
}

/// Copy an optional handle.
pub fn clone_obt(b: &Option<BacktrackInfo>) -> (r: Option<BacktrackInfo>)
    ensures
        obt_view(r) == obt_view(*b),
{
    match b {
        Some(x) => Some(x.clone()),
        None => None,
    }
}

/// The capture list a child matcher sees, built from the enclosing captures
/// and the group's own captures, with the empty placeholder between them.
pub fn build_all(outer: &Vec<(usize, usize)>, oc: &Vec<(usize, usize)>) -> (r: Vec<
    (usize, usize),
>)
    ensures
        caps_view(r@) == crate::sem::all_caps(caps_view(outer@), caps_view(oc@)),
{
    let mut r = clone_caps(outer);
    r.push((0, 0));
    let mut k: usize = 0;
    while k < oc.len()
        invariant
            k <= oc@.len(),
            r@ == outer@.push((0usize, 0usize)) + oc@.subrange(0, k as int),
        decreases oc@.len() - k,
    {
        r.push(oc[k]);
        proof {
            assert(r@ =~= outer@.push((0usize, 0usize)) + oc@.subrange(0, k + 1));
        }
        k = k + 1;
    }
    proof {
        assert(oc@.subrange(0, oc@.len() as int) =~= oc@);
        assert(caps_view(r@) =~= crate::sem::all_caps(caps_view(outer@), caps_view(oc@)));
    }
    r
}

impl Clone for GroupBacktrackState {
    /// A cloned frame restores the same state.
    fn clone(&self) -> (r: Self)
        ensures
            frame_view(r) == frame_view(*self),
        decreases *self,
    {
        GroupBacktrackState {
            input: self.input.clone(),
            captures: clone_caps(&self.captures),
            backtrack: self.backtrack.clone(),
            resume_at: self.resume_at,
        }
    }
}

impl Clone for BacktrackInfo {
    /// A cloned handle resumes the same way.
    fn clone(&self) -> (r: Self)
        ensures
            bt_view(r) == bt_view(*self),
        decreases *self,
    {
        match self {
            BacktrackInfo::Range(n) => BacktrackInfo::Range(*n),
            BacktrackInfo::Nothing => BacktrackInfo::Nothing,
            BacktrackInfo::Group(oid, stack) => BacktrackInfo::Group(*oid, clone_frames(stack)),
        }
    }
}

} // verus!
