//! A cursor into the input line: a position that advances as characters are
//! consumed, plus a stack of marks recording where enclosing capture groups
//! started consuming.

use vstd::prelude::*;

verus! {

/// The ghost state of a cursor: its position and the stack of group marks.
pub ghost struct Cur {
    pub pos: int,
    pub marks: Seq<int>,
}

/// The positions of a mark stack, as mathematical integers.
pub open spec fn marks_view(s: Seq<usize>) -> Seq<int> {
    Seq::new(s.len(), |k: int| s[k] as int)
}

/// A cursor into the input. `start` is the position where this cursor was
/// created, `pos` the current position, and `marks` the stack of positions
/// where the capture groups currently being evaluated began.
#[derive(Debug)]
pub struct BufferedIterator {
    pub start: usize,
    pub pos: usize,
    pub marks: Vec<usize>,
}

impl View for BufferedIterator {
    type V = Cur;

    open spec fn view(&self) -> Cur {
        Cur { pos: self.pos as int, marks: marks_view(self.marks@) }
    }
}

impl Clone for BufferedIterator {
    /// A clone carries the same position and marks.
    fn clone(&self) -> (r: Self)
        ensures
            r@ == self@,
            r.start == self.start,
    {
        let mut marks: Vec<usize> = Vec::new();
        let mut k: usize = 0;
        while k < self.marks.len()
            invariant
                k <= self.marks@.len(),
                marks@ == self.marks@.subrange(0, k as int),
            decreases self.marks@.len() - k,
        {
            marks.push(self.marks[k]);
            proof {
                assert(marks@ =~= self.marks@.subrange(0, k + 1));
            }
            k = k + 1;
        }
        proof {
            assert(marks@ =~= self.marks@);
            assert(marks_view(marks@) =~= marks_view(self.marks@));
        }
        BufferedIterator { start: self.start, pos: self.pos, marks }
    }
}

impl BufferedIterator {
    /// A fresh cursor standing at `start`, with no marks.
    pub fn new(start: usize) -> (r: Self)
        ensures
            r.start == start,
            r@ == (Cur { pos: start as int, marks: Seq::<int>::empty() }),
    {
        proof {
            assert(marks_view(Seq::<usize>::empty()) =~= Seq::<int>::empty());
        }
        BufferedIterator { start, pos: start, marks: Vec::new() }
    }

    /// The next input character and its position, without consuming it.
    pub fn peek(&self, s: &Vec<char>) -> (r: Option<(usize, char)>)
        ensures
            self@.pos < s@.len() ==> r == Some((self.pos, s@[self@.pos])),
            self@.pos >= s@.len() ==> r is None,
    {
        if self.pos < s.len() {
            Some((self.pos, s[self.pos]))
        } else {
            None
        }
    }

    /// Consume and return the next input character and its position.
    pub fn next(&mut self, s: &Vec<char>) -> (r: Option<(usize, char)>)
        ensures
            final(self).start == old(self).start,
            final(self)@.marks == old(self)@.marks,
            old(self)@.pos < s@.len() ==> r == Some((old(self).pos, s@[old(self)@.pos]))
                && final(self)@.pos == old(self)@.pos + 1,
            old(self)@.pos >= s@.len() ==> r is None && final(self)@.pos == old(self)@.pos,
    {
        if self.pos < s.len() {
            let ch = s[self.pos];
            let at = self.pos;
            self.pos = self.pos + 1;
            Some((at, ch))
        } else {
            None
        }
    }

    /// Push a mark: characters consumed from here on belong to the capture
    /// group now being entered.
    pub fn subdivide(&mut self)
        ensures
            final(self).start == old(self).start,
            final(self)@.pos == old(self)@.pos,
            final(self)@.marks == old(self)@.marks.push(old(self)@.pos),
    {
        let at = self.pos;
        self.marks.push(at);
        proof {
            assert(marks_view(self.marks@) =~= marks_view(old(self).marks@).push(
                old(self).pos as int,
            ));
        }
    }

    /// Pop the innermost mark, returning the range consumed since it was
    /// pushed; `None` when no mark is left.
    pub fn pop_divided(&mut self) -> (r: Option<(usize, usize)>)
        ensures
            final(self).start == old(self).start,
            final(self)@.pos == old(self)@.pos,
            old(self)@.marks.len() > 0 ==> r == Some(
                (
                    old(self).marks@[old(self).marks@.len() - 1],
                    old(self).pos,
                ),
            ) && final(self)@.marks == old(self)@.marks.drop_last(),
            old(self)@.marks.len() == 0 ==> r is None && final(self)@.marks == old(self)@.marks,
    {
        match self.marks.pop() {
            Some(m) => {
                proof {
                    assert(marks_view(self.marks@) =~= marks_view(old(self).marks@).drop_last());
                }
                Some((m, self.pos))
            },
            None => None,
        }
    }

    /// Give up the cursor, reporting the range it has consumed since it was
    /// created.
    pub fn take(self) -> (r: (usize, usize))
        ensures
            r.0 == self.start,
            r.1 as int == self@.pos,
    {
        (self.start, self.pos)
    }
}

} // verus!
