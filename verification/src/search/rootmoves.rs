//! The moves at the root of the search, kept with the value each scored so that the
//! next iteration tries the best ones first.

use vstd::prelude::*;
use crate::board::ChessMove;
use crate::movegen::movevalue::{MoveValue, MoveValues, sorted_desc, moves_wf, lemma_moves_wf_permutation};
use crate::movegen::MAX_MOVES;

verus! {

/// The root moves and a cursor over them.
#[derive(Debug)]
pub struct RootMoves {
    move_values: MoveValues<MAX_MOVES>,
}

impl RootMoves {
    /// The list of moves and values with its cursor.
    pub closed spec fn values(&self) -> MoveValues<MAX_MOVES> {
        self.move_values
    }

    /// The list is well formed and its moves are.
    pub open spec fn wf(&self) -> bool {
        self.values().wf() && moves_wf(self.values()@) && self.values().idx_spec() <= MAX_MOVES
    }

    /// No root moves.
    pub fn new() -> (r: RootMoves)
        ensures
            r.wf(),
            r.values()@.len() == 0,
            r.values().idx_spec() == 0,
    {
        RootMoves { move_values: MoveValues::new() }
    }

    /// The whole array of entries.
    pub fn list(&self) -> (l: [MoveValue; MAX_MOVES])
        ensures
            l@ == self.values().entries(),
    {
        self.move_values.list()
    }

    /// The cursor.
    pub fn idx(&self) -> (i: usize)
        ensures
            i == self.values().idx_spec(),
    {
        self.move_values.idx()
    }

    /// The number of root moves.
    pub fn len(&self) -> (n: usize)
        requires
            self.wf(),
        ensures
            n == self.values()@.len(),
    {
        self.move_values.len()
    }

    /// Records the value of a root move: at depth 1 the move is appended; at greater
    /// depths it overwrites the entry under the cursor, which then advances.
    pub fn insert(&mut self, move_value: MoveValue, depth: i32)
        requires
            old(self).wf(),
            move_value.move_spec().wf(),
            depth == 1 ==> old(self).values()@.len() < MAX_MOVES,
            depth != 1 ==> old(self).values().idx_spec() < MAX_MOVES,
        ensures
            final(self).wf(),
            depth == 1 ==> final(self).values()@ == old(self).values()@.push(move_value)
                && final(self).values().idx_spec() == old(self).values().idx_spec(),
            depth != 1 ==> final(self).values().idx_spec() == old(self).values().idx_spec() + 1
                && final(self).values().entries() == old(self).values().entries().update(
                    old(self).values().idx_spec() as int, move_value)
                && final(self).values().size_spec() == old(self).values().size_spec()
                && final(self).values()@.len() == old(self).values()@.len(),
    {
        if depth == 1 {
            self.push(move_value);
        } else {
            self.move_values.replace_next(move_value);
            self.incr_idx(1);
        }
    }

    /// Sorts the moves by descending value (stable) and puts the cursor on the first.
    pub fn sort(&mut self)
        requires
            old(self).wf(),
        ensures
            final(self).wf(),
            final(self).values()@.len() == old(self).values()@.len(),
            sorted_desc(final(self).values()@),
            final(self).values()@.to_multiset() == old(self).values()@.to_multiset(),
            final(self).values().idx_spec() == 0,
    {
        self.move_values.sort();
        proof {
            lemma_moves_wf_permutation(self.move_values@, old(self).move_values@);
        }
        self.set_idx(0);
    }

    /// The entry under the cursor, without advancing the cursor. Past the last entry it
    /// answers `None` and moves the cursor back one (when it can).
    pub fn next(&mut self) -> (r: Option<MoveValue>)
        requires
            old(self).wf(),
        ensures
            final(self).wf(),
            final(self).values()@ == old(self).values()@,
            old(self).values().idx_spec() < old(self).values()@.len() ==> r == Some(
                old(self).values()@[old(self).values().idx_spec() as int],
            ) && final(self).values().idx_spec() == old(self).values().idx_spec(),
            old(self).values().idx_spec() >= old(self).values()@.len() ==> r is None
                && final(self).values().idx_spec() == if old(self).values().idx_spec() == 0 { 0 } else {
                    old(self).values().idx_spec() - 1
                },
    {
        let next = self.move_values.next();
        if self.move_values.idx() >= 1 {
            self.decr_idx(1);
        }
        next
    }

    /// The move under the cursor, without advancing the cursor (see `next`).
    pub fn next_move(&mut self) -> (r: Option<ChessMove>)
        requires
            old(self).wf(),
        ensures
            final(self).wf(),
            final(self).values()@ == old(self).values()@,
            old(self).values().idx_spec() < old(self).values()@.len() ==> r == Some(
                old(self).values()@[old(self).values().idx_spec() as int].move_spec(),
            ) && final(self).values().idx_spec() == old(self).values().idx_spec(),
            old(self).values().idx_spec() >= old(self).values()@.len() ==> r is None
                && final(self).values().idx_spec() == if old(self).values().idx_spec() == 0 { 0 } else {
                    old(self).values().idx_spec() - 1
                },
    {
        let next_move = self.move_values.next_move();
        if self.move_values.idx() >= 1 {
            self.decr_idx(1);
        }
        next_move
    }

    fn incr_idx(&mut self, incr: usize)
        requires
            old(self).move_values.idx_spec() + incr <= usize::MAX,
        ensures
            final(self).move_values.idx_spec() == old(self).move_values.idx_spec() + incr,
            final(self).move_values@ == old(self).move_values@,
            final(self).move_values.entries() == old(self).move_values.entries(),
            final(self).move_values.size_spec() == old(self).move_values.size_spec(),
            final(self).move_values.wf() == old(self).move_values.wf(),
    {
        self.move_values.incr_idx(incr)
    }

    fn decr_idx(&mut self, incr: usize)
        requires
            old(self).move_values.idx_spec() >= incr,
        ensures
            final(self).move_values.idx_spec() == old(self).move_values.idx_spec() - incr,
            final(self).move_values@ == old(self).move_values@,
            final(self).move_values.entries() == old(self).move_values.entries(),
            final(self).move_values.wf() == old(self).move_values.wf(),
    {
        self.move_values.decr_idx(incr)
    }

    fn set_idx(&mut self, idx: usize)
        ensures
            final(self).move_values.idx_spec() == idx,
            final(self).move_values@ == old(self).move_values@,
            final(self).move_values.wf() == old(self).move_values.wf(),
    {
        self.move_values.set_idx(idx)
    }

    fn push(&mut self, move_value: MoveValue)
        requires
            old(self).move_values.wf(),
            old(self).move_values@.len() < MAX_MOVES,
        ensures
            final(self).move_values.wf(),
            final(self).move_values@ == old(self).move_values@.push(move_value),
            final(self).move_values.idx_spec() == old(self).move_values.idx_spec(),
    {
        self.move_values.push(move_value);
    }
}

} // verus!
