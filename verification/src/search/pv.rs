//! The principal variation: the line of best moves found by the search.

use vstd::prelude::*;
use crate::board::ChessMove;
use crate::movegen::MAX_MOVES;

verus! {

/// `n` is the length of the line `moves`: its entries before `n` are moves and entry
/// `n` (if any) is empty.
pub open spec fn is_line_len(moves: Seq<Option<ChessMove>>, n: int) -> bool {
    &&& 0 <= n <= moves.len()
    &&& forall|i: int| 0 <= i < n ==> (#[trigger] moves[i]) is Some
    &&& n < moves.len() ==> moves[n] is None
}

/// Every entry from `k` on is empty.
pub open spec fn line_bounded(moves: Seq<Option<ChessMove>>, k: int) -> bool {
    forall|i: int| k <= i < moves.len() ==> (#[trigger] moves[i]) is None
}

/// A line of at most `MAX_MOVES` moves, ended by the first empty entry.
#[derive(Debug, Clone, Copy)]
pub struct PrincipalVariation {
    pub moves: [Option<ChessMove>; MAX_MOVES],
}

impl PrincipalVariation {
    /// The empty line.
    pub fn new() -> (pv: PrincipalVariation)
        ensures
            forall|i: int| 0 <= i < MAX_MOVES ==> (#[trigger] pv.moves@[i]) is None,
    {
        PrincipalVariation { moves: [None; MAX_MOVES] }
    }

    /// Makes the line `mv` followed by the line of `child_pv`. Entries after those
    /// copied keep what they held.
    pub fn update(&mut self, mv: &ChessMove, child_pv: &PrincipalVariation)
        requires
            exists|i: int| 0 <= i < MAX_MOVES && (#[trigger] child_pv.moves@[i]) is None,
        ensures
            final(self).moves@[0] == Some(*mv),
            exists|n: int| #![trigger is_line_len(child_pv.moves@, n)]
                is_line_len(child_pv.moves@, n)
                && (forall|i: int| 0 <= i < n ==> #[trigger] final(self).moves@[i + 1] == child_pv.moves@[i])
                && (forall|i: int| n + 1 <= i < MAX_MOVES ==> #[trigger] final(self).moves@[i] == old(self).moves@[i]),
    {
        self.moves[0] = Some(*mv);
        let mut idx: usize = 0;
        while idx < MAX_MOVES
            invariant
                idx <= MAX_MOVES,
                exists|i: int| 0 <= i < MAX_MOVES && (#[trigger] child_pv.moves@[i]) is None,
                self.moves@[0] == Some(*mv),
                forall|i: int| 0 <= i < idx ==> (#[trigger] child_pv.moves@[i]) is Some,
                forall|i: int| 0 <= i < idx ==> #[trigger] self.moves@[i + 1] == child_pv.moves@[i],
                forall|i: int| idx + 1 <= i < MAX_MOVES ==> #[trigger] self.moves@[i] == old(self).moves@[i],
            ensures
                self.moves@[0] == Some(*mv),
                is_line_len(child_pv.moves@, idx as int),
                forall|i: int| 0 <= i < idx ==> #[trigger] self.moves@[i + 1] == child_pv.moves@[i],
                forall|i: int| idx + 1 <= i < MAX_MOVES ==> #[trigger] self.moves@[i] == old(self).moves@[i],
            decreases MAX_MOVES - idx,
        {
            if let Some(child_mv) = child_pv.moves[idx] {
                if idx + 1 >= MAX_MOVES {
                    proof {
                        let w = choose|i: int| 0 <= i < MAX_MOVES && (#[trigger] child_pv.moves@[i]) is None;
                        assert(child_pv.moves@[w] is Some);
                    }
                }
                self.moves[idx + 1] = Some(child_mv);
                idx = idx + 1;
            } else {
                break;
            }
        }
        proof {
            if idx == MAX_MOVES {
                let w = choose|i: int| 0 <= i < MAX_MOVES && (#[trigger] child_pv.moves@[i]) is None;
                assert(child_pv.moves@[w] is Some);
            }
        }
    }

    /// The length of the line: the number of moves before the first empty entry.
    pub fn len(&self) -> (n: usize)
        ensures
            is_line_len(self.moves@, n as int),
    {
        let mut len: usize = 0;
        while len < MAX_MOVES
            invariant
                len <= MAX_MOVES,
                forall|i: int| 0 <= i < len ==> (#[trigger] self.moves@[i]) is Some,
            ensures
                is_line_len(self.moves@, len as int),
            decreases MAX_MOVES - len,
        {
            if self.moves[len].is_none() {
                break;
            }
            len = len + 1;
        }
        len
    }
}

} // verus!
