//! Perft: the number of leaf positions of the legal-move tree to a given depth, with
//! and without counting the last ply in bulk.

use vstd::prelude::*;
use crate::board::{board_clone, board_legal_moves, board_try_play, legal_moves_of, played_of, ChessMove};

verus! {

/// The board after `mv`, or the board itself when the move is refused.
pub open spec fn child_of(b: cozy_chess::Board, mv: ChessMove) -> cozy_chess::Board {
    match played_of(b, mv) {
        Some(c) => c,
        None => b,
    }
}

/// The leaves `depth` plies below `b` reached through the first `n` legal moves of `b`
/// (sums wrap modulo 2^64); 1 at depth 0.
pub open spec fn perft_part(b: cozy_chess::Board, depth: nat, n: nat) -> u64
    decreases depth, n,
{
    if depth == 0 {
        1
    } else if n == 0 {
        0
    } else {
        let child = child_of(b, legal_moves_of(b)[n - 1]);
        perft_part(b, depth, (n - 1) as nat).wrapping_add(perft_part(child, (depth - 1) as nat, legal_moves_of(
            child).len()))
    }
}

/// The leaves of the legal-move tree `depth` plies below `b` (modulo 2^64).
pub open spec fn perft_spec(b: cozy_chess::Board, depth: nat) -> u64 {
    perft_part(b, depth, legal_moves_of(b).len())
}

/// One ply below, every move counts one leaf.
proof fn lemma_perft_one(b: cozy_chess::Board, n: nat)
    requires
        n <= u64::MAX,
    ensures
        perft_part(b, 1, n) == n,
    decreases n,
{
    if n > 0 {
        lemma_perft_one(b, (n - 1) as nat);
        let prev = perft_part(b, 1, (n - 1) as nat);
        assert(prev == n - 1);
        let child = child_of(b, legal_moves_of(b)[n - 1]);
        assert(perft_part(child, 0, legal_moves_of(child).len()) == 1);
        assert(perft_part(b, 1, n) == prev.wrapping_add(perft_part(child, 0, legal_moves_of(child).len())));
        assert(prev.wrapping_add(1u64) == n);
    }
}

/// The number of move sequences of `depth` legal moves from `board` (sums wrap around
/// modulo 2^64; see `perft_spec`). At depth 0 it is 1.
pub fn perft(board: &cozy_chess::Board, depth: u8) -> (nodes: u64)
    ensures
        nodes == perft_spec(*board, depth as nat),
    decreases depth,
{
    if depth == 0 {
        1
    } else {
        let mut nodes: u64 = 0;
        let moves = board_legal_moves(board);
        let mut i: usize = 0;
        while i < moves.len()
            invariant
                i <= moves.len(),
                depth > 0,
                forall|j: int| 0 <= j < moves.len() ==> (#[trigger] moves[j]).wf(),
                moves@ == legal_moves_of(*board),
                nodes == perft_part(*board, depth as nat, i as nat),
            decreases moves.len() - i,
        {
            let mut child = board_clone(board);
            let _played = board_try_play(&mut child, moves[i]);
            assert(child == child_of(*board, moves@[i as int]));
            nodes = nodes.wrapping_add(perft(&child, depth - 1));
            i = i + 1;
        }
        nodes
    }
}

/// Perft counting the moves of the last ply without playing them: 1 at depth 0, the
/// number of legal moves at depth 1, and the sum over the legal moves beyond (modulo 2^64).
/// It counts what `perft` counts (`perft_spec`).
pub fn perft_bulk(board: &cozy_chess::Board, depth: u8) -> (nodes: u64)
    ensures
        nodes == perft_spec(*board, depth as nat),
    decreases depth,
{
    let mut nodes: u64 = 0;
    if depth == 0 {
        nodes = 1;
    } else if depth == 1 {
        let moves = board_legal_moves(board);
        proof {
            assert(moves@.len() == moves.len());
            lemma_perft_one(*board, moves@.len());
        }
        nodes = moves.len() as u64;
    } else {
        let moves = board_legal_moves(board);
        let mut i: usize = 0;
        while i < moves.len()
            invariant
                i <= moves.len(),
                depth > 1,
                forall|j: int| 0 <= j < moves.len() ==> (#[trigger] moves[j]).wf(),
                moves@ == legal_moves_of(*board),
                nodes == perft_part(*board, depth as nat, i as nat),
            decreases moves.len() - i,
        {
            let mut child = board_clone(board);
            let _played = board_try_play(&mut child, moves[i]);
            assert(child == child_of(*board, moves@[i as int]));
            let child_nodes = perft_bulk(&child, depth - 1);
            nodes = nodes.wrapping_add(child_nodes);
            i = i + 1;
        }
    }
    nodes
}

} // verus!
