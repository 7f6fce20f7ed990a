use vstd::prelude::*;
use crate::evaluate::score::{Score, Value, PHASE_NUM, wrap16};
use crate::board::{PieceKind, PIECE_KIND_NB};
use crate::types::square::{Square, File, Rank};

verus! {

/// Material values of pawn, knight, bishop, rook, queen and king, middlegame and endgame.
pub const PIECE_VALUES: [[i16; PHASE_NUM]; PIECE_KIND_NB] = [
    [100, 100],
    [320, 320],
    [330, 330],
    [500, 500],
    [900, 900],
    [20000, 20000],
];

/// Square bonuses per piece kind, rank (first to eighth), file (a to h) and phase.
pub const PSQ_BONUS: [[[[i16; PHASE_NUM]; 8]; 8]; PIECE_KIND_NB] = 
[
    [
        [[0,0], [0,0], [0,0], [0,0], [0,0], [0,0], [0,0], [0,0]],
        [[5,5], [10,10], [10,10], [-20,-20], [-20,-20], [10,10], [10,10], [5,5]],
        [[5,5], [-5,-5], [-10,-10], [0,0], [0,0], [-10,-10], [-5,-5], [5,5]],
        [[0,0], [0,0], [0,0], [20,20], [20,20], [0,0], [0,0], [0,0]],
        [[5,5], [5,5], [10,10], [25,25], [25,25], [10,10], [5,5], [5,5]],
        [[10,10], [10,10], [20,20], [30,30], [30,30], [20,20], [10,10], [10,10]],
        [[50,50], [50,50], [50,50], [50,50], [50,50], [50,50], [50,50], [50,50]],
        [[0,0], [0,0], [0,0], [0,0], [0,0], [0,0], [0,0], [0,0]]
    ],
    [
        [[-50,-50], [-40,-40], [-30,-30], [-30,-30], [-30,-30], [-30,-30], [-40,-40], [-50,-50]],
        [[-40,-40], [-20,-20], [0,0], [5,5], [5,5], [0,0], [-20,-20], [-40,-40]],
        [[-30,-30], [5,5], [10,10], [15,15], [15,15], [10,10], [5,5], [-30,-30]],
        [[-30,-30], [0,0], [15,15], [20,20], [20,20], [15,15], [0,0], [-30,-30]],
        [[-30,-30], [5,5], [15,15], [20,20], [20,20], [15,15], [5,5], [-30,-30]],
        [[-30,-30], [0,0], [10,10], [15,15], [15,15], [10,10], [0,0], [-30,-30]],
        [[-40,-40], [-20,-20], [0,0], [0,0], [0,0], [0,0], [-20,-20], [-40,-40]],
        [[-50,-50], [-40,-40], [-30,-30], [-30,-30], [-30,-30], [-30,-30], [-40,-40], [-50,-50]]
    ],
    [
        [[-20,-20], [-10,-10], [-10,-10], [-10,-10], [-10,-10], [-10,-10], [-10,-10], [-20,-20]],
        [[-10,-10], [5,5], [0,0], [0,0], [0,0], [0,0], [5,5], [-10,-10]],
        [[-10,-10], [10,10], [10,10], [10,10], [10,10], [10,10], [10,10], [-10,-10]],
        [[-10,-10], [0,0], [10,10], [10,10], [10,10], [10,10], [0,0], [-10,-10]],
        [[-10,-10], [5,5], [5,5], [10,10], [10,10], [5,5], [5,5], [-10,-10]],
        [[-10,-10], [0,0], [5,5], [10,10], [10,10], [5,5], [0,0], [-10,-10]],
        [[-10,-10], [0,0], [0,0], [0,0], [0,0], [0,0], [0,0], [-10,-10]],
        [[-20,-20], [-10,-10], [-10,-10], [-10,-10], [-10,-10], [-10,-10], [-10,-10], [-20,-20]]
    ],
    [
        [[0,0], [0,0], [0,0], [5,5], [5,5], [0,0], [0,0], [0,0]],
        [[-5,-5], [0,0], [0,0], [0,0], [0,0], [0,0], [0,0], [-5,-5]],
        [[-5,-5], [0,0], [0,0], [0,0], [0,0], [0,0], [0,0], [-5,-5]],
        [[-5,-5], [0,0], [0,0], [0,0], [0,0], [0,0], [0,0], [-5,-5]],
        [[-5,-5], [0,0], [0,0], [0,0], [0,0], [0,0], [0,0], [-5,-5]],
        [[-5,-5], [0,0], [0,0], [0,0], [0,0], [0,0], [0,0], [-5,-5]],
        [[5,5], [10,10], [10,10], [10,10], [10,10], [10,10], [10,10], [5,5]],
        [[0,0], [0,0], [0,0], [0,0], [0,0], [0,0], [0,0], [0,0]]
    ],
    [
        [[-20,-20], [-10,-10], [-10,-10], [-5,-5], [-5,-5], [-10,-10], [-10,-10], [-20,-20]],
        [[-10,-10], [0,0], [5,5], [0,0], [0,0], [0,0], [0,0], [-10,-10]],
        [[-10,-10], [5,5], [5,5], [5,5], [5,5], [5,5], [0,0], [-10,-10]],
        [[0,0], [0,0], [5,5], [5,5], [5,5], [5,5], [0,0], [-5,-5]],
        [[-5,-5], [0,0], [5,5], [5,5], [5,5], [5,5], [0,0], [-5,-5]],
        [[-10,-10], [0,0], [5,5], [5,5], [5,5], [5,5], [0,0], [-10,-10]],
        [[-10,-10], [0,0], [0,0], [0,0], [0,0], [0,0], [0,0], [-10,-10]],
        [[-20,-20], [-10,-10], [-10,-10], [-5,-5], [-5,-5], [-10,-10], [-10,-10], [-20,-20]]
    ],
    [
        [[20,-50], [30,-30], [10,-30], [0,-30], [0,-30], [10,-30], [30,-30], [20,-50]],
        [[20,-30], [20,-30], [0,0], [0,0], [0,0], [0,0], [20,-30], [20,-30]],
        [[-10,-30], [-20,-10], [-20,20], [-20,30], [-20,30], [-20,20], [-20,-10], [-10,-30]],
        [[-20,-30], [-30,-10], [-30,30], [-40,40], [-40,40], [-30,30], [-30,-10], [-20,-30]],
        [[-30,-30], [-40,-10], [-40,30], [-50,40], [-50,40], [-40,30], [-40,-10], [-30,-30]],
        [[-30,-30], [-40,-10], [-40,20], [-50,30], [-50,30], [-40,20], [-40,-10], [-30,-30]],
        [[-30,-30], [-40,-20], [-40,-10], [-50,0], [-50,0], [-40,-10], [-40,-20], [-30,-30]],
        [[-30,-50], [-40,-40], [-40,-30], [-50,-20], [-50,-20], [-40,-30], [-40,-40], [-30,-50]]
    ]
];

/// Piece-square tables: a score per piece kind, square and phase.
#[derive(Debug, Clone, Copy)]
pub struct PsqTable {
    pub scores: [[Score; 64]; PIECE_KIND_NB],
}

/// A score per square.
#[derive(Debug, Clone, Copy)]
pub struct SquareTable {
    pub scores: [Score; 64],
}

/// A score per piece kind.
#[derive(Debug, Clone, Copy)]
pub struct PieceTable {
    pub scores: [Score; PIECE_KIND_NB],
}

/// The entry of a table built from piece values `pv` and square bonuses `sq`: for kind
/// `pc`, file `f`, rank `r` and phase `ph`, the wrapped sum of value and bonus.
pub open spec fn psq_entry(pv: [[i16; PHASE_NUM]; PIECE_KIND_NB], sq: [[[[i16; PHASE_NUM]; 8]; 8]; PIECE_KIND_NB],
    pc: int, f: int, r: int, ph: int) -> i16 {
    wrap16(pv[pc][ph] + sq[pc][r][f][ph])
}

impl SquareTable {
    /// All scores zero.
    pub fn default() -> (t: SquareTable)
        ensures
            forall|s: int| 0 <= s < 64 ==> #[trigger] t.scores[s].view() == (0i16, 0i16),
    {
        let z = Score::default();
        SquareTable { scores: [z; 64] }
    }

    /// The table with the score `table[r][f]` on the square of file `f` and rank `r`.
    pub fn new(table: &[[[i16; PHASE_NUM]; 8]; 8]) -> (t: SquareTable)
        ensures
            forall|f: int, r: int, ph: int| 0 <= f < 8 && 0 <= r < 8 && 0 <= ph < 2 ==>
                #[trigger] t.scores[8 * r + f].values[ph].0 == table[r][f][ph],
    {
        let mut sqt = SquareTable::default();
        let mut r: u32 = 0;
        while r < 8
            invariant
                r <= 8,
                forall|f: int, rr: int, ph: int| 0 <= f < 8 && 0 <= rr < r && 0 <= ph < 2 ==>
                    #[trigger] sqt.scores[8 * rr + f].values[ph].0 == table[rr][f][ph],
            decreases 8 - r,
        {
            let mut f: u32 = 0;
            while f < 8
                invariant
                    r < 8,
                    f <= 8,
                    forall|ff: int, rr: int, ph: int| 0 <= ff < 8 && 0 <= rr < r && 0 <= ph < 2 ==>
                        #[trigger] sqt.scores[8 * rr + ff].values[ph].0 == table[rr][ff][ph],
                    forall|ff: int, ph: int| 0 <= ff < f && 0 <= ph < 2 ==>
                        #[trigger] sqt.scores[8 * r + ff].values[ph].0 == table[r as int][ff][ph],
                decreases 8 - f,
            {
                let s = Square::make(File(f), Rank(r));
                sqt.scores[s.0 as usize] = Score::new(&table[r as usize][f as usize]);
                f = f + 1;
            }
            r = r + 1;
        }
        sqt
    }
}

impl PieceTable {
    /// The table with score `table[pc]` for piece kind `pc`.
    pub fn new(table: &[[i16; PHASE_NUM]; PIECE_KIND_NB]) -> (t: PieceTable)
        ensures
            forall|pc: int, ph: int| 0 <= pc < 6 && 0 <= ph < 2 ==> #[trigger] t.scores[pc].values[ph].0
                == table[pc][ph],
    {
        let z = Score::default();
        let mut pt = PieceTable { scores: [z; PIECE_KIND_NB] };
        let mut pc: usize = 0;
        while pc < PIECE_KIND_NB
            invariant
                pc <= 6,
                forall|k: int, ph: int| 0 <= k < pc && 0 <= ph < 2 ==> #[trigger] pt.scores[k].values[ph].0
                    == table[k][ph],
            decreases 6 - pc,
        {
            pt.scores[pc] = Score::new(&table[pc]);
            pc = pc + 1;
        }
        pt
    }

    /// The table of the default piece values.
    pub fn default() -> (t: PieceTable)
        ensures
            forall|pc: int, ph: int| 0 <= pc < 6 && 0 <= ph < 2 ==> #[trigger] t.scores[pc].values[ph].0
                == PIECE_VALUES[pc][ph],
    {
        PieceTable::new(&PIECE_VALUES)
    }
}

impl PsqTable {
    /// All scores zero.
    pub fn zero() -> (t: PsqTable)
        ensures
            forall|pc: int, s: int, ph: int| 0 <= pc < 6 && 0 <= s < 64 && 0 <= ph < 2 ==>
                #[trigger] t.scores[pc][s].values[ph].0 == 0,
    {
        let z = Score::default();
        PsqTable { scores: [[z; 64]; PIECE_KIND_NB] }
    }

    /// The table whose score for kind `pc` on the square of file `f` and rank `r` is
    /// `pc_table[pc] + sq_tables[pc][r][f]`, phase by phase.
    pub fn new(pc_table: &[[i16; PHASE_NUM]; PIECE_KIND_NB], sq_tables: &[[[[i16; PHASE_NUM]; 8]; 8]; PIECE_KIND_NB])
        -> (t: PsqTable)
        ensures
            forall|pc: int, f: int, r: int, ph: int| 0 <= pc < 6 && 0 <= f < 8 && 0 <= r < 8 && 0 <= ph < 2 ==>
                #[trigger] t.scores[pc][8 * r + f].values[ph].0 == psq_entry(*pc_table, *sq_tables, pc, f, r, ph),
    {
        let mut psqt = PsqTable::zero();
        let mut pc: usize = 0;
        while pc < PIECE_KIND_NB
            invariant
                pc <= 6,
                forall|k: int, f: int, r: int, ph: int| 0 <= k < pc && 0 <= f < 8 && 0 <= r < 8 && 0 <= ph < 2 ==>
                    #[trigger] psqt.scores[k][8 * r + f].values[ph].0 == psq_entry(*pc_table, *sq_tables, k, f, r, ph),
            decreases 6 - pc,
        {
            let row = Self::kind_row(&pc_table[pc], &sq_tables[pc]);
            proof {
                assert forall|f: int, r: int, ph: int| 0 <= f < 8 && 0 <= r < 8 && 0 <= ph < 2 implies
                    #[trigger] row[8 * r + f].values[ph].0 == psq_entry(*pc_table, *sq_tables, pc as int, f, r, ph) by {
                }
            }
            psqt.scores[pc] = row;
            pc = pc + 1;
        }
        psqt
    }

    /// The scores of one piece kind: value plus square bonus on every square.
    fn kind_row(value: &[i16; PHASE_NUM], bonus: &[[[i16; PHASE_NUM]; 8]; 8]) -> (row: [Score; 64])
        ensures
            forall|f: int, r: int, ph: int| 0 <= f < 8 && 0 <= r < 8 && 0 <= ph < 2 ==>
                #[trigger] row[8 * r + f].values[ph].0 == wrap16(value[ph] + bonus[r][f][ph]),
    {
        let z = Score::default();
        let mut row = [z; 64];
        let base = Score::new(value);
        let mut r: u32 = 0;
        while r < 8
            invariant
                r <= 8,
                base.values[0].0 == value[0],
                base.values[1].0 == value[1],
                forall|f: int, rr: int, ph: int| 0 <= f < 8 && 0 <= rr < r && 0 <= ph < 2 ==>
                    #[trigger] row[8 * rr + f].values[ph].0 == wrap16(value[ph] + bonus[rr][f][ph]),
            decreases 8 - r,
        {
            let mut f: u32 = 0;
            while f < 8
                invariant
                    r < 8,
                    f <= 8,
                    base.values[0].0 == value[0],
                    base.values[1].0 == value[1],
                    forall|ff: int, rr: int, ph: int| 0 <= ff < 8 && 0 <= rr < r && 0 <= ph < 2 ==>
                        #[trigger] row[8 * rr + ff].values[ph].0 == wrap16(value[ph] + bonus[rr][ff][ph]),
                    forall|ff: int, ph: int| 0 <= ff < f && 0 <= ph < 2 ==>
                        #[trigger] row[8 * r + ff].values[ph].0 == wrap16(value[ph] + bonus[r as int][ff][ph]),
                decreases 8 - f,
            {
                let s = Square::make(File(f), Rank(r));
                row[s.0 as usize] = base.add(Score::new(&bonus[r as usize][f as usize]));
                f = f + 1;
            }
            r = r + 1;
        }
        row
    }

    /// The score of piece kind `pc` on square `sq`.
    pub fn probe(self, pc: &PieceKind, sq: &Square) -> (s: Score)
        requires
            pc.0 < 6,
            sq.0 < 64,
        ensures
            s == self.scores[pc.0 as int][sq.0 as int],
    {
        self.scores[pc.0 as usize][sq.0 as usize]
    }

    /// The table of the default piece values and square bonuses.
    pub fn default() -> (t: PsqTable)
        ensures
            forall|pc: int, f: int, r: int, ph: int| 0 <= pc < 6 && 0 <= f < 8 && 0 <= r < 8 && 0 <= ph < 2 ==>
                #[trigger] t.scores[pc][8 * r + f].values[ph].0 == psq_entry(PIECE_VALUES, PSQ_BONUS, pc, f, r, ph),
    {
        PsqTable::new(&PIECE_VALUES, &PSQ_BONUS)
    }

    /// The table seen from the other side: the score on a square becomes the negated score
    /// on the square mirrored across the middle rank.
    pub fn not(self) -> (t: PsqTable)
        ensures
            forall|pc: int, s: int, ph: int| 0 <= pc < 6 && 0 <= s < 64 && 0 <= ph < 2 ==>
                #[trigger] t.scores[pc][flip_square(s)].values[ph].0 == wrap16(-self.scores[pc][s].values[ph].0),
    {
        let mut ret = self;
        let mut pc: usize = 0;
        while pc < PIECE_KIND_NB
            invariant
                pc <= 6,
                forall|k: int, s: int, ph: int| 0 <= k < pc && 0 <= s < 64 && 0 <= ph < 2 ==>
                    #[trigger] ret.scores[k][flip_square(s)].values[ph].0 == wrap16(-self.scores[k][s].values[ph].0),
            decreases 6 - pc,
        {
            let mut row = self.scores[pc];
            let mut s: u32 = 0;
            while s < 64
                invariant
                    s <= 64,
                    pc < 6,
                    forall|j: int, ph: int| 0 <= j < s && 0 <= ph < 2 ==>
                        #[trigger] row[flip_square(j)].values[ph].0 == wrap16(-self.scores[pc as int][j].values[ph].0),
                decreases 64 - s,
            {
                let sq = Square(s);
                let fl = sq.flip_rank();
                proof { lemma_flip_involutive(s as int); }
                row[fl.0 as usize] = self.scores[pc][s as usize].neg();
                s = s + 1;
            }
            ret.scores[pc] = row;
            pc = pc + 1;
        }
        ret
    }
}

/// The square mirrored across the middle rank.
pub open spec fn flip_square(s: int) -> int {
    8 * (7 - s / 8) + s % 8
}

proof fn lemma_flip_involutive(s: int)
    requires
        0 <= s < 64,
    ensures
        0 <= flip_square(s) < 64,
        flip_square(flip_square(s)) == s,
        forall|j: int| 0 <= j < 64 && j != s ==> flip_square(j) != flip_square(s),
{
}

} // verus!
