use snowhead::attacks::attack_bb::attacks_bb;
use snowhead::attacks::sliding_attacks;
use snowhead::types::bitboard::{pretty, Bitboard, EMPTY_BB};
use snowhead::types::piece::{PieceType, BISHOP, ROOK};
use snowhead::types::square::{Square, SQ_C5};

#[test]
fn magic_attacks_match_sliding_attacks() {
    for pt in [ROOK, BISHOP] {
        let b1 = sliding_attacks(PieceType(pt), Square(SQ_C5), Bitboard(EMPTY_BB));
        let b2 = attacks_bb(PieceType(pt), Square(SQ_C5), Bitboard(EMPTY_BB));
        assert_eq!(b1, b2);
    }
}

#[test]
fn pretty_draws_a_cross_per_square() {
    let line = "+---+---+---+---+---+---+---+---+\n";
    let mut expected = String::from(line);
    for r in (0..8).rev() {
        for f in 0..8 {
            expected += if (r == 0 && f == 0) || (r == 7 && f == 7) { "| X " } else { "|   " };
        }
        expected += &format!("| {} \n{}", r + 1, line);
    }
    expected += "  a   b   c   d   e   f   g   h\n";
    assert_eq!(pretty(Bitboard(1 | (1u64 << 63))), expected);
}
