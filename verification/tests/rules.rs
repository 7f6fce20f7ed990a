use snowhead::board::{ChessMove, GameStatus};
use snowhead::position::classic::Position as ClassicPosition;
use snowhead::position::{draw_by_rules, en_passant_target, lands_on_own, no_capture_among, Position};
use snowhead::search::thread::nodes_per_second;
use snowhead::timeman::time_fits_for;
use snowhead::types::moves::{Move, CASTLING, MoveType};
use snowhead::types::piece::{Color, PieceType};
use snowhead::types::score::{Score, Value as PackedValue};
use snowhead::types::square::{File, Square};
use snowhead::uci::command::GoOptions;

#[test]
fn draw_rules() {
    assert!(draw_by_rules(true, false, 0, 0, GameStatus::Ongoing));
    assert!(draw_by_rules(false, true, 0, 0, GameStatus::Ongoing));
    assert!(draw_by_rules(false, false, 100, 0, GameStatus::Ongoing));
    // Fifty moves, but the side to move is checkmated: no draw.
    assert!(!draw_by_rules(false, false, 100, 1 << 12, GameStatus::Won));
    assert!(draw_by_rules(false, false, 100, 1 << 12, GameStatus::Ongoing));
    assert!(!draw_by_rules(false, false, 99, 0, GameStatus::Ongoing));
}

#[test]
fn en_passant_targets() {
    // White takes on d6 (file d, sixth rank), black on e3.
    assert!(en_passant_target(Some(File(3)), Color(0), Square(43)));
    assert!(!en_passant_target(Some(File(3)), Color(0), Square(19)));
    assert!(en_passant_target(Some(File(4)), Color(1), Square(20)));
    assert!(!en_passant_target(None, Color(0), Square(43)));
}

#[test]
fn moves_onto_own_pieces_and_captures() {
    assert!(lands_on_own(1 << 7, Square(7)));
    assert!(!lands_on_own(1 << 7, Square(6)));
    let quiet = vec![ChessMove { from: Square(12), to: Square(28), promotion: None }];
    assert!(no_capture_among(1 << 36, &quiet));
    assert!(!no_capture_among(1 << 28, &quiet));
}

#[test]
fn cozy_position_queries() {
    let pos = Position::new().fen("rnbqkbnr/ppp1pppp/8/8/3pP3/8/PPPP1PPP/RNBQKBNR b KQkq e3 0 3").build();
    let ep = ChessMove { from: Square(27), to: Square(20), promotion: None };
    assert!(pos.is_enpassant(ep));
    assert!(!pos.is_castling(ep));
    // The en passant capture does not count against quietness.
    assert!(pos.is_quiet());
    assert!(!pos.is_check());
    let tense = Position::new().fen("4k3/8/8/3p4/4P3/8/8/4K3 w - - 0 1").build();
    assert!(!tense.is_quiet());
    assert!(!pos.is_draw(0));
    let castle = Position::new().fen("4k3/8/8/8/8/8/8/4K2R w K - 0 1").build();
    assert!(castle.is_castling(ChessMove { from: Square(4), to: Square(7), promotion: None }));
    let bare = Position::new().fen("4k3/8/8/8/8/8/8/4K3 w - - 0 1").build();
    assert!(bare.is_draw(0));
}

#[test]
fn nodes_per_second_from_nanoseconds() {
    assert_eq!(nodes_per_second(5000, 999), 0);
    assert_eq!(nodes_per_second(5000, 1_000_000_000), 5000);
    assert_eq!(nodes_per_second(1234, 2_000_000), 617_000);
}

#[test]
fn clock_sums_are_checked() {
    let mut go = GoOptions::new();
    go.time = [u64::MAX, 0];
    go.inc = [1, 0];
    assert!(!time_fits_for(&go, Color(0)));
    assert!(time_fits_for(&go, Color(1)));
    go.movetime = 10;
    assert!(time_fits_for(&go, Color(0)));
}

#[test]
fn passed_pawns_and_opposite_bishops() {
    let mut pos = ClassicPosition::new();
    pos.set("4k3/8/8/3P4/8/8/2p5/4K3 w - - 0 1", false);
    assert!(pos.pawn_passed(Color(0), Square(35)));
    pos.set("4k3/2p5/8/3P4/8/8/8/4K3 w - - 0 1", false);
    assert!(!pos.pawn_passed(Color(0), Square(35)));
    pos.set("4kb2/8/8/8/8/8/8/2B1K3 w - - 0 1", false);
    // Bishops on c1 (dark) and f8 (dark): same color.
    assert!(!pos.opposite_bishops());
    pos.set("4k1b1/8/8/8/8/8/8/2B1K3 w - - 0 1", false);
    // c1 (dark) and g8 (light).
    assert!(pos.opposite_bishops());
}

#[test]
fn scores_pack_two_halves() {
    let s = Score::make(PackedValue(-20), PackedValue(35));
    assert_eq!(s.0, 35 * 65536 - 20);
    assert_eq!(s.mg().0, -20);
    assert_eq!(s.eg().0, 35);
    // Bits of the endgame value above the low 16 fall off.
    let t = Score::make(PackedValue(5), PackedValue(65537));
    assert_eq!(t.0, 65536 + 5);
    assert_eq!(t.eg().0, 1);
    let sum = s.add(t);
    assert_eq!(sum.mg().0, -15);
    assert_eq!(sum.eg().0, 36);
}

#[test]
fn move_codes_pack_their_fields() {
    let m = Move::make(Square(12), Square(28));
    assert_eq!(m.0, 12 * 64 + 28);
    assert_eq!((m.from().0, m.to().0), (12, 28));
    let p = Move::make_prom(Square(52), Square(60), PieceType(5));
    assert_eq!(p.0, 0x4000 + 3 * 4096 + 52 * 64 + 60);
    let c = Move::make_special(MoveType(CASTLING), Square(4), Square(7));
    assert_eq!(c.0, 0xc000 + 4 * 64 + 7);
    // The square past the board still packs: its bits run into the next field.
    assert_eq!(Move::make(Square(64), Square(1)).0, 4097);
}

#[test]
fn null_move_passes_unless_in_check() {
    let mut pos = Position::new().fen("4k3/8/8/8/8/8/8/4K2R w K - 0 1").build();
    assert!(pos.do_null_move());
    assert_eq!(pos.side_to_move().0, 1);
    pos.undo_move();
    assert_eq!(pos.side_to_move().0, 0);
    let mut checked = Position::new().fen("4k3/8/8/8/8/8/8/4K2r w - - 0 1").build();
    assert!(checked.is_check());
    assert!(!checked.do_null_move());
    assert_eq!(checked.count(snowhead::board::PieceKind(5)), 2);
    assert_eq!(checked.piece_on(Square(7)), Some(snowhead::board::PieceKind(3)));
}
