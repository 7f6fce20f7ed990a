use snowhead::position::classic::Position;
use snowhead::search::perft::perft_bulk;
use snowhead::tt::{TTFlag, TranspositionTable};
use snowhead::types::moves::{Move, MoveType, CASTLING, EN_PASSANT};
use snowhead::types::piece::{Piece, PieceType, KING, PAWN};
use snowhead::types::score::Value;
use snowhead::types::square::Square;

const START_FEN: &str = "rnbqkbnr/pppppppp/8/8/8/8/PPPPPPPP/RNBQKBNR w KQkq - 0 1";

/// The legal moves of `pos`, listed by the board of `cozy_chess` and written in the
/// move encoding of the position (castling as king takes own rook).
fn legal_moves(pos: &Position) -> Vec<Move> {
    let fen = pos.fen();
    let board = cozy_chess::Board::from_fen(&fen, false).expect("the position writes a readable FEN");
    let mut out = Vec::new();
    board.generate_moves(|moves| {
        for mv in moves {
            let from = Square(mv.from as u32);
            let to = Square(mv.to as u32);
            let moving = pos.piece_on(from);
            let target = pos.piece_on(to);
            let m = if let Some(p) = mv.promotion {
                Move::make_prom(from, to, PieceType(p as u32 + 1))
            } else if moving.0 % 8 == KING && target.0 != 0 && target.0 / 8 == moving.0 / 8 {
                Move::make_special(MoveType(CASTLING), from, to)
            } else if moving.0 % 8 == PAWN && target.0 == 0 && (from.0 % 8) != (to.0 % 8) {
                Move::make_special(MoveType(EN_PASSANT), from, to)
            } else {
                Move::make(from, to)
            };
            out.push(m);
        }
        false
    });
    out
}

#[derive(Debug)]
struct Stats {
    pub nodes: u32,
    pub en_passant: u32,
    pub castles: u32,
    pub checks: u32,
    pub captures: u32,
}

impl Stats {
    pub fn new() -> Stats {
        Stats { nodes: 0, en_passant: 0, castles: 0, checks: 0, captures: 0 }
    }
}

fn is_capture(pos: &Position, m: Move) -> bool {
    let to = m.to();
    let captured = if m.move_type().0 == EN_PASSANT {
        Piece((1 - pos.side_to_move().0) * 8 + PAWN)
    } else {
        pos.piece_on(to)
    };
    captured.0 != 0
}

fn perft_stats(pos: &mut Position, depth: u32, stats: &mut Stats) {
    if depth == 0 {
        return;
    }
    for m in legal_moves(pos) {
        if depth == 1 {
            stats.nodes += 1;
            if pos.gives_check(m) {
                stats.checks += 1;
            }
            if is_capture(pos, m) {
                stats.captures += 1;
            }
            if m.move_type().0 == CASTLING {
                stats.castles += 1;
            }
            if m.move_type().0 == EN_PASSANT {
                stats.en_passant += 1;
            }
        }
        pos.do_move(m);
        perft_stats(pos, depth - 1, stats);
        pos.undo_move(m);
    }
}

#[test]
fn perft4_stats() {
    let mut stats = Stats::new();
    let depth = 4;

    let mut pos = Position::new();
    pos.set(START_FEN, false);
    perft_stats(&mut pos, depth, &mut stats);

    assert_eq!(stats.nodes, 197_281);
    assert_eq!(stats.captures, 1_576);
    assert_eq!(stats.checks, 469);
}

/// A board of `cozy_chess` for a test FEN: counters added where the FEN leaves them out,
/// and, in Chess960, the castling letters K/Q/k/q turned into the files of the outermost
/// rooks on the king's back rank (Shredder notation).
fn board_for(fen: &str, chess960: bool) -> cozy_chess::Board {
    let mut fields: Vec<String> = fen.split_whitespace().map(String::from).collect();
    while fields.len() < 6 {
        fields.push(if fields.len() == 4 { "0".to_string() } else { "1".to_string() });
    }
    if !chess960 {
        return cozy_chess::Board::from_fen(&fields.join(" "), false).expect("valid FEN");
    }
    let ranks: Vec<&str> = fields[0].split('/').collect();
    let row = |rank_from_top: usize| -> Vec<char> {
        let mut squares = Vec::new();
        for c in ranks[rank_from_top].chars() {
            if let Some(d) = c.to_digit(10) {
                for _ in 0..d {
                    squares.push('.');
                }
            } else {
                squares.push(c);
            }
        }
        squares
    };
    let mut castles = String::new();
    for c in fields[2].chars() {
        if c == '-' {
            castles.push(c);
            continue;
        }
        let white = c.is_ascii_uppercase();
        let back = row(if white { 7 } else { 0 });
        let (king, rook) = if white { ('K', 'R') } else { ('k', 'r') };
        let kfile = back.iter().position(|&p| p == king).expect("a king on the back rank");
        let file = if c.to_ascii_lowercase() == 'k' {
            (kfile + 1..8).rev().find(|&f| back[f] == rook)
        } else {
            (0..kfile).find(|&f| back[f] == rook)
        }
        .expect("a castling rook");
        let letter = (b'a' + file as u8) as char;
        castles.push(if white { letter.to_ascii_uppercase() } else { letter });
    }
    fields[2] = castles;
    cozy_chess::Board::from_fen(&fields.join(" "), true).expect("valid Shredder FEN")
}

struct PerftInfo {
    fen: String,
    depth: u8,
    nodes: u64,
    chess960: bool,
}

impl PerftInfo {
    fn new(fen: &str, depth: u8, nodes: u64, chess960: bool) -> PerftInfo {
        PerftInfo { fen: String::from(fen), depth, nodes, chess960 }
    }
}

#[test]
fn perft_test_positions() {
    let perft_data = vec![
        // avoid illegal ep
        PerftInfo::new("3k4/3p4/8/K1P4r/8/8/8/8 b - - 0 1", 6, 1134888, false),
        PerftInfo::new("8/8/8/8/k1p4R/8/3P4/3K4 w - - 0 1", 6, 1134888, false),
        PerftInfo::new("8/8/4k3/8/2p5/8/B2P2K1/8 w - - 0 1", 6, 1015133, false),
        PerftInfo::new("8/b2p2k1/8/2P5/8/4K3/8/8 b - - 0 1", 6, 1015133, false),
        // en passant capture checks opponent
        PerftInfo::new("8/8/1k6/2b5/2pP4/8/5K2/8 b - d3 0 1", 6, 1440467, false),
        PerftInfo::new("8/5k2/8/2Pp4/2B5/1K6/8/8 w - d6 0 1", 6, 1440467, false),
        // short castling gives check
        PerftInfo::new("5k2/8/8/8/8/8/8/4K2R w K - 0 1", 6, 661072, false),
        PerftInfo::new("4k2r/8/8/8/8/8/8/5K2 b k - 0 1", 6, 661072, false),
        // long castling gives check
        PerftInfo::new("3k4/8/8/8/8/8/8/R3K3 w Q - 0 1", 6, 803711, false),
        PerftInfo::new("r3k3/8/8/8/8/8/8/3K4 b q - 0 1", 6, 803711, false),
        // castling (including losing cr due to rook capture)
        PerftInfo::new("r3k2r/1b4bq/8/8/8/8/7B/R3K2R w KQkq - 0 1", 4, 1274206, false),
        PerftInfo::new("r3k2r/7b/8/8/8/8/1B4BQ/R3K2R b KQkq - 0 1", 4, 1274206, false),
        // castling prevented
        PerftInfo::new("r3k2r/8/3Q4/8/8/5q2/8/R3K2R b KQkq - 0 1", 4, 1720476, false),
        PerftInfo::new("r3k2r/8/5Q2/8/8/3q4/8/R3K2R w KQkq - 0 1", 4, 1720476, false),
        // promote out of check
        PerftInfo::new("2K2r2/4P3/8/8/8/8/8/3k4 w - - 0 1", 6, 3821001, false),
        PerftInfo::new("3K4/8/8/8/8/8/4p3/2k2R2 b - - 0 1", 6, 3821001, false),
        // discovered check
        PerftInfo::new("8/8/1P2K3/8/2n5/1q6/8/5k2 b - - 0 1", 5, 1004658, false),
        PerftInfo::new("5K2/8/1Q6/2N5/8/1p2k3/8/8 w - - 0 1", 5, 1004658, false),
        // promote to give check
        PerftInfo::new("4k3/1P6/8/8/8/8/K7/8 w - - 0 1", 6, 217342, false),
        PerftInfo::new("8/k7/8/8/8/8/1p6/4K3 b - - 0 1", 6, 217342, false),
        // underpromote to check
        PerftInfo::new("8/P1k5/K7/8/8/8/8/8 w - - 0 1", 6, 92683, false),
        PerftInfo::new("8/8/8/8/8/k7/p1K5/8 b - - 0 1", 6, 92683, false),
        // self stalemate
        PerftInfo::new("K1k5/8/P7/8/8/8/8/8 w - - 0 1", 6, 2217, false),
        PerftInfo::new("8/8/8/8/8/p7/8/k1K5 b - - 0 1", 6, 2217, false),
        // stalemate/checkmate
        PerftInfo::new("8/k1P5/8/1K6/8/8/8/8 w - - 0 1", 7, 567584, false),
        PerftInfo::new("8/8/8/8/1k6/8/K1p5/8 b - - 0 1", 7, 567584, false),
        // double check
        PerftInfo::new("8/8/2k5/5q2/5n2/8/5K2/8 b - - 0 1", 4, 23527, false),
        PerftInfo::new("8/5k2/8/5N2/5Q2/2K5/8/8 w - - 0 1", 4, 23527, false),
        // short castling impossible although the rook never moved away from its corner
        PerftInfo::new("1k6/1b6/8/8/7R/8/8/4K2R b K - 0 1", 5, 1063513, false),
        PerftInfo::new("4k2r/8/8/7r/8/8/1B6/1K6 w k - 0 1", 5, 1063513, false),
        // long castling impossible although the rook never moved away from its corner
        PerftInfo::new("1k6/8/8/8/R7/1n6/8/R3K3 b Q - 0 1", 5, 346695, false),
        PerftInfo::new("r3k3/8/1N6/r7/8/8/8/1K6 w q - 0 1", 5, 346695, false),
        // From the Wiki
        PerftInfo::new("r3k2r/p1ppqpb1/bn2pnp1/3PN3/1p2P3/2N2Q1p/PPPBBPPP/R3K2R w KQkq -", 4, 4085603, false),
        PerftInfo::new("rnbqkb1r/pp1p1ppp/2p5/4P3/2B5/8/PPP1NnPP/RNBQK2R w KQkq - 0 6", 3, 53392, false),
        // Shortened form of a longer test
        PerftInfo::new("8/7p/p5pb/4k3/P1pPn3/8/P5PP/1rB2RK1 b - d3 0 28", 4, 67197, false),
        // Chess960 positions, each at several depths
        PerftInfo::new("r1k1r2q/p1ppp1pp/8/8/8/8/P1PPP1PP/R1K1R2Q w KQkq - 0 1", 1, 23, true),
        PerftInfo::new("r1k2r1q/p1ppp1pp/8/8/8/8/P1PPP1PP/R1K2R1Q w KQkq - 0 1", 1, 28, true),
        PerftInfo::new("8/8/8/4B2b/6nN/8/5P2/2R1K2k w Q - 0 1", 1, 34, true),
        PerftInfo::new("2r5/8/8/8/8/8/6PP/k2KR3 w K - 0 1", 1, 17, true),
        PerftInfo::new("4r3/3k4/8/8/8/8/6PP/qR1K1R2 w KQ - 0 1", 1, 19, true),
        PerftInfo::new("r1k1r2q/p1ppp1pp/8/8/8/8/P1PPP1PP/R1K1R2Q w KQkq - 0 1", 2, 522, true),
        PerftInfo::new("r1k2r1q/p1ppp1pp/8/8/8/8/P1PPP1PP/R1K2R1Q w KQkq - 0 1", 2, 738, true),
        PerftInfo::new("8/8/8/4B2b/6nN/8/5P2/2R1K2k w Q - 0 1", 2, 318, true),
        PerftInfo::new("2r5/8/8/8/8/8/6PP/k2KR3 w K - 0 1", 2, 242, true),
        PerftInfo::new("4r3/3k4/8/8/8/8/6PP/qR1K1R2 w KQ - 0 1", 2, 628, true),
        PerftInfo::new("r1k1r2q/p1ppp1pp/8/8/8/8/P1PPP1PP/R1K1R2Q w KQkq - 0 1", 5, 7096972, true),
        PerftInfo::new("r1k2r1q/p1ppp1pp/8/8/8/8/P1PPP1PP/R1K2R1Q w KQkq - 0 1", 5, 15194841, true),
        PerftInfo::new("8/8/8/4B2b/6nN/8/5P2/2R1K2k w Q - 0 1", 5, 3223406, true),
        PerftInfo::new("2r5/8/8/8/8/8/6PP/k2KR3 w K - 0 1", 5, 985298, true),
        PerftInfo::new("4r3/3k4/8/8/8/8/6PP/qR1K1R2 w KQ - 0 1", 5, 8992652, true),
    ];

    for info in perft_data {
        let board = board_for(&info.fen, info.chess960);
        let nodes = perft_bulk(&board, info.depth);
        assert_eq!(nodes, info.nodes, "{}", info.fen);
    }
}

#[test]
fn save_and_probe_returns_same_value() {
    let test_fens = vec![
        // avoid illegal ep
        "3k4/3p4/8/K1P4r/8/8/8/8 b - - 0 1",
        "8/8/8/8/k1p4R/8/3P4/3K4 w - - 0 1",
        "8/8/4k3/8/2p5/8/B2P2K1/8 w - - 0 1",
        "8/b2p2k1/8/2P5/8/4K3/8/8 b - - 0 1",
        // en passant capture checks opponent
        "8/8/1k6/2b5/2pP4/8/5K2/8 b - d3 0 1",
        "8/5k2/8/2Pp4/2B5/1K6/8/8 w - d6 0 1",
        // short castling gives check
        "5k2/8/8/8/8/8/8/4K2R w K - 0 1",
        "4k2r/8/8/8/8/8/8/5K2 b k - 0 1",
        // long castling gives check
        "3k4/8/8/8/8/8/8/R3K3 w Q - 0 1",
        "r3k3/8/8/8/8/8/8/3K4 b q - 0 1",
        // castling (including losing cr due to rook capture)
        "r3k2r/1b4bq/8/8/8/8/7B/R3K2R w KQkq - 0 1",
        "r3k2r/7b/8/8/8/8/1B4BQ/R3K2R b KQkq - 0 1",
        // castling prevented
        "r3k2r/8/3Q4/8/8/5q2/8/R3K2R b KQkq - 0 1",
        "r3k2r/8/5Q2/8/8/3q4/8/R3K2R w KQkq - 0 1",
        // promote out of check
        "2K2r2/4P3/8/8/8/8/8/3k4 w - - 0 1",
        "3K4/8/8/8/8/8/4p3/2k2R2 b - - 0 1",
        // discovered check
        "8/8/1P2K3/8/2n5/1q6/8/5k2 b - - 0 1",
        "5K2/8/1Q6/2N5/8/1p2k3/8/8 w - - 0 1",
        // promote to give check
        "4k3/1P6/8/8/8/8/K7/8 w - - 0 1",
        "8/k7/8/8/8/8/1p6/4K3 b - - 0 1",
        // underpromote to check
        "8/P1k5/K7/8/8/8/8/8 w - - 0 1",
        "8/8/8/8/8/k7/p1K5/8 b - - 0 1",
        // self stalemate
        "K1k5/8/P7/8/8/8/8/8 w - - 0 1",
        "8/8/8/8/8/p7/8/k1K5 b - - 0 1",
        // stalemate/checkmate
        "8/k1P5/8/1K6/8/8/8/8 w - - 0 1",
        "8/8/8/8/1k6/8/K1p5/8 b - - 0 1",
        // double check
        "8/8/2k5/5q2/5n2/8/5K2/8 b - - 0 1",
        "8/5k2/8/5N2/5Q2/2K5/8/8 w - - 0 1",
        // short castling impossible although the rook never moved away from its corner
        "1k6/1b6/8/8/7R/8/8/4K2R b K - 0 1",
        "4k2r/8/8/7r/8/8/1B6/1K6 w k - 0 1",
        // long castling impossible although the rook never moved away from its corner
        "1k6/8/8/8/R7/1n6/8/R3K3 b Q - 0 1",
        "r3k3/8/1N6/r7/8/8/8/1K6 w q - 0 1",
        // From the Wiki
        "r3k2r/p1ppqpb1/bn2pnp1/3PN3/1p2P3/2N2Q1p/PPPBBPPP/R3K2R w KQkq -",
        "rnbqkb1r/pp1p1ppp/2p5/4P3/2B5/8/PPP1NnPP/RNBQK2R w KQkq - 0 6",
        // Shortened form of a longer test
        "8/7p/p5pb/4k3/P1pPn3/8/P5PP/1rB2RK1 b - d3 0 28",
    ];

    let mut ttable = TranspositionTable::new(10);
    let mut pos = Position::new();
    let mut value;

    for fen in &test_fens {
        pos.set(fen, false);
        value = Value(pos.psq_value().0);
        ttable.save(pos.key(), value, TTFlag::EXACT, Move(0));
        let (_tt_hit, new_value, flag, _m) = ttable.probe(pos.key());

        assert_ne!(flag, TTFlag::NONE);
        assert_eq!(value, new_value);
    }
}

#[test]
fn fen_round_trips_through_set() {
    let fens = [
        START_FEN,
        "r3k2r/8/3Q4/8/8/5q2/8/R3K2R b KQkq - 0 1",
        "8/7p/p5pb/4k3/P1pPn3/8/P5PP/1rB2RK1 b - d3 0 28",
        "rnbqkb1r/pp1p1ppp/2p5/4P3/2B5/8/PPP1NnPP/RNBQK2R w KQkq - 0 6",
    ];
    let mut pos = Position::new();
    for fen in fens {
        pos.set(fen, false);
        assert_eq!(pos.fen(), fen);
    }
}

#[test]
fn set_keeps_only_a_capturable_en_passant_square() {
    let mut pos = Position::new();
    pos.set("rnbqkbnr/pppppppp/8/8/4P3/8/PPPP1PPP/RNBQKBNR b KQkq e3 0 1", false);
    assert_eq!(pos.ep_square().0, 64);
    assert_eq!(pos.fen(), "rnbqkbnr/pppppppp/8/8/4P3/8/PPPP1PPP/RNBQKBNR b KQkq - 0 1");
    pos.set("rnbqkbnr/ppp1pppp/8/8/3pP3/8/PPPP1PPP/RNBQKBNR b KQkq e3 0 1", false);
    assert_eq!(pos.ep_square().0, 20);
    // A castling letter whose rook is missing gives no right.
    pos.set("4k3/8/8/8/8/8/8/4K2R w KQ - 0 1", false);
    assert_eq!(pos.fen(), "4k3/8/8/8/8/8/8/4K2R w K - 0 1");
}

#[test]
fn set_fills_in_missing_counters() {
    let mut pos = Position::new();
    pos.set("r3k2r/p1ppqpb1/bn2pnp1/3PN3/1p2P3/2N2Q1p/PPPBBPPP/R3K2R w KQkq -", false);
    assert_eq!(pos.fen(), "r3k2r/p1ppqpb1/bn2pnp1/3PN3/1p2P3/2N2Q1p/PPPBBPPP/R3K2R w KQkq - 0 1");
}

#[test]
fn do_then_undo_restores_fen_and_key() {
    let cases = [
        (START_FEN, Move::make(Square(12), Square(28))),
        ("r1bqkbnr/p3p1pp/1Pn2P2/3p4/8/8/PPP2PPP/RNBQKBNR w KQkq - 2 6", Move::make(Square(3), Square(39))),
        (
            "r1bqkbnr/p3p1pp/1Pn2P2/8/2Pp4/8/PP3PPP/RNBQKBNR b KQkq c3 0 7",
            Move::make_special(MoveType(EN_PASSANT), Square(27), Square(18)),
        ),
        (
            "r2qkb1r/p2b2pp/1Pn2p1n/8/2B2P2/2p2N2/PP4PP/RNBQK2R w KQkq - 2 11",
            Move::make_special(MoveType(CASTLING), Square(4), Square(7)),
        ),
    ];
    let mut pos = Position::new();
    for (fen, m) in cases {
        pos.set(fen, false);
        let key = pos.key();
        let before = pos.fen();
        pos.do_move(m);
        assert_ne!(pos.key(), key);
        pos.undo_move(m);
        assert_eq!(pos.fen(), before);
        assert_eq!(pos.key(), key);
    }
}

#[test]
fn moves_keep_key_and_running_value_current() {
    let cases = [
        (START_FEN, Move::make(Square(12), Square(28))),
        ("r1bqkbnr/p3p1pp/1Pn2P2/3p4/8/8/PPP2PPP/RNBQKBNR w KQkq - 2 6", Move::make(Square(3), Square(39))),
        (
            "r1bqkbnr/p3p1pp/1Pn2P2/8/2Pp4/8/PP3PPP/RNBQKBNR b KQkq c3 0 7",
            Move::make_special(MoveType(EN_PASSANT), Square(27), Square(18)),
        ),
        (
            "r2qkb1r/p2b2pp/1Pn2p1n/8/2B2P2/2p2N2/PP4PP/RNBQK2R w KQkq - 2 11",
            Move::make_special(MoveType(CASTLING), Square(4), Square(7)),
        ),
        ("r3k2r/1P6/8/8/8/8/8/4K3 w kq - 0 1", Move::make_prom(Square(49), Square(56), PieceType(5))),
        ("r3k2r/8/8/8/8/8/8/R3K2R b KQkq - 0 1", Move::make(Square(56), Square(0))),
    ];
    let mut pos = Position::new();
    let mut fresh = Position::new();
    for (fen, m) in cases {
        pos.set(fen, false);
        pos.do_move(m);
        fresh.set(&pos.fen(), false);
        assert_eq!(pos.key(), fresh.key());
        assert_eq!(pos.psq_value().0, fresh.psq_value().0);
    }
}

#[test]
fn castling_through_check_is_illegal() {
    // The black king on e8 would cross f8, attacked by the bishop on c5.
    let mut pos = Position::new();
    pos.set("r3k2r/8/8/2B5/8/8/8/4K3 b kq - 0 1", false);
    assert!(!pos.legal(Move::make_special(MoveType(CASTLING), Square(60), Square(63))));
    assert!(pos.legal(Move::make_special(MoveType(CASTLING), Square(60), Square(56))));
}

#[test]
fn gives_check_sees_direct_and_discovered_checks() {
    let mut pos = Position::new();
    pos.set("4k3/8/8/8/8/8/4B3/4R1K1 w - - 0 1", false);
    // The bishop leaves the e-file: the rook on e1 checks the king on e8.
    assert!(pos.gives_check(Move::make(Square(12), Square(21))));
    // The rook to a8 checks along the eighth rank.
    pos.set("4k3/8/8/8/8/8/8/R5K1 w - - 0 1", false);
    assert!(pos.gives_check(Move::make(Square(0), Square(56))));
    assert!(!pos.gives_check(Move::make(Square(0), Square(1))));
}

#[test]
fn a_legal_king_step_lands_on_a_safe_square() {
    let mut pos = Position::new();
    pos.set("4k3/8/8/8/8/8/3r4/4K3 w - - 0 1", false);
    // e1-f1 is legal (the rook on d2 does not reach f1), e1-e2 is not (d2 attacks e2).
    let safe = Move::make(Square(4), Square(5));
    let unsafe_step = Move::make(Square(4), Square(12));
    assert!(pos.legal(safe));
    assert!(!pos.legal(unsafe_step));
    pos.do_move(safe);
    let king = pos.square(snowhead::types::piece::Color(0), PieceType(KING));
    assert_eq!(pos.attackers_to(king).0 & pos.pieces_c(snowhead::types::piece::Color(1)).0, 0);
}
