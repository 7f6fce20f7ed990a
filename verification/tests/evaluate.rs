use snowhead::board::PieceKind;
use snowhead::evaluate::Evaluator;
use snowhead::types::piece::Color;
use snowhead::types::square::Square;

#[test]
fn psqt_are_symmetric() {
    let evaluator = Evaluator::default();

    // a1/a8, d2/d7, e6/e3, h5/h4
    let test_squares = [(0u32, 56u32), (11, 51), (44, 20), (39, 31)];

    for pc in 0..6u32 {
        for (wsq, bsq) in test_squares {
            let score1 = evaluator.probe_psqt(Color(0), PieceKind(pc), Square(wsq));
            let score2 = evaluator.probe_psqt(Color(1), PieceKind(pc), Square(bsq));
            println!("{score1:?} {score2:?}");
            assert_eq!(score1, score2.neg());
        }
    }
}

/// The legal moves of the position, in the move type of the library.
fn legal_moves(pos: &snowhead::position::Position) -> Vec<snowhead::board::ChessMove> {
    let mut list = Vec::new();
    pos.board().generate_moves(|piece_moves| {
        for mv in piece_moves {
            list.push(snowhead::board::ChessMove {
                from: Square(mv.from as u32),
                to: Square(mv.to as u32),
                promotion: mv.promotion.map(|p| PieceKind(p as u32)),
            });
        }
        false
    });
    list
}

#[test]
fn incremental_and_bulk_evals_match() {
    // Positions with castling both ways, en passant, promotions and captures.
    let fens = [
        "rnbqkbnr/pppppppp/8/8/8/8/PPPPPPPP/RNBQKBNR w KQkq - 0 1",
        "r3k2r/p1ppqpb1/bn2pnp1/3PN3/1p2P3/2N2Q1p/PPPBBPPP/R3K2R w KQkq - 0 1",
        "8/8/1k6/2b5/2pP4/8/5K2/8 b - d3 0 1",
        "8/5k2/8/2Pp4/2B5/1K6/8/8 w - d6 0 1",
        "2K2r2/4P3/8/8/8/8/8/3k4 w - - 0 1",
        "r3k2r/8/3Q4/8/8/5q2/8/R3K2R b KQkq - 0 1",
        "rnbqkb1r/pp1p1ppp/2p5/4P3/2B5/8/PPP1NnPP/RNBQK2R w KQkq - 0 6",
    ];
    for fen in fens {
        let mut pos = snowhead::position::Position::new().fen(fen).build();
        pos.init_psq();
        for mv in legal_moves(&pos) {
            let psq_before = pos.psq();
            pos.do_move(mv);
            let incremental = pos.psq();
            assert_eq!(incremental, pos.compute_psq(), "{fen} {mv:?}");
            pos.undo_move();
            assert_eq!(psq_before, pos.psq());
        }
    }
}

#[test]
fn knight_onto_the_en_passant_square_captures_nothing() {
    let b = cozy_chess::Board::from_fen("4k3/8/8/3pP3/2N5/8/8/4K3 w - d6 0 2", false).unwrap();
    let mut e = Evaluator::default();
    e.compute_psq(&b);
    let mv = snowhead::board::ChessMove { from: Square(26), to: Square(43), promotion: None };
    let mut b2 = b.clone();
    b2.play("c4d6".parse().unwrap());
    let mut fresh = Evaluator::default();
    fresh.compute_psq(&b2);
    e.do_move(&b, mv);
    assert_eq!(e.psq(), fresh.psq());
}
