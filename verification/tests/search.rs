use snowhead::board::{ChessMove, PieceKind};
use snowhead::evaluate::score::Value;
use snowhead::movegen::movepick::{MovePicker, Stage};
use snowhead::movegen::{generate_captures, generate_quiet, order_captures, score_kinds, list_quiet};
use snowhead::position::Position;
use snowhead::search::perft::{perft, perft_bulk};
use snowhead::search::pv::PrincipalVariation;
use snowhead::search::rootmoves::RootMoves;
use snowhead::search::thread::SearchThread;
use snowhead::search::{alphabeta, qsearch};
use snowhead::timeman::TimeManager;
use snowhead::types::piece::Color;
use snowhead::types::square::Square;
use snowhead::uci::command::GoOptions;
use snowhead::uci::option::UciOptions;
use snowhead::movegen::movevalue::MoveValue;

fn pos_from(fen: &str) -> Position {
    Position::new().fen(fen).build()
}

fn depth_thread(depth: u32) -> SearchThread {
    let mut go = GoOptions::new();
    go.depth = depth;
    let tm = TimeManager::new(TimeManager::current(), &go, &UciOptions::new(), Color(0));
    SearchThread::new(go, tm)
}

fn mv(from: u32, to: u32) -> ChessMove {
    ChessMove { from: Square(from), to: Square(to), promotion: None }
}

#[test]
fn start_position_has_no_captures_and_twenty_quiet_moves() {
    let pos = Position::default();
    assert_eq!(generate_captures(&pos).len(), 0);
    assert_eq!(generate_quiet(&pos).len(), 20);
}

#[test]
fn captures_are_ordered_by_victim_less_attacker() {
    // White pawn e4 can take the queen on d5 or the pawn on f5; the queen is taken first.
    let pos = pos_from("4k3/8/8/3q1p2/4P3/8/8/4K3 w - - 0 1");
    let mut caps = generate_captures(&pos);
    assert_eq!(caps.len(), 2);
    let first = caps.next().unwrap();
    assert_eq!(first.chess_move(), mv(28, 35));
    assert_eq!(first.value(), Value(900 - 100));
    let second = caps.next().unwrap();
    assert_eq!(second.chess_move(), mv(28, 37));
    assert_eq!(second.value(), Value(0));
}

#[test]
fn score_kinds_uses_lva_mvv() {
    assert_eq!(score_kinds(PieceKind(4), PieceKind(0)), Value(100 - 900));
    assert_eq!(score_kinds(PieceKind(0), PieceKind(5)), Value(20000 - 100));
}

#[test]
fn order_captures_sorts_and_keeps_ties_in_order() {
    let cands = vec![
        (mv(1, 2), PieceKind(0), PieceKind(0)),
        (mv(3, 4), PieceKind(0), PieceKind(4)),
        (mv(5, 6), PieceKind(1), PieceKind(1)),
    ];
    let mut r = order_captures(&cands);
    assert_eq!(r.next_move(), Some(mv(3, 4)));
    assert_eq!(r.next_move(), Some(mv(1, 2)));
    assert_eq!(r.next_move(), Some(mv(5, 6)));
    assert_eq!(r.next_move(), None);
}

#[test]
fn list_quiet_drops_moves_onto_opponent_pieces() {
    let moves = vec![mv(8, 16), mv(8, 17), mv(9, 18)];
    let them: u64 = 1 << 17;
    let mut r = list_quiet(&moves, them);
    assert_eq!(r.len(), 2);
    assert_eq!(r.next_move(), Some(mv(8, 16)));
    assert_eq!(r.next_move(), Some(mv(9, 18)));
}

#[test]
fn move_picker_walks_all_moves_of_the_start_position() {
    let pos = Position::default();
    let mut mp = MovePicker::new();
    assert_eq!(mp.stage(), Stage::Init);
    let mut n = 0;
    while let Some(_m) = mp.next_move(&pos, false) {
        n += 1;
    }
    assert_eq!(n, 20);
    assert_eq!(mp.stage(), Stage::BadCaptures);
}

#[test]
fn move_picker_skipping_quiets_yields_only_captures() {
    let pos = pos_from("4k3/8/8/3q1p2/4P3/8/8/4K3 w - - 0 1");
    let mut mp = MovePicker::new();
    let mut got = vec![];
    while let Some(m) = mp.next_move(&pos, true) {
        got.push(m);
    }
    assert_eq!(got, vec![mv(28, 35), mv(28, 37)]);
}

#[test]
fn stage_next_skips_quiets_when_asked_and_not_in_check() {
    let mut s = Stage::GoodCaptures;
    s.next(false, true);
    assert_eq!(s, Stage::BadCaptures);
    let mut s = Stage::GoodCaptures;
    s.next(true, true);
    assert_eq!(s, Stage::GenQuiet);
    let mut s = Stage::BadCaptures;
    s.next(false, false);
    assert_eq!(s, Stage::BadCaptures);
}

#[test]
fn perft_of_start_position() {
    let pos = Position::default();
    assert_eq!(perft(pos.board(), 0), 1);
    assert_eq!(perft(pos.board(), 1), 20);
    assert_eq!(perft(pos.board(), 2), 400);
    assert_eq!(perft(pos.board(), 3), 8902);
    assert_eq!(perft_bulk(pos.board(), 3), 8902);
    assert_eq!(perft_bulk(pos.board(), 4), 197281);
}

#[test]
fn alphabeta_finds_checkmated_side() {
    // Black is checkmated (back-rank mate).
    let mut pos = pos_from("R5k1/5ppp/8/8/8/8/8/6K1 b - - 0 1");
    let mut pv = PrincipalVariation::new();
    let mut thread = depth_thread(2);
    let v = alphabeta(&mut pos, 0, 1, Value(-32001), Value(32001), &mut pv, &mut thread);
    assert_eq!(v, Value(-32000));
}

#[test]
fn alphabeta_stalemate_is_a_draw() {
    let mut pos = pos_from("7k/5Q2/6K1/8/8/8/8/8 b - - 0 1");
    let mut pv = PrincipalVariation::new();
    let mut thread = depth_thread(2);
    let v = alphabeta(&mut pos, 0, 1, Value(-32001), Value(32001), &mut pv, &mut thread);
    assert_eq!(v, Value(0));
}

#[test]
fn alphabeta_is_fail_hard_and_restores_the_position() {
    let mut pos = pos_from("r1bqkbnr/pppp1ppp/2n5/4p3/4P3/5N2/PPPP1PPP/RNBQKB1R w KQkq - 2 3");
    let hash_before = format!("{}", pos.board());
    let mut pv = PrincipalVariation::new();
    let mut thread = depth_thread(3);
    let v = alphabeta(&mut pos, 0, 2, Value(-50), Value(50), &mut pv, &mut thread);
    assert!(v.0 >= -50 && v.0 <= 50);
    assert_eq!(format!("{}", pos.board()), hash_before);
}

#[test]
fn qsearch_stands_pat_at_beta() {
    let mut pos = Position::default();
    pos.init_psq();
    let mut pv = PrincipalVariation::new();
    let mut thread = depth_thread(1);
    let v = qsearch(&mut pos, 0, 0, Value(-1000), Value(-500), &mut pv, &mut thread);
    assert_eq!(v, Value(-500));
}

#[test]
fn pv_update_prepends_the_move() {
    let mut child = PrincipalVariation::new();
    child.moves[0] = Some(mv(12, 28));
    child.moves[1] = Some(mv(52, 36));
    let mut pv = PrincipalVariation::new();
    pv.update(&mv(6, 21), &child);
    assert_eq!(pv.len(), 3);
    assert_eq!(pv.moves[0], Some(mv(6, 21)));
    assert_eq!(pv.moves[1], Some(mv(12, 28)));
    assert_eq!(pv.moves[2], Some(mv(52, 36)));
}

#[test]
fn root_moves_insert_sort_and_next() {
    let mut rm = RootMoves::new();
    rm.insert(MoveValue::new(mv(1, 2), Value(5)), 1);
    rm.insert(MoveValue::new(mv(3, 4), Value(50)), 1);
    assert_eq!(rm.len(), 2);
    rm.sort();
    assert_eq!(rm.idx(), 0);
    assert_eq!(rm.next_move(), Some(mv(3, 4)));
    assert_eq!(rm.idx(), 0);
    rm.insert(MoveValue::new(mv(3, 4), Value(-7)), 2);
    assert_eq!(rm.idx(), 1);
    assert_eq!(rm.next_move(), Some(mv(1, 2)));
    rm.insert(MoveValue::new(mv(1, 2), Value(9)), 2);
    assert_eq!(rm.next_move(), None);
    assert_eq!(rm.idx(), 1);
}

#[test]
fn thread_counts_nodes_below_the_root() {
    let mut t = depth_thread(1);
    t.incr_node_count(0);
    assert_eq!(t.nodes(), 0);
    t.incr_node_count(1);
    t.incr_node_count(1);
    assert_eq!(t.nodes(), 2);
    assert_eq!(t.seldepth(), 1);
    assert!(t.can_search_deeper(5));
    assert_eq!(t.node_ratio(1), 3);
    assert_eq!(t.max_depth(), 1);
}

#[test]
fn iterate_keeps_the_best_line() {
    let mut pos = pos_from("6k1/5ppp/8/8/8/8/8/R5K1 w - - 0 1");
    let mut t = depth_thread(2);
    assert!(t.iterate(&mut pos, 1));
    assert!(t.iterate(&mut pos, 2));
    let pv = t.pv();
    assert_eq!(pv.moves[0], Some(mv(0, 56)));
    assert!(t.depth() >= 1);
}

#[test]
fn picker_hands_each_move_out_once() {
    let pos = pos_from("7k/8/8/3n4/2P5/8/8/K7 w - - 0 1");
    let mut mp = MovePicker::new();
    assert_eq!(mp.next_move(&pos, false), Some(mv(26, 35)));
    let mut rest = Vec::new();
    for _ in 0..4 {
        rest.push(mp.next_move(&pos, false).unwrap());
    }
    rest.sort_by_key(|m| (m.from.0, m.to.0));
    assert_eq!(rest, vec![mv(0, 1), mv(0, 8), mv(0, 9), mv(26, 34)]);
    assert_eq!(mp.next_move(&pos, false), None);
    assert_eq!(mp.next_move(&pos, false), None);
}
