use snowhead::board::{ChessMove, PieceKind};
use snowhead::bench::epd::EpdEntry;
use snowhead::position::Position;
use snowhead::types::square::Square;
use snowhead::uci::command::{castling_to_board, fen_text, position_args_valid, GoOptions, UciCommand};
use snowhead::uci::option::{setoption_valid, UciOptions};
use snowhead::uci::tokens::{parse_uint, word_is};

fn words(line: &str) -> Vec<Vec<char>> {
    line.split_whitespace().map(|w| w.chars().collect()).collect()
}

fn go(line: &str) -> GoOptions {
    match GoOptions::parse(&words(line)) {
        UciCommand::Go(o) => o,
        other => panic!("not a go command: {:?}", other),
    }
}

#[test]
fn go_reads_clocks_and_limits() {
    let o = go("wtime 300000 btime 290000 winc 2000 binc 1000 movestogo 40 depth 12 nodes 5000 movetime 100 mate 3 perft 4");
    assert_eq!(o.time, [300000, 290000]);
    assert_eq!(o.inc, [2000, 1000]);
    assert_eq!(o.movestogo, 40);
    assert_eq!(o.depth, 12);
    assert_eq!(o.nodes, 5000);
    assert_eq!(o.movetime, 100);
    assert_eq!(o.mate, 3);
    assert_eq!(o.perft, 4);
    assert!(!o.infinite);
}

#[test]
fn go_reads_pairs_only() {
    // Words go by twos: a lone `infinite` has no partner and is not read.
    assert!(!go("infinite").infinite);
    assert!(go("infinite 1").infinite);
    // An unknown key is skipped; the last of two equal keys wins.
    let o = go("foo 3 depth 4 depth 9");
    assert_eq!(o.depth, 9);
    // A trailing unpaired word is dropped.
    assert_eq!(go("depth 7 wtime").time, [0, 0]);
}

#[test]
fn go_arguments_are_checked() {
    assert!(GoOptions::args_valid(&words("depth 5 wtime +10")));
    assert!(!GoOptions::args_valid(&words("depth five")));
    assert!(!GoOptions::args_valid(&words("depth 4294967296")));
    assert!(GoOptions::args_valid(&words("wtime 4294967296")));
    assert!(!GoOptions::args_valid(&words("nodes -1")));
    assert!(GoOptions::args_valid(&words("depth")));
}

#[test]
fn numbers_read_as_rust_reads_them() {
    let w = |s: &str| s.chars().collect::<Vec<char>>();
    assert_eq!(parse_uint(&w("42"), u64::MAX), Some(42));
    assert_eq!(parse_uint(&w("+42"), u64::MAX), Some(42));
    assert_eq!(parse_uint(&w("+"), u64::MAX), None);
    assert_eq!(parse_uint(&w(""), u64::MAX), None);
    assert_eq!(parse_uint(&w("4x"), u64::MAX), None);
    assert_eq!(parse_uint(&w("256"), 255), None);
    assert_eq!(parse_uint(&w("18446744073709551615"), u64::MAX), Some(u64::MAX));
    assert_eq!(parse_uint(&w("18446744073709551616"), u64::MAX), None);
    assert!(word_is(&w("moves"), "moves"));
    assert!(!word_is(&w("move"), "moves"));
}

#[test]
fn setoption_sets_known_options() {
    let mut opts = UciOptions::new();
    assert!(matches!(opts.parse(&words("name Hash value 64")), UciCommand::SetOption(o) if o.hash_size == 64));
    assert_eq!(opts.hash_size, 64);
    opts.parse(&words("name MoveOverhead value 30"));
    assert_eq!(opts.move_overhead, 30);
    opts.parse(&words("name chess960 value true"));
    assert!(opts.chess960);
    opts.parse(&words("name chess960 value false"));
    assert!(!opts.chess960);
    // Other keys, and arguments of another form, change nothing.
    opts.parse(&words("name ClearHash value 1"));
    opts.parse(&words("name Threads value 4"));
    opts.parse(&words("Hash 128"));
    opts.parse(&words("name Hash value 12 extra"));
    assert_eq!(opts.hash_size, 64);
    assert_eq!(opts.move_overhead, 30);
}

#[test]
fn setoption_arguments_are_checked() {
    assert!(setoption_valid(&words("name Hash value 16")));
    assert!(!setoption_valid(&words("name Hash value big")));
    assert!(!setoption_valid(&words("name chess960 value yes")));
    assert!(!setoption_valid(&words("name Hash")));
    assert!(!setoption_valid(&words("")));
    assert!(setoption_valid(&words("Hash 16")));
    assert!(!setoption_valid(&words("name load value options.json")));
}

#[test]
fn command_lines_are_dispatched() {
    let mut opts = UciOptions::new();
    assert!(matches!(UciCommand::parse("uci", &mut opts), UciCommand::Uci));
    assert!(matches!(UciCommand::parse("  isready \n", &mut opts), UciCommand::IsReady));
    assert!(matches!(UciCommand::parse("d", &mut opts), UciCommand::Display));
    assert!(matches!(UciCommand::parse("quit", &mut opts), UciCommand::Quit));
    assert!(matches!(UciCommand::parse("stop", &mut opts), UciCommand::Stop));
    assert!(matches!(UciCommand::parse("ucinewgame", &mut opts), UciCommand::UciNewGame));
    assert!(matches!(UciCommand::parse("go depth 3", &mut opts), UciCommand::Go(o) if o.depth == 3));
    assert!(matches!(UciCommand::parse("setoption name Hash value 32", &mut opts), UciCommand::SetOption(_)));
    assert_eq!(opts.hash_size, 32);
    match UciCommand::parse("hello world", &mut opts) {
        UciCommand::Invalid(s) => assert_eq!(s, "hello"),
        other => panic!("{:?}", other),
    }
    match UciCommand::parse("   ", &mut opts) {
        UciCommand::Invalid(s) => assert_eq!(s, ""),
        other => panic!("{:?}", other),
    }
    assert!(UciCommand::line_valid("go depth 3"));
    assert!(!UciCommand::line_valid("go depth x"));
    assert!(!UciCommand::line_valid("position"));
    assert!(!UciCommand::line_valid("position startpos moves e2e9"));
    assert!(UciCommand::line_valid("position startpos moves e2e4 e7e5"));
}

#[test]
fn position_command_plays_the_moves() {
    let mut opts = UciOptions::new();
    match UciCommand::parse("position startpos moves e2e4 e7e5 g1f3", &mut opts) {
        UciCommand::Position(p) => {
            let expected = "rnbqkbnr/pppp1ppp/8/4p3/4P3/5N2/PPPP1PPP/RNBQKB1R b KQkq - 1 2";
            assert_eq!(format!("{}", p.board()), expected);
        }
        other => panic!("{:?}", other),
    }
}

#[test]
fn position_fen_text_stops_before_the_word_moves() {
    let args = words("fen 8/8/8/8/8/8/8/K6k w - - 0 1 moves a1a2");
    assert_eq!(fen_text(&args).unwrap(), "8/8/8/8/8/8/8/K6k w - - 0 1");
    let args = words("fen 8/8/8/8/8/8/8/K6k w - - 0 1");
    assert_eq!(fen_text(&args).unwrap(), "8/8/8/8/8/8/8/K6k w - - 0 1");
    assert_eq!(fen_text(&words("startpos moves e2e4")), None);
    assert!(position_args_valid(&words("startpos")));
    assert!(!position_args_valid(&words("")));
}

#[test]
fn position_fen_with_moves_plays_them() {
    let opts = UciOptions::new();
    match Position::parse(&words("fen 8/8/8/4k3/8/8/8/4K3 w - - 0 1 moves e1e2"), &opts) {
        UciCommand::Position(p) => assert_eq!(format!("{}", p.board()), "8/8/8/4k3/8/8/4K3/8 b - - 1 1"),
        other => panic!("{:?}", other),
    }
}

#[test]
fn moves_with_a_pawn_or_king_letter_read_as_plain_moves() {
    assert!(UciCommand::line_valid("position startpos moves e2e4p"));
    assert!(UciCommand::line_valid("position startpos moves e2e4k"));
    assert!(!UciCommand::line_valid("position startpos moves e2e4x"));
}

#[test]
fn position_fen_without_moves_is_set() {
    let mut opts = UciOptions::new();
    let fen = "4k3/8/8/8/8/8/8/4K2R w K - 0 1";
    match UciCommand::parse(&format!("position fen {fen}"), &mut opts) {
        UciCommand::Position(p) => assert_eq!(format!("{}", p.board()), fen),
        other => panic!("{:?}", other),
    }
    // Position::parse directly, with castling written as the king's two-square step.
    match Position::parse(&words(&format!("fen {fen}")), &opts) {
        UciCommand::Position(p) => assert_eq!(format!("{}", p.board()), fen),
        other => panic!("{:?}", other),
    }
}

#[test]
fn castling_steps_become_king_takes_rook() {
    let king = Some(PieceKind(5));
    let e1g1 = ChessMove { from: Square(4), to: Square(6), promotion: None };
    let e1c1 = ChessMove { from: Square(4), to: Square(2), promotion: None };
    assert_eq!(castling_to_board(e1g1, king, false).to, Square(7));
    assert_eq!(castling_to_board(e1c1, king, false).to, Square(0));
    // Not a king, or Chess960: unchanged.
    assert_eq!(castling_to_board(e1g1, Some(PieceKind(3)), false), e1g1);
    assert_eq!(castling_to_board(e1g1, king, true), e1g1);
    let e8g8 = ChessMove { from: Square(60), to: Square(62), promotion: None };
    assert_eq!(castling_to_board(e8g8, king, false).to, Square(63));
}

#[test]
fn epd_line_is_read() {
    let e = EpdEntry::new("rnbqkbnr/pppppppp/8/8/8/8/PPPPPPPP/RNBQKBNR w KQkq - 0 1; acd 5 ; acn 4865609; c0 \"start position\"");
    assert_eq!(e.fen, "rnbqkbnr/pppppppp/8/8/8/8/PPPPPPPP/RNBQKBNR w KQkq - 0 1");
    assert_eq!(e.acd(), 5);
    assert_eq!(e.acn(), 4865609);
    assert_eq!(e.c0(), "start position");
}

#[test]
fn epd_line_without_operations() {
    let e = EpdEntry::new("8/8/8/8/8/8/8/K6k w - -");
    assert_eq!(e.fen, "8/8/8/8/8/8/8/K6k w - -");
    assert_eq!((e.acd(), e.acn(), e.c0().as_str()), (0, 0, ""));
}

#[test]
fn epd_later_operations_win() {
    let e = EpdEntry::new("K6k/8/8/8/8/8/8/8 b - -;acd 3;acd 4;;c0 1-0");
    assert_eq!(e.fen, "K6k/8/8/8/8/8/8/8 b - -");
    assert_eq!(e.acd(), 4);
    assert_eq!(e.c0(), "1-0");
}
