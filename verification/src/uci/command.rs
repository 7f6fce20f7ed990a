//! UCI commands and the options of the `go` command.

use vstd::prelude::*;
use crate::position::Position;
use crate::position::builder::STARTFEN;
use crate::uci::option::{UciOptions, setoption_ok, setoption_apply, setoption_valid};
use crate::position::classic::fen::{fields, str_chars, split_fields};
use crate::uci::tokens::{words, word_is, parse_uint, parse_uint_spec, join_spec, join_words, push_chars};
use crate::board::{ChessMove, PieceKind, KIND_KING, coordinate_move, move_from_str, board_piece_on, piece_on_of};
use crate::types::square::Square;

verus! {

/// A command read from the GUI.
#[derive(Debug)]
pub enum UciCommand {
    Uci,
    Debug,
    Display,
    IsReady,
    SetOption(UciOptions),
    UciNewGame,
    Position(Position),
    Go(GoOptions),
    Stop,
    Ponderhit,
    Quit,
    Invalid(String),
}

/// The options of the `go` command: clocks and increments in milliseconds (white,
/// black), moves to go, depth, perft depth, node limit, mate search, fixed move time
/// in milliseconds, and infinite search.
#[derive(Debug, Clone, Copy)]
pub struct GoOptions {
    pub time: [u64; 2],
    pub inc: [u64; 2],
    pub movestogo: u64,
    pub depth: u32,
    pub perft: u32,
    pub nodes: u64,
    pub mate: u32,
    pub movetime: u64,
    pub infinite: bool,
}

impl GoOptions {
    /// All options zero (or false).
    pub fn new() -> (o: GoOptions)
        ensures
            o.time@ == seq![0u64, 0u64],
            o.inc@ == seq![0u64, 0u64],
            o.movestogo == 0,
            o.depth == 0,
            o.perft == 0,
            o.nodes == 0,
            o.mate == 0,
            o.movetime == 0,
            !o.infinite,
    {
        GoOptions {
            time: [0; 2],
            inc: [0; 2],
            movestogo: 0,
            depth: 0,
            perft: 0,
            nodes: 0,
            mate: 0,
            movetime: 0,
            infinite: false,
        }
    }
}

/// The settings of `go` as plain fields: the clocks and increments of white and black,
/// moves to go, depth, perft depth, nodes, mate, move time and infinite search.
pub struct GoFields {
    pub wtime: u64,
    pub btime: u64,
    pub winc: u64,
    pub binc: u64,
    pub movestogo: u64,
    pub depth: u32,
    pub perft: u32,
    pub nodes: u64,
    pub mate: u32,
    pub movetime: u64,
    pub infinite: bool,
}

impl View for GoOptions {
    type V = GoFields;

    open spec fn view(&self) -> GoFields {
        GoFields {
            wtime: self.time[0],
            btime: self.time[1],
            winc: self.inc[0],
            binc: self.inc[1],
            movestogo: self.movestogo,
            depth: self.depth,
            perft: self.perft,
            nodes: self.nodes,
            mate: self.mate,
            movetime: self.movetime,
            infinite: self.infinite,
        }
    }
}

/// The settings of `go` before any option is read: all zero, not infinite.
pub open spec fn go_default() -> GoFields {
    GoFields {
        wtime: 0,
        btime: 0,
        winc: 0,
        binc: 0,
        movestogo: 0,
        depth: 0,
        perft: 0,
        nodes: 0,
        mate: 0,
        movetime: 0,
        infinite: false,
    }
}

/// A key of `go` whose value is a 64-bit number.
pub open spec fn go_key_u64(k: Seq<char>) -> bool {
    k == "wtime"@ || k == "btime"@ || k == "winc"@ || k == "binc"@ || k == "movestogo"@ || k == "nodes"@
        || k == "movetime"@
}

/// A key of `go` whose value is a 32-bit number.
pub open spec fn go_key_u32(k: Seq<char>) -> bool {
    k == "depth"@ || k == "perft"@ || k == "mate"@
}

/// The number `v` spells, at most `max`, or 0 when it spells none.
pub open spec fn number_or_zero(v: Seq<char>, max: int) -> int {
    match parse_uint_spec(v, max) {
        Some(n) => n,
        None => 0,
    }
}

/// The pair `k v` can be read: the value of a numeric key is a number that fits.
pub open spec fn go_pair_ok(k: Seq<char>, v: Seq<char>) -> bool {
    &&& go_key_u64(k) ==> parse_uint_spec(v, u64::MAX as int) is Some
    &&& go_key_u32(k) ==> parse_uint_spec(v, u32::MAX as int) is Some
}

/// The `i`-th pair of words of `ws` can be read.
pub open spec fn go_pair_ok_at(ws: Seq<Seq<char>>, i: int) -> bool {
    go_pair_ok(ws[2 * i], ws[2 * i + 1])
}

/// Every pair of words of `ws` can be read (a last unpaired word is not looked at).
pub open spec fn go_args_ok(ws: Seq<Seq<char>>) -> bool {
    forall|i: int| 0 <= i < ws.len() / 2 ==> #[trigger] go_pair_ok_at(ws, i)
}

/// The settings after reading the pair `k v`: a known key takes the value (`infinite`
/// ignores it and sets infinite search); an unknown key changes nothing.
pub open spec fn go_apply(o: GoFields, k: Seq<char>, v: Seq<char>) -> GoFields {
    let n64 = number_or_zero(v, u64::MAX as int) as u64;
    let n32 = number_or_zero(v, u32::MAX as int) as u32;
    if k == "wtime"@ {
        GoFields { wtime: n64, ..o }
    } else if k == "btime"@ {
        GoFields { btime: n64, ..o }
    } else if k == "winc"@ {
        GoFields { winc: n64, ..o }
    } else if k == "binc"@ {
        GoFields { binc: n64, ..o }
    } else if k == "movestogo"@ {
        GoFields { movestogo: n64, ..o }
    } else if k == "depth"@ {
        GoFields { depth: n32, ..o }
    } else if k == "perft"@ {
        GoFields { perft: n32, ..o }
    } else if k == "nodes"@ {
        GoFields { nodes: n64, ..o }
    } else if k == "mate"@ {
        GoFields { mate: n32, ..o }
    } else if k == "movetime"@ {
        GoFields { movetime: n64, ..o }
    } else if k == "infinite"@ {
        GoFields { infinite: true, ..o }
    } else {
        o
    }
}

/// The settings after reading the first `n` pairs of words of `ws`, in order: words go by
/// twos (key, value), a later pair overriding an earlier one with the same key.
pub open spec fn go_fold(ws: Seq<Seq<char>>, n: nat) -> GoFields
    decreases n,
{
    if n == 0 {
        go_default()
    } else {
        go_apply(go_fold(ws, (n - 1) as nat), ws[2 * n - 2], ws[2 * n - 1])
    }
}

/// The settings the arguments `ws` of `go` give.
pub open spec fn go_settings(ws: Seq<Seq<char>>) -> GoFields {
    go_fold(ws, (ws.len() / 2) as nat)
}

/// The number `v` spells (at most `max`), or 0.
fn number_value(v: &Vec<char>, max: u64) -> (n: u64)
    ensures
        n == number_or_zero(v@, max as int),
{
    match parse_uint(v, max) {
        Some(n) => n,
        None => 0,
    }
}

/// Whether the pair `k v` can be read (see `go_pair_ok`).
pub fn go_pair_valid(k: &Vec<char>, v: &Vec<char>) -> (r: bool)
    ensures
        r == go_pair_ok(k@, v@),
{
    let wide = word_is(k, "wtime") || word_is(k, "btime") || word_is(k, "winc") || word_is(k, "binc")
        || word_is(k, "movestogo") || word_is(k, "nodes") || word_is(k, "movetime");
    let narrow = word_is(k, "depth") || word_is(k, "perft") || word_is(k, "mate");
    (!wide || parse_uint(v, u64::MAX).is_some()) && (!narrow || parse_uint(v, 4294967295u64).is_some())
}

impl GoOptions {
    /// Whether the arguments of `go` can be read (see `go_args_ok`).
    pub fn args_valid(args: &Vec<Vec<char>>) -> (r: bool)
        ensures
            r == go_args_ok(words(args@)),
    {
        let ghost ws = words(args@);
        let len = args.len();
        let npairs = len / 2;
        assert(2 * npairs <= len);
        let mut i: usize = 0;
        while i < npairs
            invariant
                len == args@.len(),
                npairs == len / 2,
                2 * npairs <= len,
                ws == words(args@),
                i <= npairs,
                forall|j: int| 0 <= j < i ==> #[trigger] go_pair_ok_at(ws, j),
            decreases npairs - i,
        {
            if !go_pair_valid(&args[2 * i], &args[2 * i + 1]) {
                assert(!go_pair_ok_at(ws, i as int));
                return false;
            }
            assert(go_pair_ok_at(ws, i as int));
            i = i + 1;
        }
        true
    }

    /// Reads the arguments of `go`: pairs of key and value (see `go_settings`). A number
    /// that does not fit is not handed in (see `go_args_ok`).
    pub fn parse(args: &Vec<Vec<char>>) -> (c: UciCommand)
        requires
            go_args_ok(words(args@)),
        ensures
            c matches UciCommand::Go(o) && o@ == go_settings(words(args@)),
    {
        let ghost ws = words(args@);
        let mut options = GoOptions::new();
        let len = args.len();
        let npairs = len / 2;
        assert(2 * npairs <= len);
        let mut i: usize = 0;
        while i < npairs
            invariant
                len == args@.len(),
                npairs == len / 2,
                2 * npairs <= len,
                ws == words(args@),
                go_args_ok(ws),
                i <= npairs,
                options@ == go_fold(ws, i as nat),
            decreases npairs - i,
        {
            let k = &args[2 * i];
            let v = &args[2 * i + 1];
            proof {
                assert(go_pair_ok_at(ws, i as int));
                assert(ws[2 * i] == k@ && ws[2 * i + 1] == v@);
            }
            if word_is(k, "wtime") {
                options.time = [number_value(v, u64::MAX), options.time[1]];
            } else if word_is(k, "btime") {
                options.time = [options.time[0], number_value(v, u64::MAX)];
            } else if word_is(k, "winc") {
                options.inc = [number_value(v, u64::MAX), options.inc[1]];
            } else if word_is(k, "binc") {
                options.inc = [options.inc[0], number_value(v, u64::MAX)];
            } else if word_is(k, "movestogo") {
                options.movestogo = number_value(v, u64::MAX);
            } else if word_is(k, "depth") {
                options.depth = number_value(v, 4294967295u64) as u32;
            } else if word_is(k, "perft") {
                options.perft = number_value(v, 4294967295u64) as u32;
            } else if word_is(k, "nodes") {
                options.nodes = number_value(v, u64::MAX);
            } else if word_is(k, "mate") {
                options.mate = number_value(v, 4294967295u64) as u32;
            } else if word_is(k, "movetime") {
                options.movetime = number_value(v, u64::MAX);
            } else if word_is(k, "infinite") {
                options.infinite = true;
            }
            i = i + 1;
        }
        UciCommand::Go(options)
    }
}

/// The index of the first word `w` of `ws` from `from` on, or -1.
pub open spec fn find_word(ws: Seq<Seq<char>>, w: Seq<char>, from: int) -> int
    decreases ws.len() - from,
{
    if from < 0 || from >= ws.len() {
        -1
    } else if ws[from] == w {
        from
    } else {
        find_word(ws, w, from + 1)
    }
}

proof fn lemma_find_word(ws: Seq<Seq<char>>, w: Seq<char>, from: int)
    requires
        0 <= from,
    ensures
        find_word(ws, w, from) == -1 || (from <= find_word(ws, w, from) < ws.len()
            && ws[find_word(ws, w, from)] == w),
    decreases ws.len() - from,
{
    if from < ws.len() && ws[from] != w {
        lemma_find_word(ws, w, from + 1);
    }
}

/// The index of the first word `moves`, or -1.
pub open spec fn moves_index(ws: Seq<Seq<char>>) -> int {
    find_word(ws, "moves"@, 0)
}

/// The index of the first word `moves` of `args`.
fn find_moves(args: &Vec<Vec<char>>) -> (r: Option<usize>)
    ensures
        match r {
            Some(i) => moves_index(words(args@)) == i && i < args@.len(),
            None => moves_index(words(args@)) == -1,
        },
{
    let ghost ws = words(args@);
    let mut i: usize = 0;
    while i < args.len()
        invariant
            ws == words(args@),
            i <= args@.len(),
            find_word(ws, "moves"@, 0) == find_word(ws, "moves"@, i as int),
        decreases args.len() - i,
    {
        if word_is(&args[i], "moves") {
            assert(ws[i as int] == "moves"@);
            return Some(i);
        }
        assert(ws[i as int] != "moves"@);
        i = i + 1;
    }
    None
}

/// The FEN text of the arguments of `position`: the words after `fen` that precede the
/// word `moves` when there is one (up to the end otherwise), joined by spaces; `None` for
/// any other first word.
pub open spec fn position_fen(ws: Seq<Seq<char>>) -> Option<Seq<char>> {
    if ws.len() > 0 && ws[0] == "fen"@ {
        let m = moves_index(ws);
        let hi = if m >= 0 { m } else { ws.len() as int };
        Some(join_spec(ws.subrange(1, hi)))
    } else {
        None
    }
}

/// The words after `moves`: the moves to play (none without the word `moves`).
pub open spec fn position_moves(ws: Seq<Seq<char>>) -> Seq<Seq<char>> {
    let m = moves_index(ws);
    if m >= 0 {
        ws.subrange(m + 1, ws.len() as int)
    } else {
        Seq::empty()
    }
}

/// A word that reads as a move in coordinate notation (see `coordinate_move`), its fifth
/// character, if any, being ASCII.
pub open spec fn move_word_ok(t: Seq<char>) -> bool {
    &&& t.len() < 5 || (t[4] as u32) < 128
    &&& coordinate_move(t) is Some
}

/// The arguments of `position` can be read: there is a first word, and every move reads.
pub open spec fn position_args_ok(ws: Seq<Seq<char>>) -> bool {
    &&& ws.len() > 0
    &&& forall|j: int| 0 <= j < position_moves(ws).len() ==> #[trigger] move_word_ok(position_moves(ws)[j])
}

/// The FEN text of the arguments of `position` (see `position_fen`).
pub fn fen_text(args: &Vec<Vec<char>>) -> (r: Option<String>)
    ensures
        match position_fen(words(args@)) {
            Some(f) => r matches Some(s) && s@ == f,
            None => r is None,
        },
{
    let ghost ws = words(args@);
    if args.len() == 0 || !word_is(&args[0], "fen") {
        return None;
    }
    proof {
        reveal_strlit("fen");
        reveal_strlit("moves");
        assert(ws[0] == "fen"@);
        assert("fen"@ != "moves"@);
        lemma_find_word(ws, "moves"@, 0);
    }
    let hi = match find_moves(args) {
        Some(m) => m,
        None => args.len(),
    };
    Some(join_words(args, 1, hi))
}

/// Whether the arguments of `position` can be read (see `position_args_ok`).
pub fn position_args_valid(args: &Vec<Vec<char>>) -> (r: bool)
    ensures
        r == position_args_ok(words(args@)),
{
    let ghost ws = words(args@);
    if args.len() == 0 {
        return false;
    }
    match find_moves(args) {
        None => {
            assert(position_moves(ws).len() == 0);
            true
        },
        Some(m) => {
            let ghost mv = position_moves(ws);
            let mut j: usize = m + 1;
            while j < args.len()
                invariant
                    ws == words(args@),
                    mv == position_moves(ws),
                    moves_index(ws) == m,
                    m + 1 <= j <= args@.len(),
                    forall|i: int| 0 <= i < j - m - 1 ==> #[trigger] move_word_ok(mv[i]),
                decreases args.len() - j,
            {
                let ok = move_word_valid(&args[j]);
                assert(mv[j - m - 1] == args@[j as int]@);
                if !ok {
                    assert(!move_word_ok(mv[j - m - 1]));
                    return false;
                }
                j = j + 1;
            }
            true
        },
    }
}

/// Whether word `t` reads as a move (see `move_word_ok`).
fn move_word_valid(t: &Vec<char>) -> (r: bool)
    ensures
        r == move_word_ok(t@),
{
    if t.len() >= 5 && (t[4] as u32) >= 128 {
        return false;
    }
    let mut s = String::new();
    push_chars(&mut s, t);
    move_from_str(s.as_str()).is_some()
}

/// The move `mv` as the board of this engine writes it: in standard chess a king stepping
/// from the e-file to the c- or g-file, read from a GUI as castling, becomes the king
/// taking its own rook on the a- or h-file. `from_piece` is the kind of piece on the
/// origin square.
pub open spec fn castling_as_board_move(mv: ChessMove, from_piece: Option<PieceKind>, chess960: bool) -> ChessMove {
    let to_file = mv.to.0 % 8;
    if !chess960 && from_piece == Some(PieceKind(KIND_KING)) && mv.from.0 % 8 == 4 && (to_file == 2 || to_file == 6) {
        ChessMove { to: Square((mv.to.0 - to_file + if to_file == 2 { 0int } else { 7int }) as u32), ..mv }
    } else {
        mv
    }
}

/// Rewrites `mv` as the board writes it (see `castling_as_board_move`), given the kind
/// of piece on its origin square.
pub fn castling_to_board(mv: ChessMove, from_piece: Option<PieceKind>, chess960: bool) -> (r: ChessMove)
    requires
        mv.wf(),
    ensures
        r == castling_as_board_move(mv, from_piece, chess960),
        r.wf(),
{
    let to_file = mv.to.0 % 8;
    let is_king = match from_piece {
        Some(k) => k.0 == KIND_KING,
        None => false,
    };
    if !chess960 && is_king && mv.from.0 % 8 == 4 && (to_file == 2 || to_file == 6) {
        let rook_file: u32 = if to_file == 2 { 0 } else { 7 };
        ChessMove { from: mv.from, to: Square(mv.to.0 - to_file + rook_file), promotion: mv.promotion }
    } else {
        mv
    }
}

/// Rewrites `mv`, read from a GUI, as the board writes it, looking up the piece on its
/// origin square on `board`: a castling king step becomes the king taking its rook.
fn convert_move(mv: &mut ChessMove, board: &cozy_chess::Board, chess960: bool)
    requires
        old(mv).wf(),
    ensures
        final(mv).wf(),
        *final(mv) == castling_as_board_move(*old(mv), piece_on_of(*board, old(mv).from.0), chess960),
{
    let piece = board_piece_on(board, mv.from);
    let converted = castling_to_board(*mv, piece, chess960);
    *mv = converted;
}

/// The board after playing the first `n` move words `ms` from board `b`, each read in
/// coordinate notation and rewritten as the board writes castling (see `convert_move`).
pub open spec fn board_after_words(b: cozy_chess::Board, ms: Seq<Seq<char>>, chess960: bool, n: nat) -> cozy_chess::Board
    decreases n,
{
    if n == 0 {
        b
    } else {
        let prev = board_after_words(b, ms, chess960, (n - 1) as nat);
        let mv = coordinate_move(ms[n - 1])->0;
        crate::search::perft::child_of(prev, castling_as_board_move(mv, piece_on_of(prev, mv.from.0), chess960))
    }
}

impl Position {
    /// Reads the arguments of `position`: the starting position for `startpos` (or any
    /// first word but `fen`), the position of the FEN text otherwise (see `position_fen`),
    /// with the tables of `uci_options`; then plays the moves after `moves`, each rewritten
    /// as the board writes castling.
    pub fn parse(args: &Vec<Vec<char>>, uci_options: &UciOptions) -> (c: UciCommand)
        requires
            position_args_ok(words(args@)),
        ensures
            c matches UciCommand::Position(p) && {
                &&& p.wf()
                &&& p.stack_spec().len() == position_moves(words(args@)).len()
                &&& crate::evaluate::tables_built(p.evaluator_spec().tables(), uci_options.piece_values,
                    uci_options.psq_bonus)
                &&& {
                    let fen = match position_fen(words(args@)) { Some(f) => f, None => STARTFEN@ };
                    crate::board::fen_board_of(fen, uci_options.chess960) matches Some(b0) ==> p.board_spec()
                        == board_after_words(b0, position_moves(words(args@)), uci_options.chess960,
                        position_moves(words(args@)).len())
                }
            },
    {
        let ghost ws = words(args@);
        let fen = fen_text(args);
        let mut builder = Position::new();
        match &fen {
            Some(f) => {
                builder.fen(f.as_str());
            },
            None => {},
        }
        builder.uci_options(uci_options);
        let ghost fen0 = match position_fen(ws) { Some(f) => f, None => STARTFEN@ };
        let mut position = builder.build();
        let ghost start = position.board_spec();
        match find_moves(args) {
            None => {
                assert(position_moves(ws).len() == 0);
            },
            Some(m) => {
                let ghost mv = position_moves(ws);
                let ghost tables = position.evaluator_spec().tables();
                let len = args.len();
                assert(m < len);
                let mut j: usize = m + 1;
                while j < args.len()
                    invariant
                        ws == words(args@),
                        mv == position_moves(ws),
                        position_args_ok(ws),
                        moves_index(ws) == m,
                        m + 1 <= j <= args@.len(),
                        position.wf(),
                        position.stack_spec().len() == j - m - 1,
                        position.evaluator_spec().tables() == tables,
                        crate::board::fen_board_of(fen0, uci_options.chess960) matches Some(b0) ==> start == b0,
                        position.board_spec() == board_after_words(start, mv, uci_options.chess960, (j - m - 1) as nat),
                    decreases args.len() - j,
                {
                    proof {
                        assert(mv[j - m - 1] == args@[j as int]@);
                        assert(move_word_ok(mv[j - m - 1]));
                    }
                    let mut s = String::new();
                    push_chars(&mut s, &args[j]);
                    let mut played = match move_from_str(s.as_str()) {
                        Some(x) => x,
                        None => {
                            assert(false);
                            ChessMove::placeholder()
                        },
                    };
                    convert_move(&mut played, position.board(), uci_options.chess960);
                    position.do_move(played);
                    j = j + 1;
                }
            },
        }
        UciCommand::Position(position)
    }
}

/// A command line can be read: the arguments of `setoption`, `position` and `go` can.
pub open spec fn uci_line_ok(ws: Seq<Seq<char>>) -> bool {
    ws.len() > 0 ==> {
        &&& ws[0] == "setoption"@ ==> setoption_ok(ws.drop_first())
        &&& ws[0] == "position"@ ==> position_args_ok(ws.drop_first())
        &&& ws[0] == "go"@ ==> go_args_ok(ws.drop_first())
    }
}

/// The words of `line`, as a vector of words.
fn line_words(line: &str) -> (r: Vec<Vec<char>>)
    ensures
        words(r@) == fields(line@),
{
    let chars = str_chars(line);
    let toks = split_fields(&chars);
    assert(words(toks@) =~= fields(line@));
    toks
}

impl UciCommand {
    /// Whether the command `line` can be read (see `uci_line_ok`).
    pub fn line_valid(line: &str) -> (r: bool)
        ensures
            r == uci_line_ok(fields(line@)),
    {
        let mut toks = line_words(line);
        let ghost ws = words(toks@);
        if toks.len() == 0 {
            return true;
        }
        let first = toks.remove(0);
        assert(words(toks@) =~= ws.drop_first());
        if word_is(&first, "setoption") && !setoption_valid(&toks) {
            return false;
        }
        if word_is(&first, "position") && !position_args_valid(&toks) {
            return false;
        }
        if word_is(&first, "go") && !GoOptions::args_valid(&toks) {
            return false;
        }
        true
    }

    /// Reads the command `line`: its first word names the command and the other words are
    /// its arguments. `setoption` updates `uci_options` (see `setoption_apply`), `position`
    /// and `go` read their arguments (see `Position::parse` and `GoOptions::parse`), an
    /// unknown word is handed back as `Invalid`, and an empty line as `Invalid` with no word.
    pub fn parse(line: &str, uci_options: &mut UciOptions) -> (c: UciCommand)
        requires
            uci_line_ok(fields(line@)),
        ensures
            ({
                let ws = fields(line@);
                let rest = ws.drop_first();
                let same = *final(uci_options) == *old(uci_options);
                if ws.len() == 0 {
                    same && (c matches UciCommand::Invalid(s) && s@.len() == 0)
                } else if ws[0] == "uci"@ {
                    same && c is Uci
                } else if ws[0] == "debug"@ {
                    same && c is Debug
                } else if ws[0] == "d"@ {
                    same && c is Display
                } else if ws[0] == "isready"@ {
                    same && c is IsReady
                } else if ws[0] == "setoption"@ {
                    &&& *final(uci_options) == setoption_apply(*old(uci_options), rest)
                    &&& c == UciCommand::SetOption(*final(uci_options))
                } else if ws[0] == "ucinewgame"@ {
                    same && c is UciNewGame
                } else if ws[0] == "position"@ {
                    &&& same
                    &&& c matches UciCommand::Position(p) && {
                        &&& p.wf()
                        &&& p.stack_spec().len() == position_moves(rest).len()
                        &&& crate::evaluate::tables_built(p.evaluator_spec().tables(),
                            old(uci_options).piece_values, old(uci_options).psq_bonus)
                    }
                } else if ws[0] == "go"@ {
                    same && (c matches UciCommand::Go(o) && o@ == go_settings(rest))
                } else if ws[0] == "stop"@ {
                    same && c is Stop
                } else if ws[0] == "ponderhit"@ {
                    same && c is Ponderhit
                } else if ws[0] == "quit"@ {
                    same && c is Quit
                } else {
                    same && (c matches UciCommand::Invalid(s) && s@ == ws[0])
                }
            }),
    {
        let mut toks = line_words(line);
        let ghost ws = words(toks@);
        if toks.len() == 0 {
            return UciCommand::Invalid(String::new());
        }
        let first = toks.remove(0);
        assert(words(toks@) =~= ws.drop_first());
        if word_is(&first, "uci") {
            UciCommand::Uci
        } else if word_is(&first, "debug") {
            UciCommand::Debug
        } else if word_is(&first, "d") {
            UciCommand::Display
        } else if word_is(&first, "isready") {
            UciCommand::IsReady
        } else if word_is(&first, "setoption") {
            uci_options.parse(&toks)
        } else if word_is(&first, "ucinewgame") {
            UciCommand::UciNewGame
        } else if word_is(&first, "position") {
            Position::parse(&toks, uci_options)
        } else if word_is(&first, "go") {
            GoOptions::parse(&toks)
        } else if word_is(&first, "stop") {
            UciCommand::Stop
        } else if word_is(&first, "ponderhit") {
            UciCommand::Ponderhit
        } else if word_is(&first, "quit") {
            UciCommand::Quit
        } else {
            let mut name = String::new();
            push_chars(&mut name, &first);
            UciCommand::Invalid(name)
        }
    }
}

} // verus!
