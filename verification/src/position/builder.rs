use vstd::prelude::*;
use crate::position::Position;
use crate::evaluate::Evaluator;
use crate::uci::option::UciOptions;

verus! {

/// The FEN of the starting position.
pub const STARTFEN: &'static str = "rnbqkbnr/pppppppp/8/8/8/8/PPPPPPPP/RNBQKBNR w KQkq - 0 1";

/// Builder for a position: an optional FEN (the starting position when absent) and
/// optional options (the defaults when absent).
#[derive(Debug)]
pub struct PosBuilder {
    pub fen: Option<String>,
    pub uci_options: Option<UciOptions>,
}

impl PosBuilder {
    /// A builder with neither FEN nor options.
    pub fn default() -> (b: PosBuilder)
        ensures
            b.fen is None,
            b.uci_options is None,
    {
        PosBuilder { fen: None, uci_options: None }
    }

    /// Sets the FEN.
    pub fn fen(&mut self, fen: &str) -> (r: &mut Self)
        ensures
            r.fen matches Some(s) && s@ == fen@,
            r.uci_options == old(self).uci_options,
            *final(self) == *final(r),
    {
        let s = fen.to_string();
        proof { vstd::string::to_string_from_display_ensures_for_str(fen, s); }
        self.fen = Some(s);
        self
    }

    /// Sets the options.
    pub fn uci_options(&mut self, uci_options: &UciOptions) -> (r: &mut Self)
        ensures
            r.uci_options == Some(*uci_options),
            r.fen == old(self).fen,
            *final(self) == *final(r),
    {
        self.uci_options = Some(*uci_options);
        self
    }

    /// The position of the FEN (or the starting position) with evaluation tables from the
    /// options (or the defaults), and no move played.
    pub fn build(&mut self) -> (p: Position)
        ensures
            p.wf(),
            p.stack_spec().len() == 0,
            p.evaluator_spec().psq_spec() == (0i16, 0i16),
            ({
                let o = match old(self).uci_options { Some(o) => o, None => UciOptions::new_spec() };
                let fen = match old(self).fen { Some(f) => f@, None => STARTFEN@ };
                crate::board::fen_board_of(fen, o.chess960) matches Some(read) ==> p.board_spec() == read
            }),
            ({
                let o = match old(self).uci_options { Some(o) => o, None => UciOptions::new_spec() };
                &&& crate::evaluate::tables_built(p.evaluator_spec().tables(), o.piece_values, o.psq_bonus)
                &&& crate::evaluate::tables_mirrored(p.evaluator_spec().tables())
            }),
    {
        let opts = match self.uci_options {
            Some(o) => o,
            None => UciOptions::new(),
        };
        let board = match &self.fen {
            Some(f) => Position::board_from_fen(f.as_str(), opts.chess960),
            None => Position::board_from_fen(STARTFEN, opts.chess960),
        };
        let evaluator = Evaluator::new(&opts.piece_values, &opts.psq_bonus);
        Position::from_parts(board, evaluator)
    }
}

} // verus!
