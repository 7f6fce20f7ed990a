use vstd::prelude::*;
use crate::evaluate::psqt::{PIECE_VALUES, PSQ_BONUS};
use crate::evaluate::score::PHASE_NUM;
use crate::board::PIECE_KIND_NB;
use crate::uci::command::{UciCommand, number_or_zero};
use crate::uci::tokens::{words, word_is, parse_uint, parse_uint_spec};

verus! {

/// Engine options set through UCI: hash size in megabytes, move overhead in
/// milliseconds, Chess960 mode, and the evaluation tables.
#[derive(Debug, Clone, Copy)]
pub struct UciOptions {
    pub hash_size: u32,
    pub move_overhead: u64,
    pub chess960: bool,
    pub psq_bonus: [[[[i16; PHASE_NUM]; 8]; 8]; PIECE_KIND_NB],
    pub piece_values: [[i16; PHASE_NUM]; PIECE_KIND_NB],
}

impl UciOptions {
    /// The options are the defaults: 8 MB hash, 10 ms overhead, standard chess, default tables.
    pub open spec fn is_default(self) -> bool {
        &&& self.hash_size == 8
        &&& self.move_overhead == 10
        &&& !self.chess960
        &&& self.psq_bonus == PSQ_BONUS
        &&& self.piece_values == PIECE_VALUES
    }

    /// The default options, as a value.
    pub open spec fn new_spec() -> UciOptions {
        UciOptions { hash_size: 8, move_overhead: 10, chess960: false, psq_bonus: PSQ_BONUS, piece_values: PIECE_VALUES }
    }

    /// The default options.
    pub fn new() -> (o: UciOptions)
        ensures
            o.is_default(),
            o == UciOptions::new_spec(),
    {
        UciOptions { hash_size: 8, move_overhead: 10, chess960: false, psq_bonus: PSQ_BONUS, piece_values: PIECE_VALUES }
    }

    /// The default options.
    pub fn default() -> (o: UciOptions)
        ensures
            o.is_default(),
    {
        UciOptions::new()
    }
}

/// The arguments of `setoption` have the form `name <key> value <value>`.
pub open spec fn setoption_shape(ws: Seq<Seq<char>>) -> bool {
    ws.len() == 4 && ws[0] == "name"@ && ws[2] == "value"@
}

/// The value `v` of option `k` can be read: a number that fits for `Hash` (32 bits) and
/// `MoveOverhead` (64 bits), `true` or `false` for `chess960`. The options `load` and
/// `dump`, which read and write files, are not handled here.
pub open spec fn option_value_ok(k: Seq<char>, v: Seq<char>) -> bool {
    &&& k == "Hash"@ ==> parse_uint_spec(v, u32::MAX as int) is Some
    &&& k == "MoveOverhead"@ ==> parse_uint_spec(v, u64::MAX as int) is Some
    &&& k == "chess960"@ ==> (v == "true"@ || v == "false"@)
    &&& k != "load"@
    &&& k != "dump"@
}

/// The arguments of `setoption` can be read: there is a first word, at least three when
/// it is `name`, and a well-formed option has a readable value.
pub open spec fn setoption_ok(ws: Seq<Seq<char>>) -> bool {
    &&& ws.len() > 0
    &&& ws[0] == "name"@ ==> ws.len() >= 3
    &&& setoption_shape(ws) ==> option_value_ok(ws[1], ws[3])
}

/// The options after `setoption` with arguments `ws`: `Hash` sets the hash size,
/// `MoveOverhead` the move overhead, `chess960` the variant; `ClearHash`, other keys and
/// arguments of another form change nothing.
pub open spec fn setoption_apply(o: UciOptions, ws: Seq<Seq<char>>) -> UciOptions {
    if !setoption_shape(ws) {
        o
    } else {
        let k = ws[1];
        let v = ws[3];
        if k == "Hash"@ {
            UciOptions { hash_size: number_or_zero(v, u32::MAX as int) as u32, ..o }
        } else if k == "ClearHash"@ {
            o
        } else if k == "MoveOverhead"@ {
            UciOptions { move_overhead: number_or_zero(v, u64::MAX as int) as u64, ..o }
        } else if k == "chess960"@ {
            UciOptions { chess960: v == "true"@, ..o }
        } else {
            o
        }
    }
}

/// Whether the arguments of `setoption` can be read (see `setoption_ok`).
pub fn setoption_valid(args: &Vec<Vec<char>>) -> (r: bool)
    ensures
        r == setoption_ok(words(args@)),
{
    let ghost ws = words(args@);
    if args.len() == 0 {
        return false;
    }
    let named = word_is(&args[0], "name");
    if named && args.len() < 3 {
        return false;
    }
    if !named || !word_is(&args[2], "value") || args.len() != 4 {
        return true;
    }
    let k = &args[1];
    let v = &args[3];
    (!word_is(k, "Hash") || parse_uint(v, 4294967295u64).is_some())
        && (!word_is(k, "MoveOverhead") || parse_uint(v, u64::MAX).is_some())
        && (!word_is(k, "chess960") || word_is(v, "true") || word_is(v, "false"))
        && !word_is(k, "load")
        && !word_is(k, "dump")
}

impl UciOptions {
    /// Reads the arguments of `setoption` (see `setoption_apply`) and hands back the
    /// options.
    pub fn parse(&mut self, args: &Vec<Vec<char>>) -> (c: UciCommand)
        requires
            setoption_ok(words(args@)),
        ensures
            *final(self) == setoption_apply(*old(self), words(args@)),
            c == UciCommand::SetOption(*final(self)),
    {
        let ghost ws = words(args@);
        if !word_is(&args[0], "name") || !word_is(&args[2], "value") || args.len() != 4 {
            return UciCommand::SetOption(*self);
        }
        let k = &args[1];
        let v = &args[3];
        if word_is(k, "Hash") {
            self.hash_size = match parse_uint(v, 4294967295u64) {
                Some(n) => n as u32,
                None => 0,
            };
        } else if word_is(k, "ClearHash") {
        } else if word_is(k, "MoveOverhead") {
            self.move_overhead = match parse_uint(v, u64::MAX) {
                Some(n) => n,
                None => 0,
            };
        } else if word_is(k, "chess960") {
            self.chess960 = word_is(v, "true");
        }
        UciCommand::SetOption(*self)
    }
}

} // verus!
