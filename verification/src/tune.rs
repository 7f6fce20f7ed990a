//! Piece-square tables built from tunable parameters: material values per phase and
//! bonuses per piece, rank and file from the nearer edge, packed as scores.

use vstd::prelude::*;
use crate::psqt::{min_file_spec, mirror};
use crate::types::score::{Score, Value};
use crate::position::classic::fen::{str_chars, split_fields, fields, parse_i32, parse_i32_spec};
use crate::bench::epd::{find_from, find_chars};
use crate::uci::tokens::words;

verus! {

/// The packed score of white piece `p` (1 to 6) on square `s` built from the
/// parameters: its packed material value plus its bonus.
pub open spec fn tuned_white(bonus: [[[Score; 4]; 8]; 6], piece_value: [[Value; 6]; 2], p: int, s: int) -> int {
    piece_value[1][p - 1].0 * 65536 + piece_value[0][p - 1].0
        + bonus[p - 1][s / 8][min_file_spec(s % 8, 7 - s % 8)].0
}

/// The table entry of piece `p` on square `s`: `tuned_white` for white pieces, minus
/// that of the white piece on the mirrored square for black ones, zero elsewhere.
pub open spec fn tuned_psq(bonus: [[[Score; 4]; 8]; 6], piece_value: [[Value; 6]; 2], p: int, s: int) -> int {
    if 1 <= p <= 6 {
        tuned_white(bonus, piece_value, p, s)
    } else if 9 <= p <= 14 {
        -tuned_white(bonus, piece_value, p - 8, mirror(s))
    } else {
        0
    }
}

/// The parameters give entries that fit: each material value fits in 16 bits (the
/// endgame one above the least), and each white entry fits in 32 bits and can be negated.
pub open spec fn params_fit(bonus: [[[Score; 4]; 8]; 6], piece_value: [[Value; 6]; 2]) -> bool {
    &&& forall|k: int| 0 <= k < 6 ==> i16::MIN <= #[trigger] piece_value[0][k].0 <= i16::MAX
    &&& forall|k: int| 0 <= k < 6 ==> i16::MIN < #[trigger] piece_value[1][k].0 <= i16::MAX
    &&& forall|p: int, s: int| 1 <= p <= 6 && 0 <= s < 64 ==> i32::MIN < #[trigger] tuned_white(bonus, piece_value, p, s) <= i32::MAX
}

/// The packed piece-square table of the parameters (see `tuned_psq`).
pub fn init_psq(bonus: &[[[Score; 4]; 8]; 6], piece_value: &[[Value; 6]; 2]) -> (t: [[Score; 64]; 16])
    requires
        params_fit(*bonus, *piece_value),
    ensures
        forall|p: int, s: int| 0 <= p < 16 && 0 <= s < 64 ==> #[trigger] t[p][s].0 == tuned_psq(*bonus, *piece_value, p, s),
{
    let mut t = [[Score(0); 64]; 16];
    let mut pc: usize = 1;
    while pc < 7
        invariant
            1 <= pc <= 7,
            params_fit(*bonus, *piece_value),
            forall|p: int, s: int| 0 <= p < 16 && 0 <= s < 64 && !((1 <= p < pc) || (9 <= p < pc + 8)) ==> #[trigger] t[p][s].0 == 0,
            forall|p: int, s: int| 1 <= p < pc && 0 <= s < 64 ==> #[trigger] t[p][s].0 == tuned_psq(*bonus, *piece_value, p, s),
            forall|p: int, s: int| 9 <= p < pc + 8 && 0 <= s < 64 ==> #[trigger] t[p][s].0 == tuned_psq(*bonus, *piece_value, p, s),
        decreases 7 - pc,
    {
        let score = Score::make(piece_value[0][pc - 1], piece_value[1][pc - 1]);
        let bpc = pc ^ 8;
        assert(bpc == pc + 8) by (bit_vector) requires 1 <= pc < 7, bpc == pc ^ 8usize;
        let mut sq: usize = 0;
        while sq < 64
            invariant
                1 <= pc < 7,
                bpc == pc + 8,
                sq <= 64,
                params_fit(*bonus, *piece_value),
                score.0 == piece_value[1][pc - 1].0 * 65536 + piece_value[0][pc - 1].0,
                forall|p: int, s: int| 0 <= p < 16 && 0 <= s < 64 && !((1 <= p <= pc) || (9 <= p <= pc + 8)) ==> #[trigger] t[p][s].0 == 0,
                forall|p: int, s: int| 1 <= p < pc && 0 <= s < 64 ==> #[trigger] t[p][s].0 == tuned_psq(*bonus, *piece_value, p, s),
                forall|p: int, s: int| 9 <= p < pc + 8 && 0 <= s < 64 ==> #[trigger] t[p][s].0 == tuned_psq(*bonus, *piece_value, p, s),
                forall|s: int| 0 <= s < sq ==> #[trigger] t[pc as int][s].0 == tuned_psq(*bonus, *piece_value, pc as int, s),
                forall|s: int| 0 <= s < 64 && !(0 <= mirror(s) < sq) ==> #[trigger] t[bpc as int][s].0 == 0,
                forall|s: int| 0 <= s < 64 && 0 <= mirror(s) < sq ==> #[trigger] t[bpc as int][s].0 == tuned_psq(*bonus, *piece_value, bpc as int, s),
            decreases 64 - sq,
        {
            let bs = sq ^ 56;
            assert(bs < 64 && bs == (7 - sq / 8) * 8 + sq % 8) by (bit_vector)
                requires sq < 64usize, bs == sq ^ 56usize;
            let f = sq % 8;
            let mf = if f < 7 - f { f } else { 7 - f };
            proof {
                assert(tuned_white(*bonus, *piece_value, pc as int, sq as int) == score.0 + bonus[pc - 1][(sq / 8) as int][mf as int].0);
                assert(mirror(bs as int) == sq);
            }
            let v = score.0 + bonus[pc - 1][sq / 8][mf].0;
            t[pc][sq] = Score(v);
            t[bpc][bs] = Score(-v);
            proof {
                assert forall|s: int| 0 <= s < 64 && 0 <= mirror(s) < sq + 1 implies #[trigger] t[bpc as int][s].0
                    == tuned_psq(*bonus, *piece_value, bpc as int, s) by {
                    if mirror(s) == sq {
                        assert(s == bs) by {
                            assert(mirror(mirror(s)) == s);
                        }
                    }
                }
                assert forall|s: int| 0 <= s < 64 && !(0 <= mirror(s) < sq + 1) implies #[trigger] t[bpc as int][s].0 == 0 by {
                    if s == bs {
                        assert(mirror(bs as int) == sq);
                    }
                }
            }
            sq = sq + 1;
        }
        proof {
            assert forall|s: int| 0 <= s < 64 implies #[trigger] t[bpc as int][s].0 == tuned_psq(*bonus, *piece_value, bpc as int, s) by {
                assert(0 <= mirror(s) < 64);
            }
        }
        pc = pc + 1;
    }
    t
}

/// The number word `k` of `ws` spells as an `i32`, or 0 (also past the end).
pub open spec fn param_at(ws: Seq<Seq<char>>, k: int) -> int {
    if 0 <= k < ws.len() {
        match parse_i32_spec(ws[k]) {
            Some(v) => v,
            None => 0,
        }
    } else {
        0
    }
}

/// The material value of piece `pc` in phase `ph` read from `ws`: number `6 * ph + pc`.
pub open spec fn read_value(ws: Seq<Seq<char>>, ph: int, pc: int) -> int {
    param_at(ws, 6 * ph + pc)
}

/// The bonus of piece `pc` on rank `r` and file `f` (from the nearer edge) read from `ws`:
/// entry `k = 32 * pc + 4 * r + f` is the pair of numbers `12 + 2k` (middlegame) and
/// `13 + 2k` (endgame), packed; 0 when the numbers run out before it.
pub open spec fn read_bonus(ws: Seq<Seq<char>>, pc: int, r: int, f: int) -> int {
    let k = 32 * pc + 4 * r + f;
    if 13 + 2 * k < ws.len() {
        param_at(ws, 13 + 2 * k) * 65536 + param_at(ws, 12 + 2 * k)
    } else {
        0
    }
}

/// `b` and `v` hold the parameters read from `ws`.
pub open spec fn params_read(ws: Seq<Seq<char>>, b: [[[Score; 4]; 8]; 6], v: [[Value; 6]; 2]) -> bool {
    &&& forall|ph: int, pc: int| 0 <= ph < 2 && 0 <= pc < 6 ==> #[trigger] v[ph][pc].0 == read_value(ws, ph, pc)
    &&& forall|pc: int, r: int, f: int| 0 <= pc < 6 && 0 <= r < 8 && 0 <= f < 4 ==> #[trigger] b[pc][r][f].0
        == read_bonus(ws, pc, r, f)
}

/// The bonus pair of entry `k` has a middlegame value that fits in 16 bits and an endgame
/// value above the least 16-bit one.
pub open spec fn bonus_pair_fits(ws: Seq<Seq<char>>, k: int) -> bool {
    13 + 2 * k < ws.len() ==> i16::MIN <= param_at(ws, 12 + 2 * k) <= i16::MAX && i16::MIN < param_at(ws, 13 + 2 * k)
        <= i16::MAX
}

/// The words `ws` can be read as parameters: each spells an `i32`; after the twelve
/// material values they come in pairs, at most one pair per bonus entry, each fitting a
/// packed score.
pub open spec fn params_readable(ws: Seq<Seq<char>>) -> bool {
    &&& forall|i: int| 0 <= i < ws.len() ==> #[trigger] parse_i32_spec(ws[i]) is Some
    &&& ws.len() > 12 ==> (ws.len() - 12) % 2 == 0 && ws.len() <= 12 + 2 * 192
    &&& forall|k: int| 0 <= k < 192 ==> #[trigger] bonus_pair_fits(ws, k)
}

/// Reads tuning parameters from the words `ws`: twelve material values (the middlegame
/// ones of pawn to king, then the endgame ones), then pairs of middlegame and endgame
/// bonuses, piece by piece, rank by rank, file by file (see `params_read`).
pub fn read_params(ws: &Vec<Vec<char>>) -> (r: ([[[Score; 4]; 8]; 6], [[Value; 6]; 2]))
    requires
        params_readable(words(ws@)),
    ensures
        params_read(words(ws@), r.0, r.1),
{
    let ghost w = words(ws@);
    let n = ws.len();
    let mut piece_value = [[Value(0); 6]; 2];
    let mut bonus = [[[Score(0); 4]; 8]; 6];
    let mut j: usize = 0;
    while j < 12 && j < n
        invariant
            n == ws@.len(),
            w == words(ws@),
            params_readable(w),
            j <= 12,
            forall|ph: int, pc: int| 0 <= ph < 2 && 0 <= pc < 6 ==> #[trigger] piece_value[ph][pc].0
                == if 6 * ph + pc < j { read_value(w, ph, pc) } else { 0 },
        decreases 12 - j,
    {
        proof {
            assert(parse_i32_spec(w[j as int]) is Some);
            assert(w[j as int] == ws@[j as int]@);
        }
        let v = match parse_i32(&ws[j]) {
            Some(v) => v,
            None => 0,
        };
        piece_value[j / 6][j % 6] = Value(v);
        j = j + 1;
    }
    proof {
        assert forall|ph: int, pc: int| 0 <= ph < 2 && 0 <= pc < 6 implies #[trigger] piece_value[ph][pc].0
            == read_value(w, ph, pc) by {
            if 6 * ph + pc >= j {
                assert(6 * ph + pc >= n);
            }
        }
    }
    let mut k: usize = 0;
    while k < 192 && 13 + 2 * k < n
        invariant
            n == ws@.len(),
            w == words(ws@),
            params_readable(w),
            k <= 192,
            forall|ph: int, pc: int| 0 <= ph < 2 && 0 <= pc < 6 ==> #[trigger] piece_value[ph][pc].0
                == read_value(w, ph, pc),
            forall|pc: int, r: int, f: int| 0 <= pc < 6 && 0 <= r < 8 && 0 <= f < 4 ==> #[trigger] bonus[pc][r][f].0
                == if 32 * pc + 4 * r + f < k { read_bonus(w, pc, r, f) } else { 0 },
        decreases 192 - k,
    {
        let i = 12 + 2 * k;
        proof {
            assert(parse_i32_spec(w[i as int]) is Some);
            assert(parse_i32_spec(w[i + 1]) is Some);
            assert(w[i as int] == ws@[i as int]@);
            assert(w[i + 1] == ws@[i + 1]@);
            assert(bonus_pair_fits(w, k as int));
        }
        let mg = match parse_i32(&ws[i]) {
            Some(v) => v,
            None => 0,
        };
        let eg = match parse_i32(&ws[i + 1]) {
            Some(v) => v,
            None => 0,
        };
        let pc = k / 32;
        let r = (k % 32) / 4;
        let f = k % 4;
        assert(32 * pc + 4 * r + f == k);
        bonus[pc][r][f] = Score::make(Value(mg), Value(eg));
        proof {
            assert forall|p2: int, r2: int, f2: int| 0 <= p2 < 6 && 0 <= r2 < 8 && 0 <= f2 < 4 implies
                #[trigger] bonus[p2][r2][f2].0 == if 32 * p2 + 4 * r2 + f2 < k + 1 { read_bonus(w, p2, r2, f2) } else { 0 } by {
                if 32 * p2 + 4 * r2 + f2 == k {
                    assert(p2 == pc && r2 == r && f2 == f);
                }
            }
        }
        k = k + 1;
    }
    proof {
        assert forall|pc: int, r: int, f: int| 0 <= pc < 6 && 0 <= r < 8 && 0 <= f < 4 implies #[trigger] bonus[pc][r][f].0
            == read_bonus(w, pc, r, f) by {
            if 32 * pc + 4 * r + f >= k {
                assert(13 + 2 * (32 * pc + 4 * r + f) >= n);
            }
        }
    }
    (bonus, piece_value)
}

/// `s` begins with `p`.
fn starts_with(s: &Vec<char>, p: &str) -> (r: bool)
    ensures
        r == (s@.len() >= p@.len() && s@.subrange(0, p@.len() as int) == p@),
{
    let pc = str_chars(p);
    if s.len() < pc.len() {
        return false;
    }
    let mut i: usize = 0;
    while i < pc.len()
        invariant
            i <= pc@.len(),
            pc@.len() <= s@.len(),
            pc@ == p@,
            forall|m: int| 0 <= m < i ==> s@[m] == pc@[m],
        decreases pc.len() - i,
    {
        if s[i] != pc[i] {
            assert(s@.subrange(0, p@.len() as int)[i as int] != p@[i as int]);
            return false;
        }
        i = i + 1;
    }
    assert(s@.subrange(0, p@.len() as int) =~= p@);
    true
}

/// The number of bytes of `c` in UTF-8.
pub open spec fn utf8_width(c: char) -> int {
    if (c as u32) < 0x80 {
        1
    } else if (c as u32) < 0x800 {
        2
    } else if (c as u32) < 0x10000 {
        3
    } else {
        4
    }
}

/// The number of bytes of `s` in UTF-8.
pub open spec fn utf8_len(s: Seq<char>) -> int
    decreases s.len(),
{
    if s.len() == 0 {
        0
    } else {
        utf8_len(s.drop_last()) + utf8_width(s.last())
    }
}

/// Byte `b` of `s` in UTF-8 starts a character (or ends the text).
pub open spec fn char_boundary(s: Seq<char>, b: int) -> bool {
    exists|k: int| 0 <= k <= s.len() && #[trigger] utf8_len(s.subrange(0, k)) == b
}

/// The words of a `tune` command that carry parameters: `args` begins with `startpos` or
/// `fen`, and the words after the first `params` are the parameters; `None` otherwise.
pub open spec fn tune_params(args: Seq<char>) -> Option<Seq<Seq<char>>> {
    let p = find_from(args, "params"@, 0);
    let known = (args.len() >= 8 && args.subrange(0, 8) == "startpos"@) || (args.len() >= 3 && args.subrange(0, 3)
        == "fen"@);
    if known && p >= 0 {
        Some(fields(args.subrange(p + 6, args.len() as int)))
    } else {
        None
    }
}

/// Builds the piece-square table from the parameters of a `tune` command (see
/// `tune_params`): `None` when the command names no position or has no parameters,
/// otherwise the table of the parameters read (see `read_params` and `init_psq`).
pub fn eval(args: &str) -> (r: Option<[[Score; 64]; 16]>)
    requires
        char_boundary(args@, 8),
        !(args@.len() >= 8 && args@.subrange(0, 8) == "startpos"@) ==> char_boundary(args@, 3),
        tune_params(args@) matches Some(ws) ==> params_readable(ws) && forall|b: [[[Score; 4]; 8]; 6], v: [[Value; 6]; 2]|
            #[trigger] params_read(ws, b, v) ==> params_fit(b, v),
    ensures
        match tune_params(args@) {
            None => r is None,
            Some(ws) => r matches Some(t) && exists|b: [[[Score; 4]; 8]; 6], v: [[Value; 6]; 2]| params_read(ws, b, v)
                && forall|p: int, s: int| 0 <= p < 16 && 0 <= s < 64 ==> #[trigger] t[p][s].0 == tuned_psq(b, v, p, s),
        },
{
    let chars = str_chars(args);
    let n = chars.len();
    proof {
        reveal_strlit("startpos");
        reveal_strlit("fen");
        reveal_strlit("params");
    }
    let known = starts_with(&chars, "startpos") || starts_with(&chars, "fen");
    if !known {
        return None;
    }
    let key = str_chars("params");
    let p = match find_chars(&chars, &key) {
        Some(p) => p,
        None => {
            return None;
        },
    };
    assert(p + 6 <= n);
    let mut rest: Vec<char> = Vec::new();
    let mut i: usize = p + 6;
    while i < chars.len()
        invariant
            p + 6 <= i <= chars@.len(),
            rest@ == chars@.subrange(p + 6, i as int),
        decreases chars.len() - i,
    {
        rest.push(chars[i]);
        proof {
            assert(rest@ =~= chars@.subrange(p + 6, i + 1));
        }
        i = i + 1;
    }
    let ws = split_fields(&rest);
    proof {
        assert(words(ws@) =~= fields(args@.subrange(p + 6, args@.len() as int)));
        assert(tune_params(args@) == Some(words(ws@)));
    }
    let (bonus, piece_value) = read_params(&ws);
    proof {
        assert(params_read(words(ws@), bonus, piece_value));
    }
    Some(init_psq(&bonus, &piece_value))
}

} // verus!
