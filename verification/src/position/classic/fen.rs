//! Reading and writing the classic position in Forsyth-Edwards Notation.

use vstd::prelude::*;
use vstd::std_specs::iter::IteratorSpec;
use crate::attacks::attack_bb::{between_bb, square_bb};
use crate::attacks::sq_bit;
use crate::position::classic::{Position, StateInfo, valid_piece, entry_ok, pieces_key, pieces_psq};
use crate::position::classic::game::{check_info_current, king_sq, position_key};
use crate::position::classic::inline::{piece_set, attackers_spec, type_set, color_set};
use crate::psqt;
use crate::types::bitboard::Bitboard;
use crate::types::moves::{push_square, square_chars, CastlingRight, castling_right_c, KING_SIDE, QUEEN_SIDE, WHITE_CASTLING, BLACK_CASTLING};
use crate::types::piece::{Color, Piece, PieceType, PAWN, ROOK, KING, WHITE, BLACK};
use crate::types::square::{File, Rank, Square, relative_square, string_push};
use crate::types::piece::piece_char_spec;

verus! {

broadcast use vstd::string::axiom_spec_iter, vstd::string::next_postcondition;

/// The characters of `s`.
pub fn str_chars(s: &str) -> (v: Vec<char>)
    ensures
        v@ == s@,
{
    let mut v: Vec<char> = Vec::new();
    for c in it: s.chars()
        invariant
            it.seq() == s@,
            v@ == it.seq().take(it.index() as int),
    {
        v.push(c);
        proof {
            assert(v@ =~= it.seq().take(it.index() as int + 1));
        }
    }
    assert(v@ =~= s@);
    v
}

/// A white-space character (Unicode `White_Space`, as `char::is_whitespace` has it): the
/// separator between fields.
pub open spec fn is_blank(c: char) -> bool {
    ||| c == ' '
    ||| '\t' <= c <= '\r'
    ||| c == '\u{85}'
    ||| c == '\u{a0}'
    ||| c == '\u{1680}'
    ||| '\u{2000}' <= c <= '\u{200a}'
    ||| c == '\u{2028}'
    ||| c == '\u{2029}'
    ||| c == '\u{202f}'
    ||| c == '\u{205f}'
    ||| c == '\u{3000}'
}

/// Whether `c` is white space (see `is_blank`).
pub fn blank_char(c: char) -> (r: bool)
    ensures
        r == is_blank(c),
{
    c == ' ' || ('\t' <= c && c <= '\r') || c == '\u{85}' || c == '\u{a0}' || c == '\u{1680}'
        || ('\u{2000}' <= c && c <= '\u{200a}') || c == '\u{2028}' || c == '\u{2029}' || c == '\u{202f}'
        || c == '\u{205f}' || c == '\u{3000}'
}

/// The blank-separated fields of `s`, `cur` being the field read so far.
pub open spec fn fields_from(s: Seq<char>, cur: Seq<char>) -> Seq<Seq<char>>
    decreases s.len(),
{
    if s.len() == 0 {
        if cur.len() > 0 { seq![cur] } else { Seq::empty() }
    } else if is_blank(s[0]) {
        if cur.len() > 0 {
            seq![cur] + fields_from(s.drop_first(), Seq::empty())
        } else {
            fields_from(s.drop_first(), Seq::empty())
        }
    } else {
        fields_from(s.drop_first(), cur.push(s[0]))
    }
}

/// The blank-separated fields of `s`.
pub open spec fn fields(s: Seq<char>) -> Seq<Seq<char>> {
    fields_from(s, Seq::empty())
}

proof fn lemma_fields_step(s: Seq<char>, i: int, cur: Seq<char>)
    requires
        0 <= i < s.len(),
    ensures
        fields_from(s.subrange(i, s.len() as int), cur) == if is_blank(s[i]) {
            if cur.len() > 0 {
                seq![cur] + fields_from(s.subrange(i + 1, s.len() as int), Seq::empty())
            } else {
                fields_from(s.subrange(i + 1, s.len() as int), Seq::empty())
            }
        } else {
            fields_from(s.subrange(i + 1, s.len() as int), cur.push(s[i]))
        },
{
    let t = s.subrange(i, s.len() as int);
    assert(t.drop_first() =~= s.subrange(i + 1, s.len() as int));
    assert(t[0] == s[i]);
}

/// Splits `s` into its blank-separated fields.
pub fn split_fields(s: &Vec<char>) -> (r: Vec<Vec<char>>)
    ensures
        r@.len() == fields(s@).len(),
        forall|i: int| 0 <= i < r@.len() ==> (#[trigger] r@[i])@ == fields(s@)[i],
{
    let mut out: Vec<Vec<char>> = Vec::new();
    let ghost mut done: Seq<Seq<char>> = Seq::empty();
    let mut cur: Vec<char> = Vec::new();
    let mut i: usize = 0;
    proof {
        assert(s@.subrange(0, s@.len() as int) =~= s@);
        assert(done + fields_from(s@.subrange(0, s@.len() as int), cur@) =~= fields(s@));
    }
    while i < s.len()
        invariant
            i <= s@.len(),
            out@.len() == done.len(),
            forall|k: int| 0 <= k < out@.len() ==> (#[trigger] out@[k])@ == done[k],
            done + fields_from(s@.subrange(i as int, s@.len() as int), cur@) == fields(s@),
        decreases s.len() - i,
    {
        let c = s[i];
        proof {
            lemma_fields_step(s@, i as int, cur@);
        }
        if blank_char(c) {
            if cur.len() > 0 {
                let tok = cur;
                proof {
                    assert(done.push(tok@) + fields_from(s@.subrange(i + 1, s@.len() as int), Seq::empty())
                        =~= done + (seq![tok@] + fields_from(s@.subrange(i + 1, s@.len() as int), Seq::empty())));
                    done = done.push(tok@);
                }
                out.push(tok);
                cur = Vec::new();
            } else {
                cur = Vec::new();
            }
        } else {
            cur.push(c);
        }
        i = i + 1;
    }
    proof {
        assert(s@.subrange(s@.len() as int, s@.len() as int) =~= Seq::<char>::empty());
    }
    if cur.len() > 0 {
        proof {
            done = done.push(cur@);
        }
        out.push(cur);
    }
    proof {
        assert(done =~= fields(s@));
    }
    out
}

/// The value of decimal digits `d`, read left to right.
pub open spec fn digits_value(d: Seq<char>) -> int
    decreases d.len(),
{
    if d.len() == 0 {
        0
    } else {
        digits_value(d.drop_last()) * 10 + (d.last() as int - '0' as int)
    }
}

/// Every character of `d` is a decimal digit.
pub open spec fn all_digits(d: Seq<char>) -> bool {
    forall|i: int| 0 <= i < d.len() ==> '0' <= #[trigger] d[i] <= '9'
}

/// The number `t` spells as Rust reads an `i32`: an optional sign, at least one digit,
/// nothing else, and a value in range; `None` otherwise.
pub open spec fn parse_i32_spec(t: Seq<char>) -> Option<int> {
    let neg = t.len() > 0 && t[0] == '-';
    let signed = t.len() > 0 && (t[0] == '-' || t[0] == '+');
    let d = if signed { t.drop_first() } else { t };
    let v = if neg { -digits_value(d) } else { digits_value(d) };
    if d.len() > 0 && all_digits(d) && i32::MIN <= v <= i32::MAX { Some(v) } else { None }
}

pub proof fn lemma_digits_step(d: Seq<char>, i: int)
    requires
        0 <= i < d.len(),
    ensures
        digits_value(d.subrange(0, i + 1)) == digits_value(d.subrange(0, i)) * 10 + (d[i] as int - '0' as int),
{
    assert(d.subrange(0, i + 1).drop_last() =~= d.subrange(0, i));
}

pub proof fn lemma_digits_nonneg(d: Seq<char>)
    requires
        all_digits(d),
    ensures
        digits_value(d) >= 0,
    decreases d.len(),
{
    if d.len() > 0 {
        assert(all_digits(d.drop_last()));
        lemma_digits_nonneg(d.drop_last());
    }
}

pub proof fn lemma_digits_monotone(d: Seq<char>, i: int)
    requires
        all_digits(d),
        0 <= i <= d.len(),
    ensures
        digits_value(d.subrange(0, i)) <= digits_value(d),
    decreases d.len() - i,
{
    if i < d.len() {
        lemma_digits_monotone(d, i + 1);
        lemma_digits_step(d, i);
        assert(all_digits(d.subrange(0, i)));
        lemma_digits_nonneg(d.subrange(0, i));
    } else {
        assert(d.subrange(0, i) =~= d);
    }
}

/// Reads `t` as an `i32` the way Rust's `parse` does (see `parse_i32_spec`).
pub fn parse_i32(t: &Vec<char>) -> (r: Option<i32>)
    ensures
        match parse_i32_spec(t@) {
            Some(v) => r == Some(v as i32),
            None => r is None,
        },
{
    let n = t.len();
    if n == 0 {
        return None;
    }
    let neg = t[0] == '-';
    let start: usize = if t[0] == '-' || t[0] == '+' { 1 } else { 0 };
    let ghost d = if start == 1 { t@.drop_first() } else { t@ };
    proof {
        assert(d =~= t@.subrange(start as int, n as int));
    }
    if start == n {
        return None;
    }
    let mut acc: i64 = 0;
    let mut i: usize = start;
    while i < n
        invariant
            start <= i <= n,
            n == t@.len(),
            n > 0,
            d == t@.subrange(start as int, n as int),
            d == (if t@[0] == '-' || t@[0] == '+' { t@.drop_first() } else { t@ }),
            neg == (t@[0] == '-'),
            acc == digits_value(d.subrange(0, i - start)),
            all_digits(d.subrange(0, i - start)),
            0 <= acc <= 2147483648,
        decreases n - i,
    {
        let c = t[i];
        if !('0' <= c && c <= '9') {
            proof {
                let k = (i - start) as int;
                assert(d[k] == t@[i as int]);
                assert(!('0' <= d[k] <= '9'));
                assert(!all_digits(d));
            }
            return None;
        }
        proof {
            lemma_digits_step(d, (i - start) as int);
            assert(all_digits(d.subrange(0, i - start + 1)));
        }
        let digit = (c as u32 - '0' as u32) as i64;
        let next = acc * 10 + digit;
        if next > 2147483648 {
            proof {
                let k = (i - start) as int;
                assert(d[k] == c);
                assert(digits_value(d.subrange(0, k + 1)) == next);
                if all_digits(d) {
                    lemma_digits_monotone(d, k + 1);
                    assert(digits_value(d) > 2147483648);
                }
            }
            return None;
        }
        acc = next;
        i = i + 1;
    }
    proof {
        assert(d.subrange(0, n - start) =~= d);
    }
    if neg {
        Some((-acc) as i32)
    } else if acc <= 2147483647 {
        Some(acc as i32)
    } else {
        None
    }
}

/// The raw piece value of a FEN piece letter, or -1 for any other character.
pub open spec fn piece_of_char(c: char) -> int {
    if c == 'P' { 1 } else if c == 'N' { 2 } else if c == 'B' { 3 } else if c == 'R' { 4 } else if c == 'Q' { 5 }
    else if c == 'K' { 6 } else if c == 'p' { 9 } else if c == 'n' { 10 } else if c == 'b' { 11 }
    else if c == 'r' { 12 } else if c == 'q' { 13 } else if c == 'k' { 14 } else { -1 }
}

/// The mailbox `b` with the pieces of placement field `p` put down from square `sq`
/// on: a digit skips that many files, a slash goes down to the start of the next rank,
/// a piece letter puts the piece on the square (when it is on the board and empty) and
/// moves on; other characters are skipped.
pub open spec fn place(p: Seq<char>, sq: int, b: Seq<Piece>) -> Seq<Piece>
    decreases p.len(),
{
    if p.len() == 0 {
        b
    } else {
        let c = p[0];
        let rest = p.drop_first();
        if '0' <= c <= '9' {
            place(rest, sq + (c as int - '0' as int), b)
        } else if c == '/' {
            place(rest, sq - 16, b)
        } else if piece_of_char(c) >= 0 {
            place(rest, sq + 1, if 0 <= sq < 64 && b[sq].0 == 0 { b.update(sq, Piece(piece_of_char(c) as u32)) } else { b })
        } else {
            place(rest, sq, b)
        }
    }
}

/// The empty mailbox.
pub open spec fn empty_board() -> Seq<Piece> {
    Seq::new(64, |i: int| Piece(0))
}

/// The mailbox a FEN string describes: its first field placed on the empty board from a8.
pub open spec fn fen_board(fen: Seq<char>) -> Seq<Piece> {
    if fields(fen).len() > 0 { place(fields(fen)[0], 56, empty_board()) } else { empty_board() }
}

/// The side to move a FEN string names: black for the field "b", white otherwise.
pub open spec fn fen_side(fen: Seq<char>) -> u32 {
    if fields(fen).len() > 1 && fields(fen)[1] == seq!['b'] { 1 } else { 0 }
}

/// The first square from `s` going toward the a-file, over at most `k` more steps, that
/// holds `rook`.
pub open spec fn rook_toward_a(b: Seq<Piece>, rook: Piece, s: int, k: nat) -> Option<int>
    decreases k,
{
    if b[s] == rook {
        Some(s)
    } else if k == 0 {
        None
    } else {
        rook_toward_a(b, rook, s - 1, (k - 1) as nat)
    }
}

/// The first square from `s` going toward the h-file, over at most `k` more steps, that
/// holds `rook`.
pub open spec fn rook_toward_h(b: Seq<Piece>, rook: Piece, s: int, k: nat) -> Option<int>
    decreases k,
{
    if b[s] == rook {
        Some(s)
    } else if k == 0 {
        None
    } else {
        rook_toward_h(b, rook, s + 1, (k - 1) as nat)
    }
}

/// The color a castling letter is for: black for a lower-case letter.
pub open spec fn castle_letter_color(ch: char) -> u32 {
    if 'a' <= ch <= 'z' { 1 } else { 0 }
}

/// The castling rook a letter of a FEN string names on mailbox `b`: for "K" ("k") the
/// first rook of that color on its back rank from the h-file inward, for "Q" ("q") from
/// the a-file inward, for a file letter "A" to "H" ("a" to "h") the back-rank square of
/// that file; none otherwise.
pub open spec fn castle_letter_rook(b: Seq<Piece>, ch: char) -> Option<int> {
    let c = castle_letter_color(ch);
    let side = if c == 1 { ((ch as u32 - 32) as u8) as char } else { ch };
    let rook = Piece((8 * c + ROOK) as u32);
    let back = if c == 0 { 0int } else { 56 };
    if side == 'K' {
        rook_toward_a(b, rook, back + 7, 7)
    } else if side == 'Q' {
        rook_toward_h(b, rook, back, 7)
    } else if 'A' <= side <= 'H' {
        Some(back + (side as int - 'A' as int))
    } else {
        None
    }
}

/// The right to castle of color `c` toward the h-file (`king_side`) or the a-file.
pub open spec fn side_right(c: u32, king_side: bool) -> u32 {
    if c == 0 {
        if king_side { 1 } else { 2 }
    } else {
        if king_side { 4 } else { 8 }
    }
}

/// The castling rights the first `n` letters of the castling field `cs` give on mailbox
/// `b`: each letter whose rook is found adds, when that color has a king, the right on
/// the rook's side of the king.
pub open spec fn castle_rights_upto(b: Seq<Piece>, cs: Seq<char>, n: nat) -> u32
    decreases n,
{
    if n == 0 {
        0
    } else {
        let prev = castle_rights_upto(b, cs, (n - 1) as nat);
        let ch = cs[n - 1];
        let c = castle_letter_color(ch);
        match castle_letter_rook(b, ch) {
            Some(rsq) => if piece_set(b, c, KING) != 0 { prev | side_right(c, king_sq(b, c) < rsq) } else { prev },
            None => prev,
        }
    }
}

/// The castling rights a FEN string gives (none for a missing field or "-").
pub open spec fn fen_castling(fen: Seq<char>) -> u32 {
    let f = fields(fen);
    if f.len() > 2 && !(f[2].len() == 1 && f[2][0] == '-') {
        castle_rights_upto(fen_board(fen), f[2], f[2].len())
    } else {
        0
    }
}

/// The en passant square a FEN string names, on the sixth rank of the side to move (the
/// third for black): kept only when a pawn of the side to move attacks it and a pawn of
/// the other side stands just beyond it; no square otherwise.
pub open spec fn fen_ep(fen: Seq<char>) -> Square {
    let f = fields(fen);
    let b = fen_board(fen);
    let us = fen_side(fen);
    if f.len() > 3 && f[3].len() > 0 && 'a' <= f[3][0] <= 'h' {
        let ep = 8 * (if us == 0 { 5int } else { 2 }) + (f[3][0] as int - 'a' as int);
        let behind = if us == 0 { ep - 8 } else { ep + 8 };
        if attackers_spec(b, ep, type_set(b, 0)) & piece_set(b, us, PAWN) != 0 && piece_set(b, (1 - us) as u32, PAWN)
            & sq_bit(behind) != 0 {
            Square(ep as u32)
        } else {
            Square(64)
        }
    } else {
        Square(64)
    }
}

/// The number of the halfmove-clock field, 0 when it is missing or not a number.
pub open spec fn fen_rule50(fen: Seq<char>) -> int {
    if fields(fen).len() > 4 {
        match parse_i32_spec(fields(fen)[4]) {
            Some(v) => v,
            None => 0,
        }
    } else {
        0
    }
}

/// The plies before the position from the fullmove field (`2 * (fullmove - 1)`, at least
/// 0 and at most `i32::MAX - 1`), plus one with black to move.
pub open spec fn fen_game_ply(fen: Seq<char>) -> int {
    let base = if fields(fen).len() > 5 {
        match parse_i32_spec(fields(fen)[5]) {
            Some(v) => {
                let x = 2 * (v - 1);
                if x < 0 { 0 } else if x > i32::MAX - 1 { i32::MAX - 1 } else { x }
            },
            None => 0,
        }
    } else {
        0
    };
    base + fen_side(fen)
}

/// The raw piece value of a FEN piece letter, or -1 (see `piece_of_char`).
pub fn char_piece(c: char) -> (r: i32)
    ensures
        r == piece_of_char(c),
{
    if c == 'P' { 1 } else if c == 'N' { 2 } else if c == 'B' { 3 } else if c == 'R' { 4 } else if c == 'Q' { 5 }
    else if c == 'K' { 6 } else if c == 'p' { 9 } else if c == 'n' { 10 } else if c == 'b' { 11 }
    else if c == 'r' { 12 } else if c == 'q' { 13 } else if c == 'k' { 14 } else { -1 }
}

impl Position {
    fn place_pieces(&mut self, p: &Vec<char>)
        requires
            old(self).wf(),
            old(self).board_spec() == empty_board(),
        ensures
            final(self).wf(),
            final(self).board_spec() == place(p@, 56, empty_board()),
            final(self).states_spec() == old(self).states_spec(),
            final(self).side_spec() == old(self).side_spec(),
            final(self).game_ply_spec() == old(self).game_ply_spec(),
            final(self).chess960_spec() == old(self).chess960_spec(),
            final(self).zobrist_spec() == old(self).zobrist_spec(),
            forall|i: int| 0 <= i < 64 ==> #[trigger] final(self).rights_mask_spec(i) == old(self).rights_mask_spec(i),
            forall|i: int| 0 <= i < 16 ==> #[trigger] final(self).rook_square_spec(i) == old(self).rook_square_spec(i),
            forall|i: int| 0 <= i < 16 ==> #[trigger] final(self).castling_path_spec(i) == old(self).castling_path_spec(i),
    {
        let mut sq: i128 = 56;
        let mut i: usize = 0;
        proof {
            assert(p@.subrange(0, p@.len() as int) =~= p@);
            assert(self.board@ =~= empty_board());
        }
        while i < p.len()
            invariant
                self.wf(),
                i <= p@.len(),
                -16 * (i as int) <= sq - 56 <= 9 * (i as int),
                place(p@.subrange(i as int, p@.len() as int), sq as int, self.board@) == place(p@, 56, empty_board()),
                self.states == old(self).states,
                self.side_to_move == old(self).side_to_move,
                self.game_ply == old(self).game_ply,
                self.chess960 == old(self).chess960,
                self.zobrist == old(self).zobrist,
                self.castling_rights_mask == old(self).castling_rights_mask,
                self.castling_rook_square == old(self).castling_rook_square,
                self.castling_path == old(self).castling_path,
            decreases p.len() - i,
        {
            let c = p[i];
            let ghost rest = p@.subrange(i + 1, p@.len() as int);
            proof {
                assert(p@.subrange(i as int, p@.len() as int).drop_first() =~= rest);
                assert(p@.subrange(i as int, p@.len() as int)[0] == c);
            }
            if '0' <= c && c <= '9' {
                sq = sq + (c as u32 - '0' as u32) as i128;
            } else if c == '/' {
                sq = sq - 16;
            } else {
                let idx = char_piece(c);
                if idx >= 0 {
                    if 0 <= sq && sq < 64 && self.board[sq as usize].0 == 0 {
                        self.put_piece(Piece(idx as u32), Square(sq as u32), Ghost(self.board@));
                    }
                    sq = sq + 1;
                }
            }
            i = i + 1;
        }
        proof {
            assert(p@.subrange(p@.len() as int, p@.len() as int) =~= Seq::<char>::empty());
        }
    }
}

impl Position {
    /// Grants color `c` the castling right with the rook on `rfrom` (king side when the
    /// rook is beyond the king): the right is added to the current state, the king's and
    /// rook's squares lose it when left, and the rook square and the squares to cross are
    /// recorded. Nothing happens when `c` has no king.
    pub(crate) fn set_castling_right(&mut self, c: Color, rfrom: Square)
        requires
            old(self).wf(),
            c.0 < 2,
            rfrom.0 < 64,
        ensures
            final(self).wf(),
            final(self).board_spec() == old(self).board_spec(),
            final(self).states_spec().len() == old(self).states_spec().len(),
            final(self).side_spec() == old(self).side_spec(),
            final(self).game_ply_spec() == old(self).game_ply_spec(),
            final(self).chess960_spec() == old(self).chess960_spec(),
            final(self).zobrist_spec() == old(self).zobrist_spec(),
            final(self).st_spec().rule50 == old(self).st_spec().rule50,
            final(self).st_spec().ep_square == old(self).st_spec().ep_square,
            final(self).st_spec().castling_right.0 == if piece_set(old(self).board_spec(), c.0, KING) != 0 {
                old(self).st_spec().castling_right.0 | side_right(c.0, king_sq(old(self).board_spec(), c.0) < rfrom.0)
            } else {
                old(self).st_spec().castling_right.0
            },
    {
        if self.pieces_cp(c, PieceType(KING)).0 == 0 {
            return;
        }
        let kfrom = self.square(c, PieceType(KING));
        let cr = castling_right_c(c, CastlingRight(if kfrom.0 < rfrom.0 { KING_SIDE } else { QUEEN_SIDE }));
        proof {
            let v = cr.0;
            assert(3u32 & 5u32 == 1 && 3u32 & 10u32 == 2 && 12u32 & 5u32 == 4 && 12u32 & 10u32 == 8) by (bit_vector);
        }
        let last = self.states.len() - 1;
        let mut st = self.states[last];
        let old_cr = st.castling_right.0;
        let crv = cr.0;
        st.castling_right = st.castling_right.bitor(cr);
        assert(old_cr < 16 && crv < 16 ==> old_cr | crv < 16) by (bit_vector);
        self.states.set(last, st);
        let mk = self.castling_rights_mask[kfrom.0 as usize].0;
        assert(mk < 16 && crv < 16 ==> mk | crv < 16) by (bit_vector);
        self.castling_rights_mask[kfrom.0 as usize] = self.castling_rights_mask[kfrom.0 as usize].bitor(cr);
        let mr = self.castling_rights_mask[rfrom.0 as usize].0;
        assert(mr < 16 && crv < 16 ==> mr | crv < 16) by (bit_vector);
        self.castling_rights_mask[rfrom.0 as usize] = self.castling_rights_mask[rfrom.0 as usize].bitor(cr);
        self.castling_rook_square[cr.0 as usize] = rfrom;
        let king_side = cr.0 & KING_SIDE != 0;
        let kto = relative_square(c, if king_side { Square(6) } else { Square(2) });
        let rto = relative_square(c, if king_side { Square(5) } else { Square(3) });
        self.castling_path[cr.0 as usize] = between_bb(rfrom, rto).bitor(between_bb(kfrom, kto)).bitand(
            square_bb(kfrom).bitor(square_bb(rfrom)).not(),
        );
    }

    /// Computes the current state from scratch: the pieces giving check, the check
    /// information, the hash key (pieces, en passant file, side, castling rights) and the
    /// running piece-square value (sums wrap).
    pub(crate) fn set_state(&mut self)
        requires
            old(self).wf(),
        ensures
            final(self).wf(),
            final(self).board_spec() == old(self).board_spec(),
            final(self).states_spec().len() == old(self).states_spec().len(),
            final(self).side_spec() == old(self).side_spec(),
            final(self).game_ply_spec() == old(self).game_ply_spec(),
            final(self).chess960_spec() == old(self).chess960_spec(),
            final(self).zobrist_spec() == old(self).zobrist_spec(),
            final(self).st_spec().rule50 == old(self).st_spec().rule50,
            final(self).st_spec().castling_right == old(self).st_spec().castling_right,
            final(self).st_spec().ep_square == old(self).st_spec().ep_square,
            check_info_current(*final(self)),
            final(self).st_spec().key == position_key(*final(self)),
            final(self).st_spec().psq.0 == pieces_psq(final(self).board_spec(), 64),
            final(self).st_spec().checkers_bb.0 == ({
                let b = final(self).board_spec();
                let us = final(self).side_spec().0;
                if piece_set(b, us, KING) != 0 {
                    attackers_spec(b, king_sq(b, us), type_set(b, 0)) & color_set(b, (1 - us) as u32)
                } else {
                    0
                }
            }),
    {
        let last = self.states.len() - 1;
        let mut st = self.states[last];
        let us = self.side_to_move;
        let them = us.flip();
        st.checkers_bb = if self.pieces_cp(us, PieceType(KING)).0 != 0 {
            self.attackers_to(self.square(us, PieceType(KING))).bitand(self.pieces_c(them))
        } else {
            Bitboard(0)
        };
        self.set_check_info(&mut st);
        let mut key: u64 = 0;
        let mut psq: i32 = 0;
        let mut s: usize = 0;
        while s < 64
            invariant
                self.wf(),
                s <= 64,
                key == pieces_key(self.zobrist_spec(), self.board_spec(), s as nat),
                psq == pieces_psq(self.board_spec(), s as nat),
            decreases 64 - s,
        {
            let pc = self.board[s];
            if pc.0 != 0 {
                proof {
                    let v = pc.0;
                    assert(entry_ok(self.board@[s as int]));
                }
                key = key ^ self.zobrist.psq[pc.0 as usize][s];
                psq = psq.wrapping_add(psqt::psq(pc, Square(s as u32)).0);
            }
            s = s + 1;
        }
        if st.ep_square.0 != 64 {
            key = key ^ self.zobrist.en_passant[st.ep_square.file().0 as usize];
        }
        if us.0 == BLACK {
            key = key ^ self.zobrist.side;
        }
        key = key ^ self.zobrist.castling[st.castling_right.0 as usize];
        st.key = key;
        st.psq = psqt::Value(psq);
        self.states.set(last, st);
    }

    /// The square of the castling rook letter `ch` names (see `castle_letter_rook`).
    fn castle_letter_square(&self, ch: char) -> (r: Option<Square>)
        requires
            self.wf(),
        ensures
            match r {
                Some(sq) => sq.0 < 64 && castle_letter_rook(self.board_spec(), ch) == Some(sq.0 as int),
                None => castle_letter_rook(self.board_spec(), ch) is None,
            },
    {
        let color = if 'a' <= ch && ch <= 'z' { Color(BLACK) } else { Color(WHITE) };
        let side = if 'a' <= ch && ch <= 'z' { ((ch as u32) - 32) as u8 as char } else { ch };
        let rook = Piece::make(color, PieceType(ROOK));
        let ghost b = self.board_spec();
        let ghost back: int = if color.0 == 0 { 0 } else { 56 };
        if side == 'K' {
            let mut rsq = relative_square(color, Square(7));
            assert(rsq.0 == back + 7);
            assert(rook == Piece((8 * color.0 + ROOK) as u32));
            assert(castle_letter_rook(b, ch) == rook_toward_a(b, rook, back + 7, 7));
            loop
                invariant
                    self.wf(),
                    b == self.board_spec(),
                    rsq.0 < 64,
                    rsq.0 / 8 == back / 8,
                    castle_letter_rook(b, ch) == rook_toward_a(b, rook, back + 7, 7),
                    rook_toward_a(b, rook, back + 7, 7) == rook_toward_a(b, rook, rsq.0 as int, (rsq.0 % 8) as nat),
                decreases rsq.0 % 8,
            {
                if self.board[rsq.0 as usize] == rook {
                    return Some(rsq);
                }
                if rsq.0 % 8 == 0 {
                    return None;
                }
                rsq = Square(rsq.0 - 1);
            }
        } else if side == 'Q' {
            let mut rsq = relative_square(color, Square(0));
            assert(rsq.0 == back);
            assert(rook == Piece((8 * color.0 + ROOK) as u32));
            assert(castle_letter_rook(b, ch) == rook_toward_h(b, rook, back, 7));
            loop
                invariant
                    self.wf(),
                    b == self.board_spec(),
                    rsq.0 < 64,
                    rsq.0 / 8 == back / 8,
                    castle_letter_rook(b, ch) == rook_toward_h(b, rook, back, 7),
                    rook_toward_h(b, rook, back, 7) == rook_toward_h(b, rook, rsq.0 as int, (7 - rsq.0 % 8) as nat),
                decreases 7 - rsq.0 % 8,
            {
                if self.board[rsq.0 as usize] == rook {
                    return Some(rsq);
                }
                if rsq.0 % 8 == 7 {
                    return None;
                }
                rsq = Square(rsq.0 + 1);
            }
        } else if 'A' <= side && side <= 'H' {
            let file = (side as u32) - ('A' as u32);
            Some(Square::make(File(file), Rank(if color.0 == WHITE { 0 } else { 7 })))
        } else {
            None
        }
    }

    /// Adds the castling rights of the castling field `cs` (see `castle_rights_upto`).
    fn read_castling(&mut self, cs: &Vec<char>)
        requires
            old(self).wf(),
            old(self).st_spec().castling_right.0 == 0,
        ensures
            final(self).wf(),
            final(self).board_spec() == old(self).board_spec(),
            final(self).states_spec().len() == old(self).states_spec().len(),
            final(self).side_spec() == old(self).side_spec(),
            final(self).game_ply_spec() == old(self).game_ply_spec(),
            final(self).chess960_spec() == old(self).chess960_spec(),
            final(self).zobrist_spec() == old(self).zobrist_spec(),
            final(self).st_spec().rule50 == old(self).st_spec().rule50,
            final(self).st_spec().ep_square == old(self).st_spec().ep_square,
            final(self).st_spec().castling_right.0 == castle_rights_upto(old(self).board_spec(), cs@, cs@.len()),
    {
        let mut i: usize = 0;
        while i < cs.len()
            invariant
                self.wf(),
                i <= cs@.len(),
                self.board_spec() == old(self).board_spec(),
                self.states_spec().len() == old(self).states_spec().len(),
                self.side_spec() == old(self).side_spec(),
                self.game_ply_spec() == old(self).game_ply_spec(),
                self.chess960_spec() == old(self).chess960_spec(),
                self.zobrist_spec() == old(self).zobrist_spec(),
                self.st_spec().rule50 == old(self).st_spec().rule50,
                self.st_spec().ep_square == old(self).st_spec().ep_square,
                self.st_spec().castling_right.0 == castle_rights_upto(old(self).board_spec(), cs@, i as nat),
            decreases cs.len() - i,
        {
            let ch = cs[i];
            let color = if 'a' <= ch && ch <= 'z' { Color(BLACK) } else { Color(WHITE) };
            match self.castle_letter_square(ch) {
                Some(rsq) => self.set_castling_right(color, rsq),
                None => {},
            }
            i = i + 1;
        }
    }

    /// Sets the position from the FEN string `fen_str` (Chess960 when `is_chess960`): the
    /// pieces of the first field (see `fen_board`), the side to move, the castling rights
    /// (K, Q, k, q, or a rook's file letter), the en passant square (kept only when a
    /// pawn can take there), the halfmove clock and the fullmove number. Missing or
    /// unreadable fields count as "w", "-", "-", 0 and 1.
    pub fn set(&mut self, fen_str: &str, is_chess960: bool)
        ensures
            final(self).wf(),
            final(self).board_spec() == fen_board(fen_str@),
            final(self).side_spec().0 == fen_side(fen_str@),
            final(self).game_ply_spec() == fen_game_ply(fen_str@),
            final(self).st_spec().rule50 == fen_rule50(fen_str@),
            final(self).st_spec().ep_square == fen_ep(fen_str@),
            final(self).st_spec().castling_right.0 == fen_castling(fen_str@),
            final(self).chess960_spec() == is_chess960,
            final(self).states_spec().len() == 1,
            check_info_current(*final(self)),
            final(self).st_spec().key == position_key(*final(self)),
            final(self).st_spec().psq.0 == pieces_psq(final(self).board_spec(), 64),
    {
        self.clear();
        let chars = str_chars(fen_str);
        let f = split_fields(&chars);
        proof {
            assert forall|i: int| 0 <= i < 64 implies self.board@[i] == empty_board()[i] by {
                assert(self.board_spec()[i].0 == 0);
            }
            assert(self.board@ =~= empty_board());
        }
        if f.len() > 0 {
            self.place_pieces(&f[0]);
        }
        let black = f.len() > 1 && f[1].len() == 1 && f[1][0] == 'b';
        proof {
            if f.len() > 1 {
                if f@[1]@.len() == 1 && f@[1]@[0] == 'b' {
                    assert(f@[1]@ =~= seq!['b']);
                }
            }
        }
        self.side_to_move = if black { Color(BLACK) } else { Color(WHITE) };
        if f.len() > 2 && !(f[2].len() == 1 && f[2][0] == '-') {
            self.read_castling(&f[2]);
        }
        let last = self.states.len() - 1;
        let mut st = self.states[last];
        st.ep_square = Square(64);
        if f.len() > 3 && !(f[3].len() == 1 && f[3][0] == '-') && f[3].len() > 0 {
            let fc = f[3][0];
            if 'a' <= fc && fc <= 'h' {
                let file = (fc as u32) - ('a' as u32);
                let us = self.side_to_move;
                let them = us.flip();
                let ep_sq = Square::make(File(file), Rank(if us.0 == WHITE { 5 } else { 2 }));
                let behind = if us.0 == WHITE { Square(ep_sq.0 - 8) } else { Square(ep_sq.0 + 8) };
                if self.attackers_to(ep_sq).bitand(self.pieces_cp(us, PieceType(PAWN))).0 != 0
                    && self.pieces_cp(them, PieceType(PAWN)).bitand_sq(behind).0 != 0 {
                    st.ep_square = ep_sq;
                }
            }
        }
        st.rule50 = if f.len() > 4 {
            match parse_i32(&f[4]) {
                Some(v) => v,
                None => 0,
            }
        } else {
            0
        };
        self.states.set(last, st);
        let mut ply: i32 = 0;
        if f.len() > 5 {
            match parse_i32(&f[5]) {
                Some(v) => {
                    let x: i64 = 2 * (v as i64 - 1);
                    ply = if x < 0 { 0 } else if x > i32::MAX as i64 - 1 { i32::MAX - 1 } else { x as i32 };
                },
                None => {},
            }
        }
        if self.side_to_move.0 == BLACK {
            ply = ply + 1;
        }
        self.game_ply = ply;
        self.chess960 = is_chess960;
        self.set_state();
    }
}

/// The decimal digits of `n`.
pub open spec fn nat_str(n: nat) -> Seq<char>
    decreases n,
{
    if n < 10 {
        seq![(n + '0' as int) as char]
    } else {
        nat_str(n / 10).push(((n % 10) + '0' as int) as char)
    }
}

/// `n` in decimal, with a minus sign when negative.
pub open spec fn int_str(n: int) -> Seq<char> {
    if n < 0 { seq!['-'] + nat_str((-n) as nat) } else { nat_str(n as nat) }
}

/// Appends the decimal digits of `n`.
pub fn push_nat(s: &mut String, n: u64)
    ensures
        final(s)@ == old(s)@ + nat_str(n as nat),
    decreases n,
{
    if n >= 10 {
        push_nat(s, n / 10);
    }
    let d = (n % 10) as u8;
    let c = (48u8 + d) as char;
    assert(c == ((n % 10) + '0' as int) as char);
    string_push(s, c);
    proof {
        if n >= 10 {
            assert(nat_str(n as nat) == nat_str((n / 10) as nat).push(c));
        }
    }
}

/// Appends `n` in decimal, with a minus sign when negative.
pub fn push_int(s: &mut String, n: i32)
    ensures
        final(s)@ == old(s)@ + int_str(n as int),
{
    if n < 0 {
        string_push(s, '-');
        push_nat(s, (-(n as i64)) as u64);
    } else {
        push_nat(s, n as u64);
    }
}

/// The digit for a count of 1 to 9 empty squares.
pub open spec fn digit_char(k: nat) -> char {
    (k + '0' as int) as char
}

/// The count of pending empty squares, if any, as a digit.
pub open spec fn empties(k: nat) -> Seq<char> {
    if k > 0 { seq![digit_char(k)] } else { Seq::empty() }
}

/// Rank `r` of mailbox `b` in FEN from file `f` on, `empty` empty squares pending.
pub open spec fn rank_from(b: Seq<Piece>, r: int, f: int, empty: nat) -> Seq<char>
    decreases 8 - f,
{
    if f >= 8 {
        empties(empty)
    } else if b[8 * r + f].0 == 0 {
        rank_from(b, r, f + 1, empty + 1)
    } else {
        empties(empty) + seq![piece_char_spec(b[8 * r + f].0 as int)] + rank_from(b, r, f + 1, 0)
    }
}

/// Ranks `r` down to 1 of mailbox `b` in FEN, separated by slashes.
pub open spec fn ranks_from(b: Seq<Piece>, r: int) -> Seq<char>
    decreases r + 1,
{
    if r < 0 {
        Seq::empty()
    } else {
        rank_from(b, r, 0, 0) + (if r > 0 { seq!['/'] } else { Seq::empty() }) + ranks_from(b, r - 1)
    }
}

/// The letter of castling right `cr`: `ch` in standard chess, in Chess960 the rook's
/// file letter, upper case for white and lower case for black (Shredder-FEN).
pub open spec fn castle_letter(pos: Position, cr: int, ch: char) -> Seq<char> {
    if pos.st_spec().castling_right.0 & (cr as u32) == 0 {
        Seq::empty()
    } else if !pos.chess960_spec() {
        seq![ch]
    } else {
        let sq = pos.rook_square_spec(cr).0;
        seq![((65 + sq % 8 + if sq / 8 == 7 { 32int } else { 0 }) as u8) as char]
    }
}

/// `n / 2` as Rust divides an `i32`, rounding toward zero.
pub open spec fn half(n: int) -> int {
    if n >= 0 { n / 2 } else { -((-n) / 2) }
}

/// The side-to-move field of a FEN string, with the blanks around it.
pub open spec fn side_str(pos: Position) -> Seq<char> {
    if pos.side_spec().0 == 0 { seq![' ', 'w', ' '] } else { seq![' ', 'b', ' '] }
}

/// The castling field of a FEN string: the letters of the rights held, or "-".
pub open spec fn castles_str(pos: Position) -> Seq<char> {
    castle_letter(pos, 1, 'K') + castle_letter(pos, 2, 'Q') + castle_letter(pos, 4, 'k') + castle_letter(pos, 8, 'q')
        + (if pos.st_spec().castling_right.0 & 15 == 0 { seq!['-'] } else { Seq::empty() })
}

/// The en passant field of a FEN string, with the blanks around it.
pub open spec fn ep_str(pos: Position) -> Seq<char> {
    let ep = pos.st_spec().ep_square.0;
    if ep == 64 { seq![' ', '-', ' '] } else { seq![' '] + square_chars(ep as int) + seq![' '] }
}

/// The halfmove clock and fullmove number fields of a FEN string.
pub open spec fn counters_str(pos: Position) -> Seq<char> {
    int_str(pos.st_spec().rule50 as int) + seq![' '] + int_str(1 + half(pos.game_ply_spec() as int))
}

/// The FEN string of a position: placement, side, castling rights ("-" for none), en
/// passant square ("-" for none), halfmove clock and fullmove number.
pub open spec fn fen_spec(pos: Position) -> Seq<char> {
    ranks_from(pos.board_spec(), 7) + side_str(pos) + castles_str(pos) + ep_str(pos) + counters_str(pos)
}

impl Position {
    fn castle_helper(&self, ss: &mut String, cr: CastlingRight, c: char)
        requires
            self.wf(),
            cr.0 == 1 || cr.0 == 2 || cr.0 == 4 || cr.0 == 8,
        ensures
            final(ss)@ == old(ss)@ + castle_letter(*self, cr.0 as int, c),
    {
        if !self.has_castling_right(cr) {
            return;
        }
        if !self.chess960 {
            string_push(ss, c);
        } else {
            let sq = self.castling_rook_square(cr);
            let f = sq.file().0;
            let r = sq.rank().0;
            let mut code: u32 = 65 + f;
            if r == 7 {
                code = code + 32;
            }
            string_push(ss, (code as u8) as char);
        }
    }

    fn push_rank(&self, ss: &mut String, r: i32)
        requires
            self.wf(),
            0 <= r <= 7,
        ensures
            final(ss)@ == old(ss)@ + rank_from(self.board_spec(), r as int, 0, 0),
    {
        let ghost before = ss@;
        let mut f: i32 = 0;
        let mut empty_cnt: u32 = 0;
        while f < 8
            invariant
                self.wf(),
                0 <= r <= 7,
                0 <= f <= 8,
                empty_cnt <= f,
                ss@ + rank_from(self.board_spec(), r as int, f as int, empty_cnt as nat) == before + rank_from(
                    self.board_spec(), r as int, 0, 0),
            decreases 8 - f,
        {
            let pc = self.board[(8 * r + f) as usize];
            if pc.0 == 0 {
                empty_cnt = empty_cnt + 1;
            } else {
                let ghost mid = ss@;
                if empty_cnt > 0 {
                    string_push(ss, ((48 + empty_cnt) as u8) as char);
                }
                proof {
                    assert(ss@ =~= mid + empties(empty_cnt as nat));
                    assert(entry_ok(self.board_spec()[8 * r + f]));
                }
                string_push(ss, pc.to_char());
                empty_cnt = 0;
                proof {
                    assert(ss@ + rank_from(self.board_spec(), r as int, f + 1, 0) =~= before + rank_from(
                        self.board_spec(), r as int, 0, 0));
                }
            }
            f = f + 1;
        }
        let ghost mid = ss@;
        if empty_cnt > 0 {
            string_push(ss, ((48 + empty_cnt) as u8) as char);
        }
        proof {
            assert(ss@ =~= mid + empties(empty_cnt as nat));
            assert(ss@ =~= before + rank_from(self.board_spec(), r as int, 0, 0));
        }
    }

    fn push_placement(&self, ss: &mut String)
        requires
            self.wf(),
        ensures
            final(ss)@ == old(ss)@ + ranks_from(self.board_spec(), 7),
    {
        let ghost start = ss@;
        let mut r: i32 = 7;
        while r >= 0
            invariant
                self.wf(),
                -1 <= r <= 7,
                ss@ + ranks_from(self.board_spec(), r as int) == start + ranks_from(self.board_spec(), 7),
            decreases r + 1,
        {
            let ghost before = ss@;
            self.push_rank(ss, r);
            if r > 0 {
                string_push(ss, '/');
            }
            proof {
                assert(ss@ + ranks_from(self.board_spec(), r - 1) =~= start + ranks_from(self.board_spec(), 7));
            }
            r = r - 1;
        }
        proof {
            assert(ss@ =~= start + ranks_from(self.board_spec(), 7));
        }
    }

    fn push_castles(&self, ss: &mut String)
        requires
            self.wf(),
        ensures
            final(ss)@ == old(ss)@ + castles_str(*self),
    {
        let ghost start = ss@;
        self.castle_helper(ss, CastlingRight(1), 'K');
        self.castle_helper(ss, CastlingRight(2), 'Q');
        self.castle_helper(ss, CastlingRight(4), 'k');
        self.castle_helper(ss, CastlingRight(8), 'q');
        let ghost mid = ss@;
        if !self.has_castling_right(CastlingRight(15)) {
            string_push(ss, '-');
        }
        proof {
            assert(ss@ =~= start + castles_str(*self));
        }
    }

    fn push_ep(&self, ss: &mut String)
        requires
            self.wf(),
        ensures
            final(ss)@ == old(ss)@ + ep_str(*self),
    {
        let ghost start = ss@;
        let ep = self.ep_square();
        if ep.0 == 64 {
            string_push(ss, ' ');
            string_push(ss, '-');
            string_push(ss, ' ');
        } else {
            string_push(ss, ' ');
            push_square(ss, ep);
            string_push(ss, ' ');
        }
        proof {
            assert(ss@ =~= start + ep_str(*self));
        }
    }

    fn push_counters(&self, ss: &mut String)
        requires
            self.wf(),
        ensures
            final(ss)@ == old(ss)@ + counters_str(*self),
    {
        let ghost start = ss@;
        push_int(ss, self.rule50_count());
        string_push(ss, ' ');
        let h = self.game_ply / 2;
        assert(h == half(self.game_ply_spec() as int));
        push_int(ss, 1 + h);
        proof {
            assert(ss@ =~= start + counters_str(*self));
        }
    }

    /// The position in FEN (see `fen_spec`); castling rights are written as Shredder-FEN
    /// file letters in Chess960.
    pub fn fen(&self) -> (s: String)
        requires
            self.wf(),
        ensures
            s@ == fen_spec(*self),
    {
        let mut ss = String::new();
        self.push_placement(&mut ss);
        let ghost p1 = ss@;
        if self.side_to_move.0 == WHITE {
            string_push(&mut ss, ' ');
            string_push(&mut ss, 'w');
            string_push(&mut ss, ' ');
        } else {
            string_push(&mut ss, ' ');
            string_push(&mut ss, 'b');
            string_push(&mut ss, ' ');
        }
        proof {
            assert(ss@ =~= p1 + side_str(*self));
        }
        self.push_castles(&mut ss);
        self.push_ep(&mut ss);
        self.push_counters(&mut ss);
        proof {
            assert(ss@ =~= fen_spec(*self));
        }
        ss
    }
}

} // verus!
