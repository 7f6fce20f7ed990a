//! One line of an EPD file: a FEN followed by `;`-separated operations.

use vstd::prelude::*;
use crate::position::classic::fen::{str_chars, is_blank, blank_char};
use crate::uci::command::number_or_zero;
use crate::uci::tokens::{parse_uint, parse_uint_spec, push_chars};

verus! {

/// The pieces of `s` between the characters `sep`, `cur` being the piece read so far;
/// `n` separators give `n + 1` pieces, empty ones included.
pub open spec fn split_from(s: Seq<char>, sep: char, cur: Seq<char>) -> Seq<Seq<char>>
    decreases s.len(),
{
    if s.len() == 0 {
        seq![cur]
    } else if s[0] == sep {
        seq![cur] + split_from(s.drop_first(), sep, Seq::empty())
    } else {
        split_from(s.drop_first(), sep, cur.push(s[0]))
    }
}

/// The pieces of `s` between the characters `sep`.
pub open spec fn split_at(s: Seq<char>, sep: char) -> Seq<Seq<char>> {
    split_from(s, sep, Seq::empty())
}

/// The first index from `i` on where `k` occurs in `s`, or -1.
pub open spec fn find_from(s: Seq<char>, k: Seq<char>, i: int) -> int
    decreases s.len() + 1 - i,
{
    if i < 0 || i + k.len() > s.len() {
        -1
    } else if s.subrange(i, i + k.len()) == k {
        i
    } else {
        find_from(s, k, i + 1)
    }
}

/// `s` without the white space at its start.
pub open spec fn trim_start(s: Seq<char>) -> Seq<char>
    decreases s.len(),
{
    if s.len() > 0 && is_blank(s[0]) {
        trim_start(s.drop_first())
    } else {
        s
    }
}

/// `s` without the white space at its end.
pub open spec fn trim_end(s: Seq<char>) -> Seq<char>
    decreases s.len(),
{
    if s.len() > 0 && is_blank(s.last()) {
        trim_end(s.drop_last())
    } else {
        s
    }
}

/// `s` without the double quotes in it.
pub open spec fn drop_quotes(s: Seq<char>) -> Seq<char>
    decreases s.len(),
{
    if s.len() == 0 {
        s
    } else if s.last() == '"' {
        drop_quotes(s.drop_last())
    } else {
        drop_quotes(s.drop_last()).push(s.last())
    }
}

/// What follows the first `k` in `seg`, white space trimmed at both ends.
pub open spec fn value_after(seg: Seq<char>, k: Seq<char>) -> Seq<char> {
    trim_end(trim_start(seg.subrange(find_from(seg, k, 0) + k.len(), seg.len() as int)))
}

/// The operations read so far: analysis depth `acd`, analysis nodes `acn`, comment `c0`.
pub open spec fn epd_apply(e: (u32, u32, Seq<char>), seg: Seq<char>) -> (u32, u32, Seq<char>) {
    let e1 = if find_from(seg, "acd"@, 0) >= 0 {
        (number_or_zero(value_after(seg, "acd"@), u32::MAX as int) as u32, e.1, e.2)
    } else {
        e
    };
    let e2 = if find_from(seg, "acn"@, 0) >= 0 {
        (e1.0, number_or_zero(value_after(seg, "acn"@), u32::MAX as int) as u32, e1.2)
    } else {
        e1
    };
    if find_from(seg, "c0"@, 0) >= 0 {
        (e2.0, e2.1, drop_quotes(value_after(seg, "c0"@)))
    } else {
        e2
    }
}

/// The operations of pieces 1 to `n - 1` of `segs`, read in order, later ones winning.
pub open spec fn epd_fold(segs: Seq<Seq<char>>, n: nat) -> (u32, u32, Seq<char>)
    decreases n,
{
    if n <= 1 {
        (0, 0, Seq::empty())
    } else {
        epd_apply(epd_fold(segs, (n - 1) as nat), segs[n - 1])
    }
}

/// An operation piece can be read: the values of `acd` and `acn` are numbers that fit in
/// 32 bits.
pub open spec fn epd_piece_ok(seg: Seq<char>) -> bool {
    &&& find_from(seg, "acd"@, 0) >= 0 ==> parse_uint_spec(value_after(seg, "acd"@), u32::MAX as int) is Some
    &&& find_from(seg, "acn"@, 0) >= 0 ==> parse_uint_spec(value_after(seg, "acn"@), u32::MAX as int) is Some
}

/// Every operation piece of `line` can be read.
pub open spec fn epd_line_ok(line: Seq<char>) -> bool {
    forall|i: int| 1 <= i < split_at(line, ';').len() ==> #[trigger] epd_piece_ok(split_at(line, ';')[i])
}

/// A position with the results of an analysis: the FEN, the depth and node count of the
/// analysis, and a comment.
#[derive(Debug)]
pub struct EpdEntry {
    pub fen: String,
    acd: u32,
    acn: u32,
    c0: String,
}

proof fn lemma_split_step(s: Seq<char>, sep: char, i: int, cur: Seq<char>)
    requires
        0 <= i < s.len(),
    ensures
        split_from(s.subrange(i, s.len() as int), sep, cur) == if s[i] == sep {
            seq![cur] + split_from(s.subrange(i + 1, s.len() as int), sep, Seq::empty())
        } else {
            split_from(s.subrange(i + 1, s.len() as int), sep, cur.push(s[i]))
        },
{
    let t = s.subrange(i, s.len() as int);
    assert(t.drop_first() =~= s.subrange(i + 1, s.len() as int));
    assert(t[0] == s[i]);
}

/// Splits `s` at each `sep` (see `split_at`).
fn split_chars(s: &Vec<char>, sep: char) -> (r: Vec<Vec<char>>)
    ensures
        r@.len() == split_at(s@, sep).len(),
        forall|i: int| 0 <= i < r@.len() ==> (#[trigger] r@[i])@ == split_at(s@, sep)[i],
{
    let mut out: Vec<Vec<char>> = Vec::new();
    let ghost mut done: Seq<Seq<char>> = Seq::empty();
    let mut cur: Vec<char> = Vec::new();
    let mut i: usize = 0;
    proof {
        assert(s@.subrange(0, s@.len() as int) =~= s@);
        assert(done + split_from(s@.subrange(0, s@.len() as int), sep, cur@) =~= split_at(s@, sep));
    }
    while i < s.len()
        invariant
            i <= s@.len(),
            out@.len() == done.len(),
            forall|k: int| 0 <= k < out@.len() ==> (#[trigger] out@[k])@ == done[k],
            done + split_from(s@.subrange(i as int, s@.len() as int), sep, cur@) == split_at(s@, sep),
        decreases s.len() - i,
    {
        let c = s[i];
        proof {
            lemma_split_step(s@, sep, i as int, cur@);
        }
        if c == sep {
            let piece = cur;
            proof {
                assert(done.push(piece@) + split_from(s@.subrange(i + 1, s@.len() as int), sep, Seq::empty())
                    =~= done + (seq![piece@] + split_from(s@.subrange(i + 1, s@.len() as int), sep, Seq::empty())));
                done = done.push(piece@);
            }
            out.push(piece);
            cur = Vec::new();
        } else {
            cur.push(c);
        }
        i = i + 1;
    }
    proof {
        assert(s@.subrange(s@.len() as int, s@.len() as int) =~= Seq::<char>::empty());
        done = done.push(cur@);
    }
    out.push(cur);
    proof {
        assert(done =~= split_at(s@, sep));
    }
    out
}

proof fn lemma_find_step(s: Seq<char>, k: Seq<char>, i: int)
    requires
        0 <= i,
        i + k.len() <= s.len(),
        s.subrange(i, i + k.len()) != k,
    ensures
        find_from(s, k, i) == find_from(s, k, i + 1),
{
}

proof fn lemma_find_bounds(s: Seq<char>, k: Seq<char>, i: int)
    requires
        0 <= i,
    ensures
        find_from(s, k, i) == -1 || (i <= find_from(s, k, i) && find_from(s, k, i) + k.len() <= s.len()),
    decreases s.len() + 1 - i,
{
    if i + k.len() <= s.len() && s.subrange(i, i + k.len()) != k {
        lemma_find_bounds(s, k, i + 1);
    }
}

/// The first index where `k` occurs in `s`.
pub fn find_chars(s: &Vec<char>, k: &Vec<char>) -> (r: Option<usize>)
    ensures
        match r {
            Some(i) => find_from(s@, k@, 0) == i && i + k@.len() <= s@.len(),
            None => find_from(s@, k@, 0) == -1,
        },
{
    if k.len() > s.len() {
        return None;
    }
    let n = s.len();
    let last = n - k.len();
    let mut i: usize = 0;
    while i <= last
        invariant
            n == s@.len(),
            last == s@.len() - k@.len(),
            i <= last + 1,
            find_from(s@, k@, 0) == find_from(s@, k@, i as int),
        decreases last + 1 - i,
    {
        let mut j: usize = 0;
        let mut same = true;
        while j < k.len()
            invariant
                n == s@.len(),
                i <= last,
                last == s@.len() - k@.len(),
                j <= k@.len(),
                same == (forall|m: int| 0 <= m < j ==> s@[i + m] == k@[m]),
            decreases k.len() - j,
        {
            if s[i + j] != k[j] {
                same = false;
            }
            j = j + 1;
        }
        if same {
            assert(s@.subrange(i as int, i + k@.len()) =~= k@);
            return Some(i);
        }
        proof {
            let m = choose|m: int| 0 <= m < k@.len() && s@[i + m] != k@[m];
            assert(s@.subrange(i as int, i + k@.len())[m] != k@[m]);
            lemma_find_step(s@, k@, i as int);
        }
        i = i + 1;
    }
    None
}

/// The characters of `s` from `lo` on, white space trimmed at both ends.
fn trimmed_tail(s: &Vec<char>, lo: usize) -> (r: Vec<char>)
    requires
        lo <= s@.len(),
    ensures
        r@ == trim_end(trim_start(s@.subrange(lo as int, s@.len() as int))),
{
    let n = s.len();
    let mut a = lo;
    while a < n && blank_char(s[a])
        invariant
            lo <= a <= n,
            n == s@.len(),
            trim_start(s@.subrange(lo as int, n as int)) == trim_start(s@.subrange(a as int, n as int)),
        decreases n - a,
    {
        proof {
            assert(s@.subrange(a as int, n as int).drop_first() =~= s@.subrange(a + 1, n as int));
        }
        a = a + 1;
    }
    let ghost t = s@.subrange(a as int, n as int);
    assert(trim_start(t) == t);
    let mut b = n;
    while b > a && blank_char(s[b - 1])
        invariant
            a <= b <= n,
            n == s@.len(),
            trim_end(t) == trim_end(s@.subrange(a as int, b as int)),
        decreases b - a,
    {
        proof {
            let u = s@.subrange(a as int, b as int);
            assert(u.last() == s@[b - 1]);
            assert(u.drop_last() =~= s@.subrange(a as int, b - 1));
        }
        b = b - 1;
    }
    let ghost u = s@.subrange(a as int, b as int);
    assert(trim_end(u) == u);
    let mut r: Vec<char> = Vec::new();
    let mut i = a;
    while i < b
        invariant
            a <= i <= b <= n,
            n == s@.len(),
            r@ == s@.subrange(a as int, i as int),
        decreases b - i,
    {
        r.push(s[i]);
        proof {
            assert(r@ =~= s@.subrange(a as int, i + 1));
        }
        i = i + 1;
    }
    r
}

/// `s` without its double quotes.
fn without_quotes(s: &Vec<char>) -> (r: String)
    ensures
        r@ == drop_quotes(s@),
{
    let mut kept: Vec<char> = Vec::new();
    let mut i: usize = 0;
    while i < s.len()
        invariant
            i <= s@.len(),
            kept@ == drop_quotes(s@.subrange(0, i as int)),
        decreases s.len() - i,
    {
        proof {
            let u = s@.subrange(0, i as int + 1);
            assert(u.drop_last() =~= s@.subrange(0, i as int));
            assert(u.last() == s@[i as int]);
        }
        if s[i] != '"' {
            kept.push(s[i]);
        }
        i = i + 1;
    }
    assert(s@.subrange(0, s@.len() as int) =~= s@);
    let mut r = String::new();
    push_chars(&mut r, &kept);
    r
}

impl EpdEntry {
    /// The FEN.
    pub closed spec fn fen_spec(&self) -> Seq<char> {
        self.fen@
    }

    /// The analysis depth.
    pub closed spec fn acd_spec(&self) -> u32 {
        self.acd
    }

    /// The analysis node count.
    pub closed spec fn acn_spec(&self) -> u32 {
        self.acn
    }

    /// The comment.
    pub closed spec fn c0_spec(&self) -> Seq<char> {
        self.c0@
    }

    /// The analysis depth.
    pub fn acd(&self) -> (d: u32)
        ensures
            d == self.acd_spec(),
    {
        self.acd
    }

    /// The analysis node count.
    pub fn acn(&self) -> (n: u32)
        ensures
            n == self.acn_spec(),
    {
        self.acn
    }

    /// The comment.
    pub fn c0(&self) -> (c: &String)
        ensures
            c@ == self.c0_spec(),
    {
        &self.c0
    }

    /// Reads an EPD line: the text before the first `;` is the FEN; in each later piece an
    /// `acd` or `acn` is followed by a number (what follows the first occurrence, trimmed),
    /// and a `c0` by a comment whose double quotes are dropped (see `epd_fold`).
    pub fn new(line: &str) -> (e: EpdEntry)
        requires
            epd_line_ok(line@),
        ensures
            e.fen_spec() == split_at(line@, ';')[0],
            (e.acd_spec(), e.acn_spec(), e.c0_spec()) == epd_fold(split_at(line@, ';'), split_at(line@, ';').len()),
    {
        let chars = str_chars(line);
        let segs = split_chars(&chars, ';');
        let ghost ss = split_at(line@, ';');
        assert(segs@.len() >= 1) by {
            assert(split_from(line@, ';', Seq::empty()).len() >= 1) by {
                lemma_split_nonempty(line@, ';', Seq::empty());
            }
        }
        let mut fen = String::new();
        push_chars(&mut fen, &segs[0]);
        let mut entry = EpdEntry { fen, acd: 0, acn: 0, c0: String::new() };
        let k_acd = str_chars("acd");
        let k_acn = str_chars("acn");
        let k_c0 = str_chars("c0");
        let mut idx: usize = 1;
        while idx < segs.len()
            invariant
                1 <= idx <= segs@.len(),
                segs@.len() == ss.len(),
                forall|i: int| 0 <= i < segs@.len() ==> (#[trigger] segs@[i])@ == ss[i],
                epd_line_ok(line@),
                ss == split_at(line@, ';'),
                entry.fen@ == ss[0],
                k_acd@ == "acd"@,
                k_acn@ == "acn"@,
                k_c0@ == "c0"@,
                (entry.acd, entry.acn, entry.c0@) == epd_fold(ss, idx as nat),
            decreases segs.len() - idx,
        {
            let seg = &segs[idx];
            let _seg_len = seg.len();
            proof {
                assert(seg@ == ss[idx as int]);
                assert(epd_piece_ok(ss[idx as int]));
            }
            if let Some(p) = find_chars(seg, &k_acd) {
                let v = trimmed_tail(seg, p + k_acd.len());
                entry.acd = match parse_uint(&v, 4294967295u64) {
                    Some(n) => n as u32,
                    None => 0,
                };
            }
            if let Some(p) = find_chars(seg, &k_acn) {
                let v = trimmed_tail(seg, p + k_acn.len());
                entry.acn = match parse_uint(&v, 4294967295u64) {
                    Some(n) => n as u32,
                    None => 0,
                };
            }
            if let Some(p) = find_chars(seg, &k_c0) {
                let v = trimmed_tail(seg, p + k_c0.len());
                entry.c0 = without_quotes(&v);
            }
            idx = idx + 1;
        }
        entry
    }
}

proof fn lemma_split_nonempty(s: Seq<char>, sep: char, cur: Seq<char>)
    ensures
        split_from(s, sep, cur).len() >= 1,
    decreases s.len(),
{
    if s.len() > 0 {
        if s[0] == sep {
            lemma_split_nonempty(s.drop_first(), sep, Seq::empty());
        } else {
            lemma_split_nonempty(s.drop_first(), sep, cur.push(s[0]));
        }
    }
}

} // verus!
