//! Words of a command line: comparing them, joining them, reading numbers.

use vstd::prelude::*;
use crate::position::classic::fen::{str_chars, all_digits, digits_value, lemma_digits_step, lemma_digits_monotone};
use crate::types::square::string_push;

verus! {

/// The characters of each word.
pub open spec fn words(args: Seq<Vec<char>>) -> Seq<Seq<char>> {
    args.map_values(|t: Vec<char>| t@)
}

/// Whether word `t` is `w`.
pub fn word_is(t: &Vec<char>, w: &str) -> (r: bool)
    ensures
        r == (t@ == w@),
{
    let wc = str_chars(w);
    if t.len() != wc.len() {
        return false;
    }
    let mut i: usize = 0;
    while i < t.len()
        invariant
            i <= t@.len(),
            t@.len() == wc@.len(),
            wc@ == w@,
            forall|k: int| 0 <= k < i ==> t@[k] == wc@[k],
        decreases t.len() - i,
    {
        if t[i] != wc[i] {
            return false;
        }
        i = i + 1;
    }
    assert(t@ =~= wc@);
    true
}

/// The words `ts` written one after another, a single space between two words.
pub open spec fn join_spec(ts: Seq<Seq<char>>) -> Seq<char>
    decreases ts.len(),
{
    if ts.len() == 0 {
        Seq::empty()
    } else if ts.len() == 1 {
        ts[0]
    } else {
        join_spec(ts.drop_last()) + seq![' '] + ts.last()
    }
}

/// Appends the characters of `t` to `s`.
pub fn push_chars(s: &mut String, t: &Vec<char>)
    ensures
        final(s)@ == old(s)@ + t@,
{
    let mut i: usize = 0;
    while i < t.len()
        invariant
            i <= t@.len(),
            s@ == old(s)@ + t@.subrange(0, i as int),
        decreases t.len() - i,
    {
        string_push(s, t[i]);
        proof {
            assert(t@.subrange(0, i as int).push(t@[i as int]) =~= t@.subrange(0, i as int + 1));
        }
        i = i + 1;
    }
    assert(t@.subrange(0, t@.len() as int) =~= t@);
}

/// Appends the characters of `t` to `s`.
pub fn push_str(s: &mut String, t: &str)
    ensures
        final(s)@ == old(s)@ + t@,
{
    let chars = str_chars(t);
    push_chars(s, &chars);
}

/// Words `lo` to `hi` (exclusive) of `args`, joined by single spaces.
pub fn join_words(args: &Vec<Vec<char>>, lo: usize, hi: usize) -> (s: String)
    requires
        lo <= hi <= args@.len(),
    ensures
        s@ == join_spec(words(args@).subrange(lo as int, hi as int)),
{
    let mut s = String::new();
    let mut i: usize = lo;
    while i < hi
        invariant
            lo <= i <= hi <= args@.len(),
            s@ == join_spec(words(args@).subrange(lo as int, i as int)),
        decreases hi - i,
    {
        let ghost before = s@;
        let ghost ws = words(args@).subrange(lo as int, i as int + 1);
        proof {
            assert(ws.drop_last() =~= words(args@).subrange(lo as int, i as int));
            assert(ws.last() == args@[i as int]@);
        }
        if i > lo {
            string_push(&mut s, ' ');
        } else {
            proof {
                assert(ws.len() == 1);
                assert(before =~= Seq::<char>::empty());
            }
        }
        push_chars(&mut s, &args[i]);
        proof {
            if i > lo {
                assert(s@ =~= join_spec(ws.drop_last()) + seq![' '] + ws.last());
            } else {
                assert(s@ =~= ws[0]);
            }
        }
        i = i + 1;
    }
    s
}

/// The number `t` spells as Rust reads an unsigned integer no larger than `max`: an
/// optional plus sign, then at least one digit and nothing else; `None` otherwise.
pub open spec fn parse_uint_spec(t: Seq<char>, max: int) -> Option<int> {
    let d = if t.len() > 0 && t[0] == '+' { t.drop_first() } else { t };
    if d.len() > 0 && all_digits(d) && digits_value(d) <= max {
        Some(digits_value(d))
    } else {
        None
    }
}

/// Reads `t` as an unsigned number no larger than `max` (see `parse_uint_spec`).
pub fn parse_uint(t: &Vec<char>, max: u64) -> (r: Option<u64>)
    ensures
        match parse_uint_spec(t@, max as int) {
            Some(v) => r == Some(v as u64),
            None => r is None,
        },
        r matches Some(n) ==> parse_uint_spec(t@, max as int) == Some(n as int),
{
    let n = t.len();
    if n == 0 {
        return None;
    }
    let start: usize = if t[0] == '+' { 1 } else { 0 };
    let ghost d = if start == 1 { t@.drop_first() } else { t@ };
    proof {
        assert(d =~= t@.subrange(start as int, n as int));
    }
    if start == n {
        return None;
    }
    let mut acc: u128 = 0;
    let mut i: usize = start;
    while i < n
        invariant
            start <= i <= n,
            n == t@.len(),
            n > 0,
            start < n,
            d == t@.subrange(start as int, n as int),
            d == (if t@[0] == '+' { t@.drop_first() } else { t@ }),
            acc == digits_value(d.subrange(0, i - start)),
            all_digits(d.subrange(0, i - start)),
            acc <= max,
        decreases n - i,
    {
        let c = t[i];
        if !('0' <= c && c <= '9') {
            proof {
                let k = (i - start) as int;
                assert(d[k] == t@[i as int]);
                assert(!all_digits(d));
            }
            return None;
        }
        proof {
            lemma_digits_step(d, (i - start) as int);
            assert(all_digits(d.subrange(0, i - start + 1)));
        }
        let digit = (c as u32 - '0' as u32) as u128;
        let next = acc * 10 + digit;
        if next > max as u128 {
            proof {
                let k = (i - start) as int;
                assert(d[k] == c);
                assert(digits_value(d.subrange(0, k + 1)) == next);
                if all_digits(d) {
                    lemma_digits_monotone(d, k + 1);
                    assert(digits_value(d) > max);
                }
            }
            return None;
        }
        acc = next;
        i = i + 1;
    }
    proof {
        assert(d.subrange(0, n - start) =~= d);
    }
    Some(acc as u64)
}

} // verus!
