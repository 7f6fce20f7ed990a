//! The transposition table: a fixed number of entries, each keyed by a slot
//! computed from the position's hash key. A save overwrites the slot; a probe
//! reads it back without checking which position wrote it.

use vstd::prelude::*;
use crate::types::moves::Move;
use crate::types::score::Value;
use crate::zobrist::Key;

verus! {

/// The largest table, in megabytes; larger requests are cut to it.
pub const MAX_TT_SIZE_MB: usize = 1024;

/// How a stored value bounds the true value: exact, lower bound, upper bound,
/// or no entry at all.
#[derive(Debug, Clone, Copy, PartialEq, Eq, Structural)]
pub enum TTFlag {
    EXACT,
    LOWER,
    UPPER,
    NONE,
}

/// One table entry: the low 16 bits of the key, value and move, and the flag.
#[derive(Debug, Clone, Copy, PartialEq, Eq, Structural)]
pub struct TTEntry {
    key16: u16,
    value16: i16,
    flag: TTFlag,
    move16: u16,
}

/// The size of an entry in bytes: two 16-bit fields, a one-byte flag and a
/// 16-bit move, padded to the 2-byte alignment.
pub const TT_ENTRY_BYTES: usize = 8;

/// The entry that saving `(key, value, flag, m)` writes: each number cut to its low 16 bits.
pub open spec fn entry_spec(key: u64, value: i32, flag: TTFlag, m: u32) -> (u16, i16, TTFlag, u16) {
    (key as u16, value as i16, flag, m as u16)
}

/// The number of entries of a table of `size_mb` megabytes (cut to the maximum).
pub open spec fn num_entries_spec(size_mb: int) -> int {
    if size_mb > 1024 { 134217728int } else { size_mb * 1024 * 1024 / 8 }
}

/// The slot of `key` in a table of `len` entries.
pub open spec fn slot_of(key: u64, len: int) -> int {
    (key as usize) as int % len
}

impl View for TTEntry {
    type V = (u16, i16, TTFlag, u16);

    /// The fields as a tuple: key bits, value bits, flag, move bits.
    closed spec fn view(&self) -> (u16, i16, TTFlag, u16) {
        (self.key16, self.value16, self.flag, self.move16)
    }
}

/// The empty entry's fields.
pub open spec fn empty_entry() -> (u16, i16, TTFlag, u16) {
    (0u16, 0i16, TTFlag::NONE, 0u16)
}

/// What a probe of `key` answers on a table whose entries are `t`: a hit with the
/// value (sign-extended), flag and move of the key's slot, unless that slot is
/// flagged `NONE`.
pub open spec fn probe_spec(t: Seq<(u16, i16, TTFlag, u16)>, key: u64) -> (bool, i32, TTFlag, u32) {
    let e = t[slot_of(key, t.len() as int)];
    if e.2 != TTFlag::NONE {
        (true, e.1 as i32, e.2, e.3 as u32)
    } else {
        (false, 0i32, TTFlag::NONE, 0u32)
    }
}

impl TTEntry {
    /// The entry for a position with hash `key`; key, value and move keep their low 16 bits.
    pub fn new(key: Key, value: Value, flag: TTFlag, m: Move) -> (e: TTEntry)
        ensures
            e@ == entry_spec(key, value.0, flag, m.0),
    {
        TTEntry { key16: key as u16, value16: value.0 as i16, flag: flag, move16: m.0 as u16 }
    }

    /// The stored value, sign-extended.
    pub fn get_value(&self) -> (v: Value)
        ensures
            v.0 == self@.1 as i32,
    {
        Value(self.value16 as i32)
    }

    /// The stored flag.
    pub fn get_flag(&self) -> (f: TTFlag)
        ensures
            f == self@.2,
    {
        self.flag
    }

    /// The stored move.
    pub fn get_move(&self) -> (m: Move)
        ensures
            m.0 == self@.3 as u32,
    {
        Move(self.move16 as u32)
    }

    /// The empty entry: all zero and flagged `NONE`.
    pub fn empty() -> (e: TTEntry)
        ensures
            e@ == empty_entry(),
    {
        TTEntry { key16: 0, value16: 0, flag: TTFlag::NONE, move16: 0 }
    }
}

impl Default for TTEntry {
    fn default() -> (e: TTEntry)
        ensures
            e@ == empty_entry(),
    {
        TTEntry::empty()
    }
}

/// The table of entries.
pub struct TranspositionTable {
    table: Vec<TTEntry>,
}

impl View for TranspositionTable {
    type V = Seq<(u16, i16, TTFlag, u16)>;

    /// The entries, by slot.
    closed spec fn view(&self) -> Seq<(u16, i16, TTFlag, u16)> {
        self.table@.map_values(|e: TTEntry| e@)
    }
}

impl TranspositionTable {
    /// Every table holds at most the entries of the largest table.
    pub closed spec fn wf(&self) -> bool {
        self.table@.len() <= 1024 * 1024 * 1024 / 8
    }

    fn num_entries(size_mb: usize) -> (n: usize)
        ensures
            n == num_entries_spec(size_mb as int),
    {
        if size_mb > MAX_TT_SIZE_MB {
            return MAX_TT_SIZE_MB * 1024 * 1024 / TT_ENTRY_BYTES;
        }
        size_mb * 1024 * 1024 / TT_ENTRY_BYTES
    }

    /// A table of `mb_size` megabytes (at most `MAX_TT_SIZE_MB`), every entry empty.
    pub fn new(mb_size: usize) -> (t: TranspositionTable)
        ensures
            t.wf(),
            t@.len() == num_entries_spec(mb_size as int),
            forall|i: int| 0 <= i < t@.len() ==> #[trigger] t@[i] == empty_entry(),
    {
        let n = Self::num_entries(mb_size);
        let mut table: Vec<TTEntry> = Vec::with_capacity(n);
        let mut i: usize = 0;
        while i < n
            invariant
                i <= n,
                table@.len() == i,
                forall|j: int| 0 <= j < i ==> (#[trigger] table@[j])@ == empty_entry(),
            decreases n - i,
        {
            table.push(TTEntry::empty());
            i = i + 1;
        }
        TranspositionTable { table }
    }

    fn idx(&self, key: Key) -> (i: usize)
        requires
            self.table@.len() > 0,
        ensures
            i == slot_of(key, self.table@.len() as int),
    {
        key as usize % self.table.len()
    }

    /// Writes the entry for `(key, value, flag, m)` into the slot of `key`,
    /// replacing what was there; no other slot changes.
    pub fn save(&mut self, key: Key, value: Value, flag: TTFlag, m: Move)
        requires
            old(self)@.len() > 0,
        ensures
            final(self).wf() == old(self).wf(),
            final(self)@ == old(self)@.update(slot_of(key, old(self)@.len() as int),
                entry_spec(key, value.0, flag, m.0)),
    {
        let idx = self.idx(key);
        let e = TTEntry::new(key, value, flag, m);
        self.table.set(idx, e);
        proof {
            assert(self@ =~= old(self)@.update(idx as int, entry_spec(key, value.0, flag, m.0)));
        }
    }

    /// Reads the slot of `key`: see `probe_spec`. The table is unchanged.
    pub fn probe(&mut self, key: Key) -> (r: (bool, Value, TTFlag, Move))
        requires
            old(self)@.len() > 0,
        ensures
            *final(self) == *old(self),
            (r.0, r.1.0, r.2, r.3.0) == probe_spec(old(self)@, key),
    {
        let idx = self.idx(key);
        let tte = self.table[idx];
        assert(tte@ == self@[idx as int]);
        let tt_hit = tte.flag != TTFlag::NONE;
        if tt_hit {
            return (true, tte.get_value(), tte.get_flag(), tte.get_move());
        }
        (false, Value(0), TTFlag::NONE, Move(0))
    }

    /// The number of entries.
    pub fn len(&self) -> (n: usize)
        ensures
            n == self@.len(),
    {
        self.table.len()
    }

    /// The table's size in whole megabytes, entries being 8 bytes each.
    pub fn size_mb(&self) -> (mb: usize)
        requires
            self.wf(),
        ensures
            mb == self@.len() * 8 / 1024 / 1024,
    {
        self.table.len() * TT_ENTRY_BYTES / 1024 / 1024
    }

    /// Empties every entry.
    pub fn clear(&mut self)
        ensures
            final(self).wf() == old(self).wf(),
            final(self)@.len() == old(self)@.len(),
            forall|i: int| 0 <= i < final(self)@.len() ==> #[trigger] final(self)@[i] == empty_entry(),
    {
        let n = self.table.len();
        let mut idx: usize = 0;
        while idx < n
            invariant
                idx <= n,
                n == self.table@.len(),
                n == old(self).table@.len(),
                forall|j: int| 0 <= j < idx ==> (#[trigger] self.table@[j])@ == empty_entry(),
            decreases n - idx,
        {
            self.table.set(idx, TTEntry::empty());
            idx = idx + 1;
        }
    }
}

/// A table made for `mb_size` megabytes reports that size, or the maximum when
/// more was asked for.
pub proof fn lemma_size_of_new_table(mb_size: int, len: int)
    requires
        0 <= mb_size,
        len == num_entries_spec(mb_size),
    ensures
        len * 8 / 1024 / 1024 == if mb_size > 1024 { 1024 } else { mb_size },
{
    if mb_size <= 1024 {
        assert(mb_size * 1024 * 1024 / 8 == mb_size * 131072) by (nonlinear_arith)
            requires 0 <= mb_size;
        assert(mb_size * 131072 * 8 / 1024 / 1024 == mb_size) by (nonlinear_arith)
            requires 0 <= mb_size;
    }
}

/// Probing a key right after saving it finds what was saved: a hit with the saved
/// flag, the saved move's low 16 bits and the saved value cut to 16 bits (the value
/// itself when it fits), unless the flag saved was `NONE`, which reads as a miss.
pub proof fn lemma_save_then_probe(
    t: Seq<(u16, i16, TTFlag, u16)>,
    key: u64,
    value: i32,
    flag: TTFlag,
    m: u32,
)
    requires
        t.len() > 0,
    ensures
        ({
            let r = probe_spec(t.update(slot_of(key, t.len() as int), entry_spec(key, value, flag, m)), key);
            &&& flag != TTFlag::NONE ==> r == (true, value as i16 as i32, flag, m as u16 as u32)
            &&& flag == TTFlag::NONE ==> r == (false, 0i32, TTFlag::NONE, 0u32)
            &&& (flag != TTFlag::NONE && i16::MIN <= value <= i16::MAX) ==> r.1 == value
        }),
{
    let s = slot_of(key, t.len() as int);
    assert(0 <= s < t.len());
    if i16::MIN <= value <= i16::MAX {
        assert(value as i16 as i32 == value) by (bit_vector)
            requires i16::MIN <= value <= i16::MAX;
    }
}

} // verus!
