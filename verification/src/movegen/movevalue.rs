use vstd::prelude::*;
use crate::evaluate::score::Value;
use crate::board::ChessMove;

verus! {

/// A move with the value it is ordered by.
#[derive(Debug, Clone, Copy)]
pub struct MoveValue {
    mv: ChessMove,
    value: Value,
}

/// A list of at most `N` moves with values, held in a fixed array, with a cursor `idx`
/// for walking it; `size` entries are in use.
#[derive(Debug, Clone, Copy)]
pub struct MoveValues<const N: usize> {
    pub list: [MoveValue; N],
    idx: usize,
    size: usize,
}

/// The values of a sequence of entries never increase.
pub open spec fn sorted_desc(s: Seq<MoveValue>) -> bool {
    forall|i: int, j: int| 0 <= i < j < s.len() ==> (#[trigger] s[i]).value_spec() >= (#[trigger] s[j]).value_spec()
}

/// Every move of a sequence of entries is well formed.
pub open spec fn moves_wf(s: Seq<MoveValue>) -> bool {
    forall|i: int| 0 <= i < s.len() ==> (#[trigger] s[i]).move_spec().wf()
}

/// Sequences with the same entries, counted with multiplicity, agree on `moves_wf`.
pub proof fn lemma_moves_wf_permutation(a: Seq<MoveValue>, b: Seq<MoveValue>)
    requires
        a.to_multiset() == b.to_multiset(),
        moves_wf(b),
    ensures
        moves_wf(a),
{
    a.to_multiset_ensures();
    b.to_multiset_ensures();
    assert forall|i: int| 0 <= i < a.len() implies (#[trigger] a[i]).move_spec().wf() by {
        assert(a.contains(a[i]));
        assert(a.to_multiset().count(a[i]) > 0);
        assert(b.to_multiset().count(a[i]) > 0);
        assert(b.contains(a[i]));
        let j = choose|j: int| 0 <= j < b.len() && b[j] == a[i];
        assert(b[j].move_spec().wf());
    }
}

/// `pos` is where `insert_sort` puts an entry of value `v` into `s`: before the first
/// entry of smaller value, or at the end.
pub open spec fn insert_position(s: Seq<MoveValue>, v: i16, pos: int) -> bool {
    &&& 0 <= pos <= s.len()
    &&& forall|i: int| 0 <= i < pos ==> (#[trigger] s[i]).value_spec() >= v
    &&& pos < s.len() ==> v > s[pos].value_spec()
}

impl MoveValue {
    /// The move.
    pub closed spec fn move_spec(self) -> ChessMove {
        self.mv
    }

    /// The value.
    pub closed spec fn value_spec(self) -> i16 {
        self.value.0
    }

    /// The entry of move `mv` with value `value`, as a value.
    pub closed spec fn new_spec(mv: ChessMove, value: Value) -> MoveValue {
        MoveValue { mv, value }
    }

    /// The entry of move `mv` with value `value`.
    pub fn new(mv: ChessMove, value: Value) -> (r: MoveValue)
        ensures
            r == MoveValue::new_spec(mv, value),
            r.move_spec() == mv,
            r.value_spec() == value.0,
    {
        MoveValue { mv, value }
    }

    /// An entry of value `val` holding the placeholder move.
    pub fn from_i16(val: i16) -> (r: MoveValue)
        ensures
            r.move_spec() == ChessMove::placeholder_spec(),
            r.value_spec() == val,
    {
        MoveValue { mv: ChessMove::placeholder(), value: Value(val) }
    }

    /// The move.
    pub fn chess_move(&self) -> (m: ChessMove)
        ensures
            m == self.move_spec(),
    {
        self.mv
    }

    /// The value.
    pub fn value(&self) -> (v: Value)
        ensures
            v.0 == self.value_spec(),
    {
        self.value
    }

    /// The placeholder move with value zero.
    pub fn default() -> (r: MoveValue)
        ensures
            r.move_spec() == ChessMove::placeholder_spec(),
            r.value_spec() == 0,
    {
        MoveValue::from_i16(0)
    }
}

impl<const N: usize> MoveValues<N> {
    /// The entries in use.
    pub closed spec fn view(&self) -> Seq<MoveValue> {
        self.list@.subrange(0, self.size as int)
    }

    /// The whole array, entries in use or not.
    pub closed spec fn entries(&self) -> Seq<MoveValue> {
        self.list@
    }

    /// The cursor.
    pub closed spec fn idx_spec(&self) -> usize {
        self.idx
    }

    /// The number of entries in use.
    pub closed spec fn size_spec(&self) -> usize {
        self.size
    }

    /// The array holds the entries in use.
    pub closed spec fn wf(&self) -> bool {
        self.size <= N
    }

    proof fn lemma_view(&self)
        requires
            self.wf(),
        ensures
            self@.len() == self.size_spec(),
            forall|i: int| 0 <= i < self.size_spec() ==> #[trigger] self@[i] == self.list[i],
    {
    }

    /// A list holds at most `N` entries.
    pub proof fn lemma_len_bound(&self)
        requires
            self.wf(),
        ensures
            self@.len() <= N,
    {
    }

    /// An empty list.
    pub fn new() -> (r: MoveValues<N>)
        ensures
            r.wf(),
            r@ == Seq::<MoveValue>::empty(),
            r.idx_spec() == 0,
            forall|i: int| 0 <= i < N ==> #[trigger] r.entries()[i].value_spec() == 0,
    {
        let r = MoveValues { list: [MoveValue::default(); N], idx: 0, size: 0 };
        assert(r@ =~= Seq::<MoveValue>::empty());
        r
    }

    /// Appends an entry.
    pub fn push(&mut self, move_value: MoveValue)
        requires
            old(self).wf(),
            old(self)@.len() < N,
        ensures
            final(self).wf(),
            final(self)@ == old(self)@.push(move_value),
            final(self).idx_spec() == old(self).idx_spec(),
            forall|i: int| old(self)@.len() < i < N ==> #[trigger] final(self).entries()[i] == old(self).entries()[i],
    {
        self.list[self.size] = move_value;
        self.size = self.size + 1;
        assert(self@ =~= old(self)@.push(move_value));
    }

    /// Inserts an entry before the first entry of smaller value (after all entries of
    /// equal or greater value), so that a list sorted by descending value stays sorted.
    pub fn insert_sort(&mut self, move_value: MoveValue)
        requires
            old(self).wf(),
            old(self)@.len() < N,
        ensures
            final(self).wf(),
            final(self).idx_spec() == old(self).idx_spec(),
            exists|pos: int| insert_position(old(self)@, move_value.value_spec(), pos)
                && final(self)@ == old(self)@.insert(pos, move_value),
            sorted_desc(old(self)@) ==> sorted_desc(final(self)@),
            final(self)@.to_multiset() == old(self)@.to_multiset().insert(move_value),
            forall|i: int| old(self)@.len() < i < N ==> #[trigger] final(self).entries()[i] == old(self).entries()[i],
    {
        let size = self.size;
        let v = move_value.value.0;
        let mut j: usize = 0;
        while j < size && !(v > self.list[j].value.0)
            invariant
                j <= size,
                size == self.size,
                self.wf(),
                size < N,
                *self == *old(self),
                forall|i: int| 0 <= i < j ==> #[trigger] self.list[i].value_spec() >= v,
            decreases size - j,
        {
            j = j + 1;
        }
        let ghost old_view = self@;
        proof {
            assert(insert_position(old_view, v, j as int));
        }
        let mut k: usize = size;
        while k > j
            invariant
                j <= k <= size,
                size < N,
                self.size == size,
                self.idx == old(self).idx,
                forall|i: int| 0 <= i < j ==> #[trigger] self.list[i] == old(self).list[i],
                forall|i: int| j <= i < k ==> #[trigger] self.list[i] == old(self).list[i],
                forall|i: int| k < i <= size ==> #[trigger] self.list[i] == old(self).list[i - 1],
                forall|i: int| size < i < N ==> #[trigger] self.list[i] == old(self).list[i],
            decreases k - j,
        {
            self.list[k] = self.list[k - 1];
            k = k - 1;
        }
        self.list[j] = move_value;
        self.size = size + 1;
        proof {
            let new_view = old_view.insert(j as int, move_value);
            old_view.insert_ensures(j as int, move_value);
            assert(self@ =~= new_view);
            lemma_insert_multiset(old_view, j as int, move_value);
            if sorted_desc(old_view) {
                assert forall|a: int, b: int| 0 <= a < b < new_view.len() implies
                    (#[trigger] new_view[a]).value_spec() >= (#[trigger] new_view[b]).value_spec() by {
                    if a < j && b < j {
                    } else if a < j && b == j {
                    } else if a < j && b > j {
                        assert(new_view[b] == old_view[b - 1]);
                    } else if a == j {
                        assert(new_view[b] == old_view[b - 1]);
                    } else {
                        assert(new_view[a] == old_view[a - 1]);
                        assert(new_view[b] == old_view[b - 1]);
                    }
                }
            }
        }
    }
}

impl<const N: usize> MoveValues<N> {
    /// Sorts the entries in use by descending value; entries of equal value keep their order.
    pub fn sort(&mut self)
        requires
            old(self).wf(),
        ensures
            final(self).wf(),
            final(self)@.len() == old(self)@.len(),
            sorted_desc(final(self)@),
            final(self)@.to_multiset() == old(self)@.to_multiset(),
            final(self).idx_spec() == old(self).idx_spec(),
            forall|i: int| old(self)@.len() <= i < N ==> #[trigger] final(self).entries()[i] == old(self).entries()[i],
    {
        let size = self.size;
        let mut sorted: MoveValues<N> = MoveValues::new();
        let mut i: usize = 0;
        proof {
            assert(self@.subrange(0, 0) =~= sorted@);
        }
        while i < size
            invariant
                i <= size,
                size == self.size,
                self.wf(),
                *self == *old(self),
                sorted.wf(),
                sorted@.len() == i,
                sorted_desc(sorted@),
                sorted@.to_multiset() == self@.subrange(0, i as int).to_multiset(),
            decreases size - i,
        {
            let mv = self.list[i];
            proof {
                self.lemma_view();
                let pre = self@.subrange(0, i as int);
                assert(self@.subrange(0, i + 1) =~= pre.push(mv));
                pre.to_multiset_ensures();
            }
            sorted.insert_sort(mv);
            i = i + 1;
        }
        proof {
            assert(self@.subrange(0, size as int) =~= self@);
        }
        let mut k: usize = 0;
        while k < size
            invariant
                k <= size,
                size <= N,
                sorted.wf(),
                sorted@.len() == size,
                self.size == size,
                self.idx == old(self).idx,
                forall|j: int| 0 <= j < k ==> #[trigger] self.list[j] == sorted@[j],
                forall|j: int| size <= j < N ==> #[trigger] self.list[j] == old(self).list[j],
            decreases size - k,
        {
            proof { sorted.lemma_view(); }
            self.list[k] = sorted.list[k];
            k = k + 1;
        }
        proof {
            assert(self@ =~= sorted@);
        }
    }

    /// Overwrites the entry under the cursor.
    pub fn replace_next(&mut self, move_value: MoveValue)
        requires
            old(self).wf(),
            old(self).idx_spec() < N,
        ensures
            final(self).wf(),
            final(self).entries() == old(self).entries().update(old(self).idx_spec() as int, move_value),
            final(self).idx_spec() == old(self).idx_spec(),
            final(self).size_spec() == old(self).size_spec(),
            old(self).idx_spec() < old(self)@.len() ==> final(self)@ == old(self)@.update(
                old(self).idx_spec() as int,
                move_value,
            ),
            old(self).idx_spec() >= old(self)@.len() ==> final(self)@ == old(self)@,
    {
        self.list[self.idx] = move_value;
        proof {
            if old(self).idx < old(self).size {
                assert(self@ =~= old(self)@.update(old(self).idx as int, move_value));
            } else {
                assert(self@ =~= old(self)@);
            }
        }
    }

    /// Appends the entries of `other`.
    pub fn extend(&mut self, other: &MoveValues<N>)
        requires
            old(self).wf(),
            other.wf(),
            old(self)@.len() + other@.len() <= N,
        ensures
            final(self).wf(),
            final(self)@ == old(self)@ + other@,
            final(self).idx_spec() == old(self).idx_spec(),
    {
        let start = self.size;
        let new_size = self.size + other.len();
        let mut j: usize = start;
        while j < new_size
            invariant
                start <= j <= new_size,
                new_size <= N,
                new_size == start + other@.len(),
                other.wf(),
                self.size == start,
                self.idx == old(self).idx,
                forall|i: int| 0 <= i < start ==> #[trigger] self.list[i] == old(self).list[i],
                forall|i: int| start <= i < j ==> #[trigger] self.list[i] == other@[i - start],
            decreases new_size - j,
        {
            proof { other.lemma_view(); }
            self.list[j] = other.list[j - start];
            j = j + 1;
        }
        self.size = new_size;
        proof {
            assert(self@ =~= old(self)@ + other@);
        }
    }

    /// The entry under the cursor, advancing the cursor; `None` past the last entry.
    pub fn next(&mut self) -> (r: Option<MoveValue>)
        requires
            old(self).wf(),
        ensures
            final(self).wf(),
            final(self)@ == old(self)@,
            final(self).entries() == old(self).entries(),
            old(self).idx_spec() < old(self)@.len() ==> r == Some(old(self)@[old(self).idx_spec() as int])
                && final(self).idx_spec() == old(self).idx_spec() + 1,
            old(self).idx_spec() >= old(self)@.len() ==> r is None && final(self).idx_spec() == old(self).idx_spec(),
    {
        if self.idx < self.size {
            let next = self.list[self.idx];
            self.idx = self.idx + 1;
            Some(next)
        } else {
            None
        }
    }

    /// The move under the cursor, advancing the cursor; `None` past the last entry.
    pub fn next_move(&mut self) -> (r: Option<ChessMove>)
        requires
            old(self).wf(),
        ensures
            final(self).wf(),
            final(self)@ == old(self)@,
            final(self).entries() == old(self).entries(),
            old(self).idx_spec() < old(self)@.len() ==> r == Some(old(self)@[old(self).idx_spec() as int].move_spec())
                && final(self).idx_spec() == old(self).idx_spec() + 1,
            old(self).idx_spec() >= old(self)@.len() ==> r is None && final(self).idx_spec() == old(self).idx_spec(),
    {
        match self.next() {
            Some(move_value) => Some(move_value.chess_move()),
            None => None,
        }
    }

    /// The whole array.
    pub fn list(&self) -> (l: [MoveValue; N])
        ensures
            l@ == self.entries(),
    {
        self.list
    }

    /// The number of entries in use.
    pub fn len(&self) -> (n: usize)
        requires
            self.wf(),
        ensures
            n == self@.len(),
            n <= N,
    {
        self.size
    }

    /// The cursor.
    pub fn idx(&self) -> (i: usize)
        ensures
            i == self.idx_spec(),
    {
        self.idx
    }

    /// Moves the cursor to `idx`.
    pub fn set_idx(&mut self, idx: usize)
        ensures
            final(self).idx_spec() == idx,
            final(self)@ == old(self)@,
            final(self).entries() == old(self).entries(),
            final(self).wf() == old(self).wf(),
    {
        self.idx = idx;
    }

    /// Sets the number of entries in use.
    pub fn set_size(&mut self, size: usize)
        requires
            size <= N,
        ensures
            final(self).wf(),
            final(self).size_spec() == size,
            final(self).idx_spec() == old(self).idx_spec(),
            final(self).entries() == old(self).entries(),
    {
        self.size = size;
    }

    /// Advances the cursor by `incr`.
    pub fn incr_idx(&mut self, incr: usize)
        requires
            old(self).idx_spec() + incr <= usize::MAX,
        ensures
            final(self).idx_spec() == old(self).idx_spec() + incr,
            final(self)@ == old(self)@,
            final(self).entries() == old(self).entries(),
            final(self).size_spec() == old(self).size_spec(),
            final(self).wf() == old(self).wf(),
    {
        self.idx = self.idx + incr;
    }

    /// Moves the cursor back by `incr`.
    pub fn decr_idx(&mut self, incr: usize)
        requires
            old(self).idx_spec() >= incr,
        ensures
            final(self).idx_spec() == old(self).idx_spec() - incr,
            final(self)@ == old(self)@,
            final(self).entries() == old(self).entries(),
            final(self).wf() == old(self).wf(),
    {
        self.idx = self.idx - incr;
    }

    /// Grows the number of entries in use by `incr`.
    pub fn incr_size(&mut self, incr: usize)
        requires
            old(self).size_spec() + incr <= N,
        ensures
            final(self).wf(),
            final(self).size_spec() == old(self).size_spec() + incr,
            final(self).idx_spec() == old(self).idx_spec(),
            final(self).entries() == old(self).entries(),
    {
        self.size = self.size + incr;
    }
}

/// Inserting an element adds it to the multiset of the sequence.
proof fn lemma_insert_multiset<A>(s: Seq<A>, pos: int, a: A)
    requires
        0 <= pos <= s.len(),
    ensures
        s.insert(pos, a).to_multiset() == s.to_multiset().insert(a),
{
    let t = s.insert(pos, a);
    s.insert_ensures(pos, a);
    assert(t.remove(pos) =~= s);
    t.to_multiset_ensures();
    assert(t.remove(pos).to_multiset() =~= t.to_multiset().remove(a));
    assert(t.contains(a)) by {
        assert(t[pos] == a);
    }
    assert(t.to_multiset().count(a) > 0);
    assert(t.to_multiset() =~= t.to_multiset().remove(a).insert(a));
}

} // verus!
