//! The stages of the move picker of the classic position: which kind of move it hands
//! out next.

use vstd::prelude::*;
use vstd::multiset::Multiset;
use crate::types::moves::Move;

verus! {

/// A stage of move picking, as a number; the constants of `Stage` name the numbers.
#[derive(Debug, Clone, Copy, PartialEq, Eq, Structural)]
pub struct Stage(pub u32);

impl Stage {
    pub const MAIN_TT: u32 = 0;
    pub const CAPTURES_INIT: u32 = 1;
    pub const GOOD_CAPTURES: u32 = 2;
    pub const KILLER_ONE: u32 = 3;
    pub const KILLER_TWO: u32 = 4;
    pub const QUIET_INIT: u32 = 5;
    pub const QUIET: u32 = 6;
    pub const BAD_CAPTURES: u32 = 7;
    pub const EVASION_TT: u32 = 8;
    pub const EVASION_INIT: u32 = 9;
    pub const ALL_EVASIONS: u32 = 10;
    pub const QSEARCH_TT: u32 = 11;
    pub const QCAPTURES_INIT: u32 = 12;
    pub const QCAPTURES: u32 = 13;
    pub const QCHECKS_INIT: u32 = 14;
    pub const QCHECKS: u32 = 15;

    /// The stage after this one.
    pub fn next(self) -> (s: Stage)
        requires
            self.0 < u32::MAX,
        ensures
            s.0 == self.0 + 1,
    {
        Stage(self.0 + 1)
    }
}

/// A move with its ordering value.
#[derive(Debug, Clone, Copy, PartialEq, Eq, Structural)]
pub struct ExtMove {
    pub m: Move,
    pub value: i32,
}

/// The values do not increase along `s`.
pub open spec fn sorted_by_value(s: Seq<ExtMove>) -> bool {
    forall|a: int, b: int| 0 <= a < b < s.len() ==> #[trigger] s[a].value >= #[trigger] s[b].value
}

/// The elements `s[1]` to `s[n - 1]` whose value reaches `limit`.
pub open spec fn reaching(s: Seq<ExtMove>, limit: i32, n: int) -> Multiset<ExtMove>
    decreases n,
{
    if n <= 1 {
        Multiset::empty()
    } else if s[n - 1].value >= limit {
        reaching(s, limit, n - 1).insert(s[n - 1])
    } else {
        reaching(s, limit, n - 1)
    }
}

/// The elements a partial insertion sort of the first `n` elements of `s` puts in front:
/// the first element, and the later ones whose value reaches `limit`.
pub open spec fn front_part(s: Seq<ExtMove>, limit: i32, n: int) -> Multiset<ExtMove> {
    reaching(s, limit, n).insert(s[0])
}

/// Moves the element of highest value (the first one of that value) to the front,
/// swapping it with the first element, and returns it.
pub fn pick_best(list: &mut Vec<ExtMove>) -> (best: ExtMove)
    requires
        old(list)@.len() > 0,
    ensures
        exists|q: int| #![trigger old(list)@[q]]
            0 <= q < old(list)@.len()
            && (forall|i: int| 0 <= i < q ==> #[trigger] old(list)@[i].value < old(list)@[q].value)
            && (forall|i: int| 0 <= i < old(list)@.len() ==> #[trigger] old(list)@[i].value <= old(list)@[q].value)
            && final(list)@ == old(list)@.update(0, old(list)@[q]).update(q, old(list)@[0]),
        best == final(list)@[0],
{
    let mut q: usize = 0;
    let mut p: usize = 1;
    while p < list.len()
        invariant
            1 <= p <= list@.len(),
            q < p,
            *list == *old(list),
            forall|i: int| 0 <= i < q ==> #[trigger] list@[i].value < list@[q as int].value,
            forall|i: int| 0 <= i < p ==> #[trigger] list@[i].value <= list@[q as int].value,
        decreases list.len() - p,
    {
        if list[p].value > list[q].value {
            q = p;
        }
        p = p + 1;
    }
    let first = list[0];
    let top = list[q];
    list.set(0, top);
    list.set(q, first);
    proof {
        assert(list@ =~= old(list)@.update(0, old(list)@[q as int]).update(q as int, old(list)@[0]));
    }
    list[0]
}

/// `reaching` grows by the element at `n` exactly when its value reaches `limit`.
proof fn lemma_reaching_step(s: Seq<ExtMove>, limit: i32, n: int)
    requires
        1 <= n,
    ensures
        reaching(s, limit, n + 1) == if s[n].value >= limit { reaching(s, limit, n).insert(s[n]) } else {
            reaching(s, limit, n)
        },
{
}

/// Sorts the elements in descending order of value up to `limit`: the first element and
/// every later one whose value reaches `limit` end up in front, sorted; the others follow,
/// in an order left open.
pub fn partial_insertion_sort(list: &mut Vec<ExtMove>, limit: i32)
    ensures
        final(list)@.to_multiset() == old(list)@.to_multiset(),
        old(list)@.len() == 0 ==> final(list)@.len() == 0,
        old(list)@.len() > 0 ==> exists|k: int| 1 <= k <= old(list)@.len()
            && sorted_by_value(#[trigger] final(list)@.subrange(0, k))
            && final(list)@.subrange(0, k).to_multiset() == front_part(old(list)@, limit, old(list)@.len() as int)
            && forall|i: int| k <= i < final(list)@.len() ==> (#[trigger] final(list)@[i]).value < limit,
{
    let n = list.len();
    if n == 0 {
        return;
    }
    let ghost orig = list@;
    let mut sorted_end: usize = 0;
    let mut p: usize = 1;
    proof {
        assert(list@.subrange(0, 1).to_multiset() =~= Multiset::empty().insert(orig[0])) by {
            assert(list@.subrange(0, 1) =~= Seq::<ExtMove>::empty().push(orig[0]));
            Seq::<ExtMove>::empty().to_multiset_ensures();
        }
        assert(list@.subrange(p as int, n as int) =~= orig.subrange(p as int, n as int));
    }
    while p < n
        invariant
            n == list@.len(),
            n == orig.len(),
            n > 0,
            1 <= p <= n,
            sorted_end < p,
            list@.to_multiset() == orig.to_multiset(),
            list@.subrange(p as int, n as int) == orig.subrange(p as int, n as int),
            sorted_by_value(list@.subrange(0, sorted_end + 1)),
            list@.subrange(0, sorted_end + 1).to_multiset() == front_part(orig, limit, p as int),
            forall|i: int| sorted_end < i < p ==> (#[trigger] list@[i]).value < limit,
        decreases n - p,
    {
        let ghost before = list@;
        proof {
            assert(before[p as int] == orig[p as int]) by {
                assert(before.subrange(p as int, n as int)[0] == orig.subrange(p as int, n as int)[0]);
            }
            lemma_reaching_step(orig, limit, p as int);
        }
        if list[p].value >= limit {
            let tmp = list[p];
            sorted_end = sorted_end + 1;
            let moved = list[sorted_end];
            list.set(p, moved);
            let ghost after_move = list@;
            let mut q: usize = sorted_end;
            while q > 0 && list[q - 1].value < tmp.value
                invariant
                    q <= sorted_end <= p < n,
                    list@.len() == n,
                    after_move == before.update(p as int, before[sorted_end as int]),
                    forall|i: int| 0 <= i <= q ==> #[trigger] list@[i] == after_move[i],
                    forall|i: int| q < i <= sorted_end ==> #[trigger] list@[i] == after_move[i - 1],
                    forall|i: int| sorted_end < i < n ==> #[trigger] list@[i] == after_move[i],
                    forall|i: int| q <= i < sorted_end ==> (#[trigger] after_move[i]).value < tmp.value,
                decreases q,
            {
                let prev = list[q - 1];
                list.set(q, prev);
                q = q - 1;
            }
            proof {
                assert(q == 0 || after_move[q as int - 1].value >= tmp.value);
            }
            list.set(q, tmp);
            proof {
                assert forall|i: int| 0 <= i < q implies list@[i] == before[i] by {}
                assert forall|i: int| q < i <= sorted_end implies list@[i] == before[i - 1] by {}
                assert forall|i: int| q <= i < sorted_end implies (#[trigger] before[i]).value < tmp.value by {
                    assert(after_move[i] == before[i]);
                }
                lemma_insert_step(before, list@, sorted_end as int, p as int, q as int, tmp, limit);
                assert(list@.subrange(p + 1, n as int) =~= orig.subrange(p + 1, n as int)) by {
                    assert forall|i: int| p + 1 <= i < n implies list@[i] == orig[i] by {
                        assert(before.subrange(p as int, n as int)[i - p] == orig.subrange(p as int, n as int)[i - p]);
                    }
                }
            }
        } else {
            proof {
                assert(list@.subrange(p + 1, n as int) =~= orig.subrange(p + 1, n as int)) by {
                    assert forall|i: int| p + 1 <= i < n implies list@[i] == orig[i] by {
                        assert(before.subrange(p as int, n as int)[i - p] == orig.subrange(p as int, n as int)[i - p]);
                    }
                }
            }
        }
        p = p + 1;
    }
    proof {
        let k = sorted_end + 1;
        assert(1 <= k <= n && sorted_by_value(list@.subrange(0, k as int)));
    }
}

/// One step of the partial insertion sort: the element `tmp` at `p` went to the sorted
/// front `[0, se)`, at `q`, the front moving up by one past it, and the element at `se`
/// went to `p`.
proof fn lemma_insert_step(before: Seq<ExtMove>, after: Seq<ExtMove>, se: int, p: int, q: int, tmp: ExtMove, limit: i32)
    requires
        after.len() == before.len(),
        0 <= q <= se <= p < before.len(),
        0 < se,
        tmp == before[p],
        tmp.value >= limit,
        sorted_by_value(before.subrange(0, se)),
        forall|i: int| se <= i < p ==> (#[trigger] before[i]).value < limit,
        forall|i: int| 0 <= i < q ==> after[i] == before[i],
        after[q] == tmp,
        forall|i: int| q < i <= se ==> after[i] == before[i - 1],
        se < p ==> after[p] == before[se],
        forall|i: int| se < i < before.len() && i != p ==> after[i] == before[i],
        forall|i: int| q <= i < se ==> (#[trigger] before[i]).value < tmp.value,
        q == 0 || before[q - 1].value >= tmp.value,
    ensures
        sorted_by_value(after.subrange(0, se + 1)),
        after.subrange(0, se + 1).to_multiset() == before.subrange(0, se).to_multiset().insert(tmp),
        after.to_multiset() == before.to_multiset(),
        forall|i: int| se < i < p + 1 ==> (#[trigger] after[i]).value < limit,
        after.subrange(p + 1, before.len() as int) == before.subrange(p + 1, before.len() as int),
{
    let n = before.len() as int;
    let pre = before.subrange(0, se);
    let ins = pre.insert(q, tmp);
    assert(after.subrange(0, se + 1) =~= ins);
    assert forall|a: int, b: int| 0 <= a < b < ins.len() implies #[trigger] ins[a].value >= #[trigger] ins[b].value by {
        if b < q {
            assert(ins[a] == pre[a] && ins[b] == pre[b]);
        } else if b == q {
            assert(ins[a] == pre[a]);
            assert(pre[q - 1] == before[q - 1]);
            if a < q - 1 {
                assert(pre[a].value >= pre[q - 1].value);
            }
        } else if a < q {
            assert(ins[a] == pre[a] && ins[b] == pre[b - 1]);
        } else if a == q {
            assert(ins[b] == pre[b - 1] && pre[b - 1] == before[b - 1]);
        } else {
            assert(ins[a] == pre[a - 1] && ins[b] == pre[b - 1]);
        }
    }
    lemma_insert_ms(pre, q, tmp);
    let rest = before.subrange(p + 1, n);
    assert(after.subrange(p + 1, n) =~= rest);
    assert(seq![tmp].to_multiset() =~= Multiset::empty().insert(tmp)) by {
        assert(seq![tmp] =~= Seq::<ExtMove>::empty().push(tmp));
        Seq::<ExtMove>::empty().to_multiset_ensures();
    }
    if se < p {
        let m = before[se];
        let mid = before.subrange(se + 1, p);
        assert(before =~= pre + seq![m] + mid + seq![tmp] + rest);
        assert(after =~= ins + mid + seq![m] + rest);
        vstd::seq_lib::lemma_multiset_commutative(pre + seq![m] + mid, seq![tmp]);
        vstd::seq_lib::lemma_multiset_commutative(pre + seq![m] + mid + seq![tmp], rest);
        vstd::seq_lib::lemma_multiset_commutative(pre + seq![m], mid);
        vstd::seq_lib::lemma_multiset_commutative(pre, seq![m]);
        vstd::seq_lib::lemma_multiset_commutative(ins + mid + seq![m], rest);
        vstd::seq_lib::lemma_multiset_commutative(ins + mid, seq![m]);
        vstd::seq_lib::lemma_multiset_commutative(ins, mid);
        assert(seq![m].to_multiset() =~= Multiset::empty().insert(m)) by {
            assert(seq![m] =~= Seq::<ExtMove>::empty().push(m));
            Seq::<ExtMove>::empty().to_multiset_ensures();
        }
        assert(after.to_multiset() =~= before.to_multiset());
        assert forall|i: int| se < i < p + 1 implies (#[trigger] after[i]).value < limit by {
            if i < p {
                assert(after[i] == before[i]);
            }
        }
    } else {
        assert(before =~= pre + seq![tmp] + rest);
        assert(after =~= ins + rest);
        vstd::seq_lib::lemma_multiset_commutative(pre, seq![tmp]);
        vstd::seq_lib::lemma_multiset_commutative(pre + seq![tmp], rest);
        vstd::seq_lib::lemma_multiset_commutative(ins, rest);
        assert(after.to_multiset() =~= before.to_multiset());
    }
}

/// Inserting an element adds it to the multiset.
proof fn lemma_insert_ms(s: Seq<ExtMove>, pos: int, a: ExtMove)
    requires
        0 <= pos <= s.len(),
    ensures
        s.insert(pos, a).to_multiset() == s.to_multiset().insert(a),
{
    let t = s.insert(pos, a);
    s.insert_ensures(pos, a);
    assert(t.remove(pos) =~= s);
    t.to_multiset_ensures();
    assert(t.remove(pos).to_multiset() =~= t.to_multiset().remove(a));
    assert(t.contains(a)) by {
        assert(t[pos] == a);
    }
    assert(t.to_multiset().count(a) > 0);
    assert(t.to_multiset() =~= t.to_multiset().remove(a).insert(a));
}

} // verus!
