//! Stable ordering of records by a two-part integer key.
//!
//! A stable sort is the sort by `(key, position)`: no two positions tie, so the
//! resulting order is unique and can be stated without mentioning the algorithm.
use vstd::prelude::*;

verus! {

/// A sort key: compared by the first part, then by the second.
pub type SortKey = (u64, u128);

pub open spec fn key_lt(a: SortKey, b: SortKey) -> bool {
    a.0 < b.0 || (a.0 == b.0 && a.1 < b.1)
}

/// Whether position `i` comes before position `j` in the stable order of `keys`.
pub open spec fn precedes(keys: Seq<SortKey>, i: int, j: int) -> bool {
    key_lt(keys[i], keys[j]) || (keys[i] == keys[j] && i < j)
}

/// `order` lists positions of `keys`, each before the next in the stable order.
pub open spec fn is_sorted_order(keys: Seq<SortKey>, order: Seq<usize>) -> bool {
    forall|a: int, b: int|
        0 <= a < b < order.len() ==> precedes(
            keys,
            (#[trigger] order[a]) as int,
            (#[trigger] order[b]) as int,
        )
}

/// `order` lists exactly the positions from `lo` to `hi`, stably sorted.
pub open spec fn is_stable_order(
    keys: Seq<SortKey>,
    lo: int,
    hi: int,
    order: Seq<usize>,
) -> bool {
    &&& order.len() == hi - lo
    &&& forall|a: int| 0 <= a < order.len() ==> lo <= (#[trigger] order[a]) < hi
    &&& forall|p: usize| lo <= p < hi ==> #[trigger] order.contains(p)
    &&& is_sorted_order(keys, order)
}

/// A key type with a strict weak order.
pub trait SortRank: Sized {
    spec fn before(&self, other: &Self) -> bool;

    fn is_before(&self, other: &Self) -> (r: bool)
        ensures
            r == self.before(other),
    ;

    /// The order is asymmetric, and of two ordered keys every third one is after the
    /// first or before the second.
    proof fn order_laws(a: &Self, b: &Self, c: &Self)
        ensures
            !(a.before(b) && b.before(a)),
            a.before(c) ==> a.before(b) || b.before(c),
    ;
}

impl SortRank for SortKey {
    open spec fn before(&self, other: &Self) -> bool {
        key_lt(*self, *other)
    }

    fn is_before(&self, other: &Self) -> (r: bool) {
        if self.0 != other.0 {
            self.0 < other.0
        } else {
            self.1 < other.1
        }
    }

    proof fn order_laws(a: &Self, b: &Self, c: &Self) {
    }
}

/// Whether position `i` comes before position `j` in the stable order of ranked keys.
pub open spec fn rank_precedes<K: SortRank>(keys: Seq<K>, i: int, j: int) -> bool {
    keys[i].before(&keys[j]) || (!keys[j].before(&keys[i]) && i < j)
}

/// `order` lists exactly the positions from `lo` to `hi`, stably sorted by rank.
pub open spec fn is_ranked_order<K: SortRank>(
    keys: Seq<K>,
    lo: int,
    hi: int,
    order: Seq<usize>,
) -> bool {
    &&& order.len() == hi - lo
    &&& forall|a: int| 0 <= a < order.len() ==> lo <= (#[trigger] order[a]) < hi
    &&& forall|p: usize| lo <= p < hi ==> #[trigger] order.contains(p)
    &&& forall|a: int, b: int|
        0 <= a < b < order.len() ==> rank_precedes(
            keys,
            (#[trigger] order[a]) as int,
            (#[trigger] order[b]) as int,
        )
}

/// The stable order is transitive.
pub proof fn rank_precedes_is_transitive<K: SortRank>(keys: Seq<K>, i: int, j: int, k: int)
    requires
        rank_precedes(keys, i, j),
        rank_precedes(keys, j, k),
    ensures
        rank_precedes(keys, i, k),
{
    K::order_laws(&keys[i], &keys[j], &keys[k]);
    K::order_laws(&keys[i], &keys[k], &keys[j]);
    K::order_laws(&keys[j], &keys[i], &keys[k]);
    K::order_laws(&keys[j], &keys[k], &keys[i]);
    K::order_laws(&keys[k], &keys[i], &keys[j]);
    K::order_laws(&keys[k], &keys[j], &keys[i]);
}

fn position_before<K: SortRank>(keys: &Vec<K>, i: usize, j: usize) -> (r: bool)
    requires
        i < keys@.len(),
        j < keys@.len(),
    ensures
        r == rank_precedes(keys@, i as int, j as int),
{
    if keys[i].is_before(&keys[j]) {
        true
    } else if keys[j].is_before(&keys[i]) {
        false
    } else {
        i < j
    }
}

fn merge_orders<K: SortRank>(
    keys: &Vec<K>,
    left: &Vec<usize>,
    right: &Vec<usize>,
    Ghost(lo): Ghost<int>,
    Ghost(mid): Ghost<int>,
    Ghost(hi): Ghost<int>,
) -> (out: Vec<usize>)
    requires
        0 <= lo <= mid <= hi <= keys@.len(),
        is_ranked_order(keys@, lo, mid, left@),
        is_ranked_order(keys@, mid, hi, right@),
    ensures
        is_ranked_order(keys@, lo, hi, out@),
{
    let mut out: Vec<usize> = Vec::new();
    let mut i: usize = 0;
    let mut j: usize = 0;
    while i < left.len() || j < right.len()
        invariant
            0 <= lo <= mid <= hi <= keys@.len(),
            is_ranked_order(keys@, lo, mid, left@),
            is_ranked_order(keys@, mid, hi, right@),
            i <= left@.len(),
            j <= right@.len(),
            out@.len() == i + j,
            forall|a: int| 0 <= a < out@.len() ==> lo <= (#[trigger] out@[a]) < hi,
            forall|a: int| 0 <= a < i ==> out@.contains(#[trigger] left@[a]),
            forall|a: int| 0 <= a < j ==> out@.contains(#[trigger] right@[a]),
            forall|a: int, b: int|
                0 <= a < b < out@.len() ==> rank_precedes(
                    keys@,
                    (#[trigger] out@[a]) as int,
                    (#[trigger] out@[b]) as int,
                ),
            forall|a: int, b: int|
                0 <= a < out@.len() && i <= b < left@.len() ==> rank_precedes(
                    keys@,
                    (#[trigger] out@[a]) as int,
                    (#[trigger] left@[b]) as int,
                ),
            forall|a: int, b: int|
                0 <= a < out@.len() && j <= b < right@.len() ==> rank_precedes(
                    keys@,
                    (#[trigger] out@[a]) as int,
                    (#[trigger] right@[b]) as int,
                ),
        decreases left@.len() + right@.len() - i - j,
    {
        let take_left: bool = if i >= left.len() {
            false
        } else if j >= right.len() {
            true
        } else {
            position_before(keys, left[i], right[j])
        };
        let ghost before = out@;
        let next: usize = if take_left {
            left[i]
        } else {
            right[j]
        };
        proof {
            if take_left {
                assert forall|b: int| j <= b < right@.len() implies rank_precedes(
                    keys@,
                    next as int,
                    (#[trigger] right@[b]) as int,
                ) by {
                    if b > j {
                        rank_precedes_is_transitive(
                            keys@,
                            next as int,
                            right@[j as int] as int,
                            right@[b] as int,
                        );
                    }
                }
            } else {
                assert forall|b: int| i <= b < left@.len() implies rank_precedes(
                    keys@,
                    next as int,
                    (#[trigger] left@[b]) as int,
                ) by {
                    K::order_laws(
                        &keys@[left@[i as int] as int],
                        &keys@[next as int],
                        &keys@[next as int],
                    );
                    assert(left@[i as int] < mid <= next);
                    assert(rank_precedes(keys@, next as int, left@[i as int] as int));
                    if b > i {
                        rank_precedes_is_transitive(
                            keys@,
                            next as int,
                            left@[i as int] as int,
                            left@[b] as int,
                        );
                    }
                }
            }
        }
        out.push(next);
        proof {
            assert(out@[before.len() as int] == next);
            assert forall|a: int| 0 <= a < i implies out@.contains(#[trigger] left@[a]) by {
                assert(before.contains(left@[a]));
                let w = choose|w: int| 0 <= w < before.len() && before[w] == left@[a];
                assert(out@[w] == left@[a]);
            }
            assert forall|a: int| 0 <= a < j implies out@.contains(#[trigger] right@[a]) by {
                assert(before.contains(right@[a]));
                let w = choose|w: int| 0 <= w < before.len() && before[w] == right@[a];
                assert(out@[w] == right@[a]);
            }
        }
        if take_left {
            i = i + 1;
        } else {
            j = j + 1;
        }
    }
    proof {
        assert forall|p: usize| lo <= p < hi implies #[trigger] out@.contains(p) by {
            if p < mid {
                assert(left@.contains(p));
                let w = choose|w: int| 0 <= w < left@.len() && left@[w] == p;
                assert(out@.contains(left@[w]));
            } else {
                assert(right@.contains(p));
                let w = choose|w: int| 0 <= w < right@.len() && right@[w] == p;
                assert(out@.contains(right@[w]));
            }
        }
    }
    out
}

fn order_range<K: SortRank>(keys: &Vec<K>, lo: usize, hi: usize) -> (out: Vec<usize>)
    requires
        lo <= hi <= keys@.len(),
    ensures
        is_ranked_order(keys@, lo as int, hi as int, out@),
    decreases hi - lo,
{
    if hi == lo {
        Vec::new()
    } else if hi - lo == 1 {
        let mut out: Vec<usize> = Vec::new();
        out.push(lo);
        assert(out@[0] == lo);
        out
    } else {
        let mid: usize = lo + (hi - lo) / 2;
        let left = order_range(keys, lo, mid);
        let right = order_range(keys, mid, hi);
        merge_orders(keys, &left, &right, Ghost(lo as int), Ghost(mid as int), Ghost(hi as int))
    }
}

/// The positions of ranked keys in stable sorted order.
pub fn ranked_order<K: SortRank>(keys: &Vec<K>) -> (order: Vec<usize>)
    ensures
        is_ranked_order(keys@, 0, keys@.len() as int, order@),
{
    order_range(keys, 0, keys.len())
}

/// The positions of `keys` in stable sorted order.
pub fn stable_order(keys: &Vec<SortKey>) -> (order: Vec<usize>)
    ensures
        is_stable_order(keys@, 0, keys@.len() as int, order@),
{
    let order = ranked_order(keys);
    proof {
        assert forall|a: int, b: int| 0 <= a < b < order@.len() implies precedes(
            keys@,
            (#[trigger] order@[a]) as int,
            (#[trigger] order@[b]) as int,
        ) by {
            assert(rank_precedes(keys@, order@[a] as int, order@[b] as int));
        }
    }
    order
}

/// Moves the items listed by `order` out of `items`, in that order.
pub fn select_in_order<T>(items: Vec<T>, order: &Vec<usize>) -> (out: Vec<T>)
    requires
        forall|i: int| 0 <= i < order@.len() ==> (#[trigger] order@[i]) < items@.len(),
        forall|i: int, j: int| 0 <= i < j < order@.len() ==> order@[i] != order@[j],
    ensures
        out@.len() == order@.len(),
        forall|i: int| 0 <= i < out@.len() ==> #[trigger] out@[i] == items@[order@[i] as int],
{
    let ghost original = items@;
    let mut slots: Vec<Option<T>> = Vec::new();
    for item in it: items
        invariant
            it.seq() == original,
            slots@.len() == it.index(),
            forall|k: int| 0 <= k < slots@.len() ==> slots@[k] == Some(original[k]),
    {
        slots.push(Some(item));
    }
    let mut out: Vec<T> = Vec::new();
    for k in 0..order.len()
        invariant
            out@.len() == k,
            slots@.len() == original.len(),
            forall|i: int| 0 <= i < order@.len() ==> (#[trigger] order@[i]) < original.len(),
            forall|i: int, j: int| 0 <= i < j < order@.len() ==> order@[i] != order@[j],
            forall|i: int| 0 <= i < k ==> #[trigger] out@[i] == original[order@[i] as int],
            forall|i: int|
                k <= i < order@.len() ==> slots@[(#[trigger] order@[i]) as int] == Some(
                    original[order@[i] as int],
                ),
    {
        let slot = slots[order[k]].take();
        match slot {
            Some(item) => {
                out.push(item);
            },
            None => {
                assert(false);
            },
        }
    }
    out
}

/// Two stable orders of the same keys are the same list.
pub proof fn stable_order_is_unique(keys: Seq<SortKey>, a: Seq<usize>, b: Seq<usize>)
    requires
        is_stable_order(keys, 0, keys.len() as int, a),
        is_stable_order(keys, 0, keys.len() as int, b),
    ensures
        a == b,
{
    assert forall|k: int| 0 <= k < a.len() implies a[k] == b[k] by {
        prefix_agrees(keys, a, b, k);
    }
    assert(a =~= b);
}

proof fn prefix_agrees(keys: Seq<SortKey>, a: Seq<usize>, b: Seq<usize>, k: int)
    requires
        is_stable_order(keys, 0, keys.len() as int, a),
        is_stable_order(keys, 0, keys.len() as int, b),
        0 <= k < a.len(),
    ensures
        forall|i: int| 0 <= i <= k ==> a[i] == b[i],
    decreases k,
{
    if k > 0 {
        prefix_agrees(keys, a, b, k - 1);
    }
    if a[k] != b[k] {
        // Each list holds the other's k-th position, and neither can hold it earlier.
        assert(b.contains(a[k]));
        let i = choose|i: int| 0 <= i < b.len() && b[i] == a[k];
        assert(a.contains(b[k]));
        let j = choose|j: int| 0 <= j < a.len() && a[j] == b[k];
        if i < k {
            assert(a[i] == a[k]);
            assert(precedes(keys, a[i] as int, a[k] as int));
            assert(false);
        }
        if j < k {
            assert(b[j] == b[k]);
            assert(precedes(keys, b[j] as int, b[k] as int));
            assert(false);
        }
        assert(precedes(keys, a[k] as int, a[j] as int));
        assert(precedes(keys, b[k] as int, b[i] as int));
        assert(false);
    }
}

} // verus!
