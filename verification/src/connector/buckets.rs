//! Time buckets and the keys under which they are stored.
use std::collections::{BTreeMap, BTreeSet};
use vstd::prelude::*;

verus! {

use vstd::arithmetic::div_mod::{
    lemma_div_is_ordered, lemma_div_pos_is_pos, lemma_fundamental_div_mod,
    lemma_fundamental_div_mod_converse, lemma_mod_add_multiples_vanish, lemma_mod_multiples_basic,
};
use vstd::arithmetic::mul::{lemma_mul_inequality, lemma_mul_is_commutative, lemma_mul_nonnegative};

/// Version of the stored layout.
pub const CACHE_SCHEMA: u64 = 3;

pub const HOURLY_BUCKET_MS: u64 = 3_600_000;

pub const TRADE_BUCKET_MS: u64 = 60_000;

pub const MAX_RECORDS_PER_BUCKET: usize = 5_000_000;

/// The kinds of records that are cached in time buckets.
#[derive(Clone, Copy, Debug, PartialEq, Eq, Structural)]
pub enum CacheKind {
    Kline,
    Trade,
    OpenInterest,
    BubbleSummary,
}

impl CacheKind {
    pub open spec fn name(self) -> Seq<char> {
        match self {
            CacheKind::Kline => "kline"@,
            CacheKind::Trade => "trade"@,
            CacheKind::OpenInterest => "open_interest"@,
            CacheKind::BubbleSummary => "bubble_summary"@,
        }
    }

    pub open spec fn width(self) -> u64 {
        match self {
            CacheKind::Trade => TRADE_BUCKET_MS,
            _ => HOURLY_BUCKET_MS,
        }
    }

    pub fn label(self) -> (r: &'static str)
        ensures
            r@ == self.name(),
    {
        match self {
            CacheKind::Kline => "kline",
            CacheKind::Trade => "trade",
            CacheKind::OpenInterest => "open_interest",
            CacheKind::BubbleSummary => "bubble_summary",
        }
    }

    /// Raw trades are much denser than every other dataset, so their buckets span a
    /// minute; all others span an hour.
    pub fn bucket_ms(self) -> (r: u64)
        ensures
            r == self.width(),
    {
        match self {
            CacheKind::Trade => TRADE_BUCKET_MS,
            CacheKind::Kline | CacheKind::OpenInterest | CacheKind::BubbleSummary =>
                HOURLY_BUCKET_MS,
        }
    }
}

/// Whether `start` is the start of the bucket that holds the moment `t`.
pub open spec fn holds(kind: CacheKind, start: int, t: int) -> bool {
    start % (kind.width() as int) == 0 && start <= t < start + kind.width()
}

/// The start of the bucket that holds the moment `t`.
pub open spec fn bucket_of(kind: CacheKind, t: int) -> int {
    t / (kind.width() as int) * (kind.width() as int)
}

/// The start of the bucket that holds `timestamp`.
pub fn bucket_for(kind: CacheKind, timestamp: u64) -> (r: u64)
    ensures
        r == bucket_of(kind, timestamp as int),
        holds(kind, r as int, timestamp as int),
{
    let bucket_ms: u64 = kind.bucket_ms();
    proof {
        lemma_bucket_of_holds(kind, timestamp as int);
    }
    (timestamp / bucket_ms) * bucket_ms
}

/// A moment lies in its bucket, and the start of its bucket is a multiple of the width.
pub proof fn lemma_bucket_of_holds(kind: CacheKind, t: int)
    ensures
        holds(kind, bucket_of(kind, t), t),
        bucket_of(kind, t) % (kind.width() as int) == 0,
        t >= 0 ==> 0 <= bucket_of(kind, t) <= t,
{
    let width = kind.width() as int;
    lemma_fundamental_div_mod(t, width);
    lemma_mod_multiples_basic(t / width, width);
    lemma_mul_is_commutative(t / width, width);
    if t >= 0 {
        lemma_div_pos_is_pos(t, width);
        lemma_mul_nonnegative(t / width, width);
    }
}

/// A moment lies in one bucket only: the bucket of the moment is determined by holding it.
pub proof fn bucket_is_unique(kind: CacheKind, start: int, t: int)
    requires
        holds(kind, start, t),
    ensures
        start == bucket_of(kind, t),
{
    let width = kind.width() as int;
    lemma_fundamental_div_mod(start, width);
    lemma_mul_is_commutative(start / width, width);
    lemma_fundamental_div_mod_converse(t, width, start / width, t - start);
}

/// Whether the bucket that starts at `start` shares a moment with `[from, to_exclusive)`.
pub open spec fn touches(kind: CacheKind, start: int, from: int, to_exclusive: int) -> bool {
    &&& start % (kind.width() as int) == 0
    &&& from < to_exclusive
    &&& start < to_exclusive
    &&& from < start + kind.width()
}

/// The starts of the buckets that share a moment with `[from, to_exclusive)`.
pub open spec fn bucket_starts(kind: CacheKind, from: int, to_exclusive: int) -> Set<u64> {
    Set::new(|start: u64| touches(kind, start as int, from, to_exclusive))
}

/// Adds the start of every bucket that shares a moment with `[from, to_exclusive)`.
pub fn add_bucket_starts(
    kind: CacheKind,
    target: &mut BTreeSet<u64>,
    from: u64,
    to_exclusive: u64,
)
    ensures
        final(target)@ == old(target)@.union(
            bucket_starts(kind, from as int, to_exclusive as int),
        ),
{
    if from >= to_exclusive {
        assert(target@ =~= old(target)@.union(
            bucket_starts(kind, from as int, to_exclusive as int),
        ));
        return;
    }
    let bucket_ms: u64 = kind.bucket_ms();
    let first: u64 = bucket_for(kind, from);
    let last_bucket: u64 = bucket_for(kind, to_exclusive - 1);
    let mut bucket: u64 = first;
    proof {
        lemma_bucket_order(kind, from as int, to_exclusive - 1);
    }
    let ghost wanted = bucket_starts(kind, from as int, to_exclusive as int);
    proof {
        assert forall|b: u64| wanted.contains(b) implies b >= first by {
            if b < first {
                lemma_next_bucket(kind, b as int, first as int);
            }
        }
    }
    while bucket < last_bucket
        invariant
            from < to_exclusive,
            bucket_ms == kind.width(),
            first == bucket_of(kind, from as int),
            last_bucket == bucket_of(kind, to_exclusive - 1),
            first <= bucket <= last_bucket,
            bucket as int % (kind.width() as int) == 0,
            last_bucket as int % (kind.width() as int) == 0,
            holds(kind, first as int, from as int),
            holds(kind, last_bucket as int, to_exclusive - 1),
            wanted == bucket_starts(kind, from as int, to_exclusive as int),
            forall|b: u64| #[trigger]
                target@.contains(b) == (old(target)@.contains(b) || (wanted.contains(b) && b
                    < bucket)),
        decreases last_bucket - bucket,
    {
        let ghost before = target@;
        target.insert(bucket);
        proof {
            lemma_next_bucket(kind, bucket as int, last_bucket as int);
            assert forall|b: u64| #[trigger]
                target@.contains(b) == (old(target)@.contains(b) || (wanted.contains(b) && b < bucket
                    + bucket_ms)) by {
                assert(target@.contains(b) == (before.contains(b) || b == bucket));
                if wanted.contains(b) && bucket <= b < bucket + bucket_ms {
                    bucket_is_unique(kind, b as int, b as int);
                    bucket_is_unique(kind, bucket as int, b as int);
                }
            }
        }
        bucket = bucket + bucket_ms;
    }
    target.insert(bucket);
    proof {
        assert forall|b: u64| #[trigger]
            target@.contains(b) == old(target)@.union(wanted).contains(b) by {
            if wanted.contains(b) && b > bucket {
                bucket_is_unique(kind, bucket as int, to_exclusive - 1);
                lemma_next_bucket(kind, bucket as int, b as int);
            }
        }
        assert(target@ =~= old(target)@.union(wanted));
    }
}

proof fn lemma_next_bucket(kind: CacheKind, bucket: int, later: int)
    requires
        bucket < later,
        bucket % (kind.width() as int) == 0,
        later % (kind.width() as int) == 0,
    ensures
        bucket + kind.width() <= later,
        (bucket + kind.width()) % (kind.width() as int) == 0,
{
    let width = kind.width() as int;
    lemma_mod_add_multiples_vanish(bucket, width);
    if later < bucket + width {
        bucket_is_unique(kind, bucket, later);
        bucket_is_unique(kind, later, later);
    }
}

pub proof fn lemma_bucket_order(kind: CacheKind, a: int, b: int)
    requires
        a <= b,
    ensures
        bucket_of(kind, a) <= bucket_of(kind, b),
{
    let width = kind.width() as int;
    lemma_div_is_ordered(a, b, width);
    lemma_mul_inequality(a / width, b / width, width);
}

/// Gives every bucket that shares a moment with `[from, to_exclusive)` a place in
/// `target`, empty where it had none.
pub fn add_empty_buckets<T>(
    kind: CacheKind,
    target: &mut BTreeMap<u64, Vec<T>>,
    from: u64,
    to_exclusive: u64,
)
    ensures
        final(target)@.dom() == old(target)@.dom().union(
            bucket_starts(kind, from as int, to_exclusive as int),
        ),
        forall|b: u64| #[trigger]
            old(target)@.dom().contains(b) ==> final(target)@[b] == old(target)@[b],
        forall|b: u64|
            final(target)@.dom().contains(b) && !old(target)@.dom().contains(b)
                ==> (#[trigger] final(target)@[b])@ == Seq::<T>::empty(),
{
    let mut starts: BTreeSet<u64> = BTreeSet::new();
    add_bucket_starts(kind, &mut starts, from, to_exclusive);
    let ghost wanted = bucket_starts(kind, from as int, to_exclusive as int);
    let ghost initial = target@;
    let listed = ascending(&starts);
    assert(starts@ =~= wanted);
    for k in 0..listed.len()
        invariant
            initial == old(target)@,
            forall|b: u64| #[trigger]
                target@.dom().contains(b) == (initial.dom().contains(b) || exists|i: int|
                    0 <= i < k && #[trigger] listed@[i] == b),
            forall|b: u64| #[trigger]
                initial.dom().contains(b) ==> target@.dom().contains(b) && target@[b] == initial[b],
            forall|b: u64|
                target@.dom().contains(b) && !initial.dom().contains(b)
                    ==> (#[trigger] target@[b])@ == Seq::<T>::empty(),
    {
        let start: u64 = listed[k];
        if !target.contains_key(&start) {
            target.insert(start, Vec::new());
        }
    }
    proof {
        assert forall|b: u64| #[trigger]
            target@.dom().contains(b) == initial.dom().union(wanted).contains(b) by {
            assert(wanted.contains(b) == listed@.contains(b));
        }
        assert(target@.dom() =~= initial.dom().union(wanted));
    }
}

proof fn lemma_reference_order()
    ensures
        vstd::laws_cmp::obeys_cmp::<&u64>(),
{
    broadcast use vstd::laws_eq::group_laws_eq;
    reveal(vstd::laws_eq::obeys_eq_spec_properties);
    reveal(vstd::laws_cmp::obeys_partial_cmp_spec_properties);
    reveal(vstd::laws_cmp::obeys_cmp_partial_ord);
    reveal(vstd::laws_cmp::obeys_cmp_ord);
    assert(vstd::laws_eq::obeys_eq::<&u64>());
}

pub proof fn lemma_increasing(list: Seq<&u64>)
    requires
        vstd::std_specs::btree::increasing_seq(list),
    ensures
        forall|i: int, j: int| 0 <= i < j < list.len() ==> *list[i] < *list[j],
{
    lemma_reference_order();
    assert forall|i: int, j: int| 0 <= i < j < list.len() implies *list[i] < *list[j] by {
        assert(vstd::std_specs::cmp::OrdSpec::cmp_spec(&list[i], &list[j]) is Less);
    }
}

/// The members of a set in ascending order.
pub fn ascending(set: &BTreeSet<u64>) -> (list: Vec<u64>)
    ensures
        forall|b: u64| #[trigger] list@.contains(b) == set@.contains(b),
        forall|i: int, j: int| 0 <= i < j < list@.len() ==> list@[i] < list@[j],
{
    let mut list: Vec<u64> = Vec::new();
    for member in it: set.iter()
        invariant
            it.seq().unref().to_set() == set@,
            vstd::std_specs::btree::increasing_seq(it.seq()),
            list@.len() == it.index(),
            it.index() <= it.seq().len(),
            forall|i: int| 0 <= i < list@.len() ==> list@[i] == *it.seq()[i],
            forall|i: int, j: int| 0 <= i < j < list@.len() ==> list@[i] < list@[j],
            forall|i: int| 0 <= i < list@.len() ==> set@.contains(#[trigger] list@[i]),
            forall|b: u64| #[trigger]
                set@.contains(b) ==> list@.contains(b) || exists|k: int|
                    it.index() <= k < it.seq().len() && b == *(#[trigger] it.seq()[k]),
    {
        let ghost before = list@;
        list.push(*member);
        proof {
            lemma_increasing(it.seq());
            let index = it.index();
            assert(it.seq().unref()[index] == *it.seq()[index]);
            assert(it.seq().unref().to_set().contains(*it.seq()[index]));
            assert forall|b: u64| #[trigger] set@.contains(b) implies list@.contains(b)
                || exists|k: int|
                index + 1 <= k < it.seq().len() && b == *(#[trigger] it.seq()[k]) by {
                if before.contains(b) {
                    let k = choose|k: int| 0 <= k < before.len() && before[k] == b;
                    assert(list@[k] == b);
                } else if b == *member {
                    assert(list@[before.len() as int] == b);
                }
            }
        }
    }
    list
}

} // verus!
