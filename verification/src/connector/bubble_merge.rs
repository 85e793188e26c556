//! Merging the bubble summaries of overlapping fetches.
use vstd::prelude::*;
use crate::connector::records;
use crate::connector::records::{BubbleCandidate, BubbleVolumeSummary, BUBBLE_SUMMARY_ALGORITHM_VERSION};
use crate::order;
use crate::order::{stable_order, SortKey};
use crate::units::UnixMs;

verus! {

/// A cluster together with the candle whose summary listed it.
#[derive(Clone, Copy, Debug)]
pub struct Placed {
    pub candle_time: UnixMs,
    pub candidate: BubbleCandidate,
}

pub open spec fn placed_at(time: UnixMs, candidates: Seq<BubbleCandidate>) -> Seq<Placed> {
    candidates.map_values(|candidate: BubbleCandidate| Placed { candle_time: time, candidate })
}

/// All clusters of the summaries of the current version, in order.
pub open spec fn flattened(summaries: Seq<BubbleVolumeSummary>) -> Seq<Placed>
    decreases summaries.len(),
{
    if summaries.len() == 0 {
        seq![]
    } else {
        let head = flattened(summaries.drop_last());
        let last = summaries.last();
        if last.algorithm_version == BUBBLE_SUMMARY_ALGORITHM_VERSION {
            head + placed_at(last.candle_time, last.candidates@)
        } else {
            head
        }
    }
}

pub open spec fn same_cluster(a: Placed, b: Placed) -> bool {
    a.candle_time.ms == b.candle_time.ms && a.candidate.id == b.candidate.id
}

/// Whether `a` saw more of its cluster than `b`: more trades, or as many and a later one.
pub open spec fn more_complete(a: BubbleCandidate, b: BubbleCandidate) -> bool {
    a.trade_count > b.trade_count || (a.trade_count == b.trade_count && a.last_time.ms
        > b.last_time.ms)
}

/// Whether the entry at `i` stands for its cluster: none is more complete, and of those
/// as complete it is the first.
pub open spec fn is_winner(flat: Seq<Placed>, i: int) -> bool {
    forall|j: int|
        0 <= j < flat.len() && j != i && same_cluster(#[trigger] flat[j], flat[i])
            ==> !more_complete(flat[j].candidate, flat[i].candidate) && (j < i ==> more_complete(
            flat[i].candidate,
            flat[j].candidate,
        ))
}

/// Larger clusters come first, clusters of one size by ascending id.
pub open spec fn larger_first(a: BubbleCandidate, b: BubbleCandidate) -> bool {
    a.total_qty.units > b.total_qty.units || (a.total_qty.units == b.total_qty.units && a.id < b.id)
}

/// `out` is the summary of the clusters at one candle: the winners, larger ones first,
/// no more than `max`.
pub open spec fn is_candle_summary(
    flat: Seq<Placed>,
    max: usize,
    out: BubbleVolumeSummary,
) -> bool {
    &&& out.algorithm_version == BUBBLE_SUMMARY_ALGORITHM_VERSION
    &&& exists|at: Seq<usize>| #[trigger] is_candle_summary_at(flat, max, out, at)
}

pub open spec fn is_candle_summary_at(
    flat: Seq<Placed>,
    max: usize,
    out: BubbleVolumeSummary,
    at: Seq<usize>,
) -> bool {
    &&& at.len() > 0
    &&& forall|k: int|
        0 <= k < at.len() ==> (#[trigger] at[k]) < flat.len() && flat[at[k] as int].candle_time
            == out.candle_time && is_winner(flat, at[k] as int)
    &&& forall|a: int, b: int|
        0 <= a < b < at.len() ==> larger_first(
            flat[(#[trigger] at[a]) as int].candidate,
            flat[(#[trigger] at[b]) as int].candidate,
        )
    &&& forall|i: int|
        0 <= i < flat.len() && flat[i].candle_time == out.candle_time && #[trigger] is_winner(
            flat,
            i,
        ) ==> exists|k: int| 0 <= k < at.len() && at[k] == i
    &&& out.candidates@.len() == (if at.len() < max {
        at.len() as int
    } else {
        max as int
    })
    &&& forall|k: int|
        0 <= k < out.candidates@.len() ==> #[trigger] out.candidates@[k] == flat[at[k] as int].candidate
}

/// `out` is the merge of all clusters: one summary for each candle that has any, in
/// ascending order of time.
pub open spec fn is_merge(flat: Seq<Placed>, max: usize, out: Seq<BubbleVolumeSummary>) -> bool {
    &&& forall|i: int, j: int|
        0 <= i < j < out.len() ==> (#[trigger] out[i]).candle_time.ms < (
        #[trigger] out[j]).candle_time.ms
    &&& forall|i: int| 0 <= i < out.len() ==> is_candle_summary(flat, max, #[trigger] out[i])
    &&& forall|i: int|
        0 <= i < flat.len() ==> has_summary(out, (#[trigger] flat[i]).candle_time)
}

/// Whether the candle at `time` has a summary.
pub open spec fn has_summary(out: Seq<BubbleVolumeSummary>, time: UnixMs) -> bool {
    exists|k: int| 0 <= k < out.len() && (#[trigger] out[k]).candle_time == time
}

fn flatten(summaries: &Vec<BubbleVolumeSummary>) -> (flat: Vec<Placed>)
    ensures
        flat@ == flattened(summaries@),
{
    let mut flat: Vec<Placed> = Vec::new();
    let mut i: usize = 0;
    while i < summaries.len()
        invariant
            i <= summaries@.len(),
            flat@ == flattened(summaries@.take(i as int)),
        decreases summaries@.len() - i,
    {
        let summary: &BubbleVolumeSummary = &summaries[i];
        assert(summaries@.take(i + 1).drop_last() =~= summaries@.take(i as int));
        if summary.algorithm_version == BUBBLE_SUMMARY_ALGORITHM_VERSION {
            let ghost head = flat@;
            let mut k: usize = 0;
            while k < summary.candidates.len()
                invariant
                    k <= summary.candidates@.len(),
                    flat@ == head + placed_at(
                        summary.candle_time,
                        summary.candidates@.take(k as int),
                    ),
                decreases summary.candidates@.len() - k,
            {
                flat.push(
                    Placed {
                        candle_time: summary.candle_time,
                        candidate: summary.candidates[k],
                    },
                );
                k = k + 1;
                assert(flat@ =~= head + placed_at(
                    summary.candle_time,
                    summary.candidates@.take(k as int),
                ));
            }
            assert(summary.candidates@.take(summary.candidates@.len() as int)
                =~= summary.candidates@);
        }
        i = i + 1;
    }
    assert(summaries@.take(summaries@.len() as int) =~= summaries@);
    flat
}

pub open spec fn cluster_keys(flat: Seq<Placed>) -> Seq<SortKey> {
    flat.map_values(|p: Placed| (p.candle_time.ms, p.candidate.id as u128))
}

fn beats(a: &BubbleCandidate, b: &BubbleCandidate) -> (r: bool)
    ensures
        r == more_complete(*a, *b),
{
    a.trade_count > b.trade_count || (a.trade_count == b.trade_count && a.last_time.ms
        > b.last_time.ms)
}

/// Whether an entry of the list belongs to the cluster of the entry at `i`.
spec fn is_represented(flat: Seq<Placed>, list: Seq<usize>, i: int) -> bool {
    exists|k: int|
        0 <= k < list.len() && same_cluster(flat[(#[trigger] list[k]) as int], flat[i])
}

/// The best entry of the run of one cluster that was seen up to position `k`.
spec fn best_of_run(flat: Seq<Placed>, sorted: Seq<usize>, from: int, k: int, best: int) -> bool {
    &&& from <= best < k <= sorted.len()
    &&& forall|m: int|
        from <= m < k && m != best ==> !more_complete(
            flat[(#[trigger] sorted[m]) as int].candidate,
            flat[sorted[best] as int].candidate,
        ) && (m < best ==> more_complete(
            flat[sorted[best] as int].candidate,
            flat[sorted[m] as int].candidate,
        ))
}

/// One entry for each cluster.
fn winners(flat: &Vec<Placed>) -> (list: Vec<usize>)
    ensures
        forall|k: int|
            0 <= k < list@.len() ==> (#[trigger] list@[k]) < flat@.len() && is_winner(
                flat@,
                list@[k] as int,
            ),
        forall|i: int| 0 <= i < flat@.len() && #[trigger] is_winner(flat@, i) ==> list@.contains(
            i as usize,
        ),
        forall|i: int| 0 <= i < flat@.len() ==> #[trigger] is_represented(flat@, list@, i),
        forall|a: int, b: int|
            0 <= a < b < list@.len() ==> order::key_lt(
                cluster_keys(flat@)[(#[trigger] list@[a]) as int],
                cluster_keys(flat@)[(#[trigger] list@[b]) as int],
            ),
{
    let mut keys: Vec<SortKey> = Vec::new();
    for i in 0..flat.len()
        invariant
            keys@.len() == i,
            forall|k: int|
                0 <= k < i ==> #[trigger] keys@[k] == (
                    flat@[k].candle_time.ms,
                    flat@[k].candidate.id as u128,
                ),
    {
        keys.push((flat[i].candle_time.ms, flat[i].candidate.id as u128));
    }
    assert(keys@ =~= cluster_keys(flat@));
    let sorted = stable_order(&keys);
    let mut list: Vec<usize> = Vec::new();
    let mut k: usize = 0;
    while k < sorted.len()
        invariant
            k <= sorted@.len(),
            keys@ == cluster_keys(flat@),
            keys@.len() == flat@.len(),
            order::is_stable_order(keys@, 0, keys@.len() as int, sorted@),
            forall|i: int|
                0 <= i < list@.len() ==> (#[trigger] list@[i]) < flat@.len() && is_winner(
                    flat@,
                    list@[i] as int,
                ),
            forall|m: int|
                0 <= m < k && is_winner(flat@, (#[trigger] sorted@[m]) as int) ==> list@.contains(
                    sorted@[m],
                ),
            forall|m: int|
                0 <= m < k ==> is_represented(flat@, list@, (#[trigger] sorted@[m]) as int),
            forall|a: int, b: int|
                0 <= a < b < list@.len() ==> order::key_lt(
                    keys@[(#[trigger] list@[a]) as int],
                    keys@[(#[trigger] list@[b]) as int],
                ),
            forall|i: int, m: int|
                0 <= i < list@.len() && k <= m < sorted@.len() ==> order::key_lt(
                    keys@[(#[trigger] list@[i]) as int],
                    keys@[(#[trigger] sorted@[m]) as int],
                ),
        decreases sorted@.len() - k,
    {
        let from: usize = k;
        let key: SortKey = keys[sorted[from]];
        let mut best: usize = from;
        k = k + 1;
        while k < sorted.len() && keys[sorted[k]].0 == key.0 && keys[sorted[k]].1 == key.1
            invariant
                from < k <= sorted@.len(),
                keys@ == cluster_keys(flat@),
                keys@.len() == flat@.len(),
                order::is_stable_order(keys@, 0, keys@.len() as int, sorted@),
                forall|m: int| from <= m < k ==> keys@[(#[trigger] sorted@[m]) as int] == key,
                best_of_run(flat@, sorted@, from as int, k as int, best as int),
            decreases sorted@.len() - k,
        {
            if beats(&flat[sorted[k]].candidate, &flat[sorted[best]].candidate) {
                best = k;
            }
            k = k + 1;
        }
        let ghost before = list@;
        let chosen: usize = sorted[best];
        proof {
            lemma_run_winner(
                flat@,
                keys@,
                sorted@,
                from as int,
                k as int,
                best as int,
                key,
            );
        }
        list.push(chosen);
        proof {
            assert(list@[before.len() as int] == chosen);
            assert forall|m: int|
                0 <= m < k && is_winner(flat@, (#[trigger] sorted@[m]) as int) implies
                list@.contains(sorted@[m]) by {
                if m < from {
                    assert(before.contains(sorted@[m]));
                    let w = choose|w: int| 0 <= w < before.len() && before[w] == sorted@[m];
                    assert(list@[w] == sorted@[m]);
                } else {
                    assert(m == best);
                }
            }
            assert forall|m: int| 0 <= m < k implies is_represented(
                flat@,
                list@,
                (#[trigger] sorted@[m]) as int,
            ) by {
                if m < from {
                    assert(is_represented(flat@, before, sorted@[m] as int));
                    let i = choose|i: int|
                        0 <= i < before.len() && same_cluster(
                            flat@[(#[trigger] before[i]) as int],
                            flat@[sorted@[m] as int],
                        );
                    assert(list@[i] == before[i]);
                } else {
                    assert(keys@[sorted@[m] as int] == key);
                    assert(keys@[sorted@[best as int] as int] == key);
                    assert(same_cluster(
                        flat@[list@[before.len() as int] as int],
                        flat@[sorted@[m] as int],
                    ));
                }
            }
            assert forall|i: int, m: int|
                0 <= i < list@.len() && k <= m < sorted@.len() implies order::key_lt(
                keys@[(#[trigger] list@[i]) as int],
                keys@[(#[trigger] sorted@[m]) as int],
            ) by {
                if i == before.len() {
                    let last = k - 1;
                    assert(keys@[sorted@[last] as int] == key);
                    assert(order::precedes(
                        keys@,
                        sorted@[last] as int,
                        sorted@[k as int] as int,
                    ));
                    if m > k {
                        assert(order::precedes(
                            keys@,
                            sorted@[k as int] as int,
                            sorted@[m] as int,
                        ));
                    }
                    assert(keys@[sorted@[best as int] as int] == key);
                }
            }
        }
    }
    proof {
        assert forall|i: int| 0 <= i < flat@.len() && #[trigger] is_winner(flat@, i) implies
            list@.contains(i as usize) by {
            assert(sorted@.contains(i as usize));
            let m = choose|m: int| 0 <= m < sorted@.len() && sorted@[m] == i;
            assert(list@.contains(sorted@[m]));
        }
        assert forall|i: int| 0 <= i < flat@.len() implies #[trigger] is_represented(
            flat@,
            list@,
            i,
        ) by {
            assert(sorted@.contains(i as usize));
            let m = choose|m: int| 0 <= m < sorted@.len() && sorted@[m] == i;
            assert(is_represented(flat@, list@, sorted@[m] as int));
        }
    }
    list
}

/// The best entry of a run of equal keys is the winner of its cluster, and no other
/// entry of the run is.
proof fn lemma_run_winner(
    flat: Seq<Placed>,
    keys: Seq<SortKey>,
    sorted: Seq<usize>,
    from: int,
    k: int,
    best: int,
    key: SortKey,
)
    requires
        keys == cluster_keys(flat),
        flat.len() <= usize::MAX,
        order::is_stable_order(keys, 0, keys.len() as int, sorted),
        0 <= from,
        best_of_run(flat, sorted, from, k, best),
        forall|m: int| from <= m < k ==> keys[(#[trigger] sorted[m]) as int] == key,
        from > 0 ==> order::key_lt(keys[sorted[from - 1] as int], key),
        k < sorted.len() ==> keys[sorted[k] as int] != key,
    ensures
        is_winner(flat, sorted[best] as int),
        forall|m: int|
            from <= m < k && is_winner(flat, (#[trigger] sorted[m]) as int) ==> m == best,
{
    let b = sorted[best] as int;
    assert forall|j: int|
        0 <= j < flat.len() && j != b && same_cluster(#[trigger] flat[j], flat[b]) implies
        !more_complete(flat[j].candidate, flat[b].candidate) && (j < b ==> more_complete(
        flat[b].candidate,
        flat[j].candidate,
    )) by {
        assert(keys[j] == key) by {
            assert(keys[b] == key);
            assert(keys[j] == (flat[j].candle_time.ms, flat[j].candidate.id as u128));
            assert(keys[b] == (flat[b].candle_time.ms, flat[b].candidate.id as u128));
        }
        assert(sorted.contains(j as usize));
        let m = choose|m: int| 0 <= m < sorted.len() && sorted[m] == j;
        if m < from {
            if m < from - 1 {
                assert(order::precedes(keys, sorted[m] as int, sorted[from - 1] as int));
            }
            assert(false);
        }
        if m >= k {
            assert(keys[sorted[k - 1] as int] == key);
            assert(order::precedes(keys, sorted[k - 1] as int, sorted[k] as int));
            if m > k {
                assert(order::precedes(keys, sorted[k] as int, sorted[m] as int));
            }
            assert(false);
        }
        if m > best {
            assert(order::precedes(keys, sorted[best] as int, sorted[m] as int));
        } else {
            assert(order::precedes(keys, sorted[m] as int, sorted[best] as int));
        }
    }
    assert forall|m: int|
        from <= m < k && is_winner(flat, (#[trigger] sorted[m]) as int) implies m == best by {
        if m != best {
            let i = sorted[m] as int;
            assert(keys[i] == key && keys[b] == key);
            assert(keys[i] == (flat[i].candle_time.ms, flat[i].candidate.id as u128));
            assert(keys[b] == (flat[b].candle_time.ms, flat[b].candidate.id as u128));
            if m < best {
                assert(order::precedes(keys, sorted[m] as int, sorted[best] as int));
            } else {
                assert(order::precedes(keys, sorted[best] as int, sorted[m] as int));
            }
            assert(same_cluster(flat[b], flat[i]));
            assert(more_complete(flat[b].candidate, flat[i].candidate) || b < i);
            assert(false);
        }
    }
}

/// The position of a cluster among those of its candle: larger ones first, then by id.
pub open spec fn size_rank(candidate: BubbleCandidate) -> u128 {
    ((i64::MAX - candidate.total_qty.units) * 0x1_0000_0000_0000_0000 + candidate.id) as u128
}

fn rank(candidate: &BubbleCandidate) -> (r: u128)
    ensures
        r == size_rank(*candidate),
{
    let below_top: u128 = (i64::MAX as i128 - candidate.total_qty.units as i128) as u128;
    below_top * 0x1_0000_0000_0000_0000 + candidate.id as u128
}

proof fn lemma_rank_orders(a: BubbleCandidate, b: BubbleCandidate)
    ensures
        (size_rank(a) < size_rank(b)) == larger_first(a, b),
        size_rank(a) == size_rank(b) ==> a.id == b.id,
{
}

/// Merges summaries by cluster id. Of a cluster that overlapping fetches saw more than
/// once the most complete entry stays; entries are never summed. Each candle keeps its
/// largest clusters, at most `max_candidates_per_candle`.
pub fn merge_bubble_summaries(
    summaries: &Vec<BubbleVolumeSummary>,
    max_candidates_per_candle: usize,
) -> (out: Vec<BubbleVolumeSummary>)
    ensures
        is_merge(flattened(summaries@), max_candidates_per_candle, out@),
{
    let flat = flatten(summaries);
    let list = winners(&flat);
    let mut keys: Vec<SortKey> = Vec::new();
    for i in 0..list.len()
        invariant
            keys@.len() == i,
            forall|k: int| 0 <= k < list@.len() ==> (#[trigger] list@[k]) < flat@.len(),
            forall|k: int|
                0 <= k < i ==> #[trigger] keys@[k] == (
                    flat@[list@[k] as int].candle_time.ms,
                    size_rank(flat@[list@[k] as int].candidate),
                ),
    {
        let entry: Placed = flat[list[i]];
        keys.push((entry.candle_time.ms, rank(&entry.candidate)));
    }
    let sorted = stable_order(&keys);
    let mut out: Vec<BubbleVolumeSummary> = Vec::new();
    let mut k: usize = 0;
    let total: usize = flat.len();
    while k < sorted.len()
        invariant
            flat@.len() == total,
            k <= sorted@.len(),
            keys@.len() == list@.len(),
            order::is_stable_order(keys@, 0, keys@.len() as int, sorted@),
            forall|i: int|
                0 <= i < list@.len() ==> (#[trigger] list@[i]) < flat@.len() && is_winner(
                    flat@,
                    list@[i] as int,
                ),
            forall|i: int|
                0 <= i < flat@.len() && #[trigger] is_winner(flat@, i) ==> list@.contains(
                    i as usize,
                ),
            forall|a: int, b: int|
                0 <= a < b < list@.len() ==> order::key_lt(
                    cluster_keys(flat@)[(#[trigger] list@[a]) as int],
                    cluster_keys(flat@)[(#[trigger] list@[b]) as int],
                ),
            forall|i: int|
                0 <= i < keys@.len() ==> #[trigger] keys@[i] == (
                    flat@[list@[i] as int].candle_time.ms,
                    size_rank(flat@[list@[i] as int].candidate),
                ),
            forall|i: int, j: int|
                0 <= i < j < out@.len() ==> (#[trigger] out@[i]).candle_time.ms < (
                #[trigger] out@[j]).candle_time.ms,
            forall|i: int|
                0 <= i < out@.len() ==> is_candle_summary(
                    flat@,
                    max_candidates_per_candle,
                    #[trigger] out@[i],
                ),
            forall|i: int, m: int|
                0 <= i < out@.len() && k <= m < sorted@.len() ==> (
                #[trigger] out@[i]).candle_time.ms < keys@[(#[trigger] sorted@[m]) as int].0,
            forall|m: int|
                0 <= m < k ==> has_summary(
                    out@,
                    flat@[list@[(#[trigger] sorted@[m]) as int] as int].candle_time,
                ),
        decreases sorted@.len() - k,
    {
        let from: usize = k;
        let time: UnixMs = flat[list[sorted[from]]].candle_time;
        let mut candidates: Vec<BubbleCandidate> = Vec::new();
        let ghost mut at: Seq<usize> = seq![];
        while k < sorted.len() && keys[sorted[k]].0 == time.ms
            invariant
                from <= k <= sorted@.len(),
                from < sorted@.len(),
                keys@.len() == list@.len(),
                order::is_stable_order(keys@, 0, keys@.len() as int, sorted@),
                forall|i: int| 0 <= i < list@.len() ==> (#[trigger] list@[i]) < flat@.len(),
                forall|i: int|
                    0 <= i < keys@.len() ==> #[trigger] keys@[i] == (
                        flat@[list@[i] as int].candle_time.ms,
                        size_rank(flat@[list@[i] as int].candidate),
                    ),
                keys@[sorted@[from as int] as int].0 == time.ms,
                at.len() == k - from,
                forall|m: int|
                    0 <= m < at.len() ==> #[trigger] at[m] == list@[sorted@[from + m] as int]
                        && keys@[sorted@[from + m] as int].0 == time.ms,
                candidates@.len() == (if at.len() < max_candidates_per_candle {
                    at.len() as int
                } else {
                    max_candidates_per_candle as int
                }),
                forall|m: int|
                    0 <= m < candidates@.len() ==> #[trigger] candidates@[m]
                        == flat@[at[m] as int].candidate,
            decreases sorted@.len() - k,
        {
            let position: usize = list[sorted[k]];
            if candidates.len() < max_candidates_per_candle {
                candidates.push(flat[position].candidate);
            }
            proof {
                at = at.push(position);
            }
            k = k + 1;
        }
        let ghost before = out@;
        let summary = BubbleVolumeSummary::new(time, candidates);
        proof {
            lemma_candle_complete(
                flat@,
                list@,
                keys@,
                sorted@,
                from as int,
                k as int,
                max_candidates_per_candle,
                summary,
                at,
            );
        }
        out.push(summary);
        proof {
            assert(out@[before.len() as int] == summary);
            assert forall|i: int, m: int|
                0 <= i < out@.len() && k <= m < sorted@.len() implies (
            #[trigger] out@[i]).candle_time.ms < keys@[(#[trigger] sorted@[m]) as int].0 by {
                if i == before.len() {
                    assert(order::precedes(
                        keys@,
                        sorted@[from as int] as int,
                        sorted@[k as int] as int,
                    ));
                    if m > k {
                        assert(order::precedes(
                            keys@,
                            sorted@[k as int] as int,
                            sorted@[m] as int,
                        ));
                    }
                }
            }
            assert forall|m: int| 0 <= m < k implies has_summary(
                out@,
                flat@[list@[(#[trigger] sorted@[m]) as int] as int].candle_time,
            ) by {
                let t = flat@[list@[sorted@[m] as int] as int].candle_time;
                if m < from {
                    assert(has_summary(before, t));
                    let i = choose|i: int|
                        0 <= i < before.len() && (#[trigger] before[i]).candle_time == t;
                    assert(out@[i].candle_time == t);
                } else {
                    assert(at[m - from] == list@[sorted@[m] as int]);
                    assert(out@[before.len() as int].candle_time == t);
                }
            }
        }
    }
    proof {
        assert forall|i: int| 0 <= i < flat@.len() implies has_summary(
            out@,
            (#[trigger] flat@[i]).candle_time,
        ) by {
            assert(is_represented(flat@, list@, i));
            let w = choose|w: int|
                0 <= w < list@.len() && same_cluster(
                    flat@[(#[trigger] list@[w]) as int],
                    flat@[i],
                );
            assert(sorted@.contains(w as usize));
            let m = choose|m: int| 0 <= m < sorted@.len() && sorted@[m] == w;
            assert(has_summary(out@, flat@[list@[sorted@[m] as int] as int].candle_time));
        }
    }
    out
}

proof fn lemma_candle_complete(
    flat: Seq<Placed>,
    list: Seq<usize>,
    keys: Seq<SortKey>,
    sorted: Seq<usize>,
    from: int,
    k: int,
    max: usize,
    summary: BubbleVolumeSummary,
    at: Seq<usize>,
)
    requires
        0 <= from < k <= sorted.len(),
        keys.len() == list.len(),
        list.len() <= usize::MAX,
        flat.len() <= usize::MAX,
        order::is_stable_order(keys, 0, keys.len() as int, sorted),
        forall|i: int|
            0 <= i < list.len() ==> (#[trigger] list[i]) < flat.len() && is_winner(
                flat,
                list[i] as int,
            ),
        forall|i: int|
            0 <= i < flat.len() && #[trigger] is_winner(flat, i) ==> list.contains(i as usize),
        forall|a: int, b: int|
            0 <= a < b < list.len() ==> order::key_lt(
                cluster_keys(flat)[(#[trigger] list[a]) as int],
                cluster_keys(flat)[(#[trigger] list[b]) as int],
            ),
        forall|i: int|
            0 <= i < keys.len() ==> #[trigger] keys[i] == (
                flat[list[i] as int].candle_time.ms,
                size_rank(flat[list[i] as int].candidate),
            ),
        from > 0 ==> keys[sorted[from - 1] as int].0 < summary.candle_time.ms,
        k < sorted.len() ==> keys[sorted[k] as int].0 != summary.candle_time.ms,
        at.len() == k - from,
        forall|m: int|
            0 <= m < at.len() ==> #[trigger] at[m] == list[sorted[from + m] as int]
                && keys[sorted[from + m] as int].0 == summary.candle_time.ms,
        summary.algorithm_version == BUBBLE_SUMMARY_ALGORITHM_VERSION,
        summary.candidates@.len() == (if at.len() < max {
            at.len() as int
        } else {
            max as int
        }),
        forall|m: int|
            0 <= m < summary.candidates@.len() ==> #[trigger] summary.candidates@[m]
                == flat[at[m] as int].candidate,
    ensures
        is_candle_summary(flat, max, summary),
{
    assert forall|m: int| 0 <= m < at.len() implies (#[trigger] at[m]) < flat.len()
        && flat[at[m] as int].candle_time == summary.candle_time && is_winner(
        flat,
        at[m] as int,
    ) by {
        assert(at[m] == list[sorted[from + m] as int]);
        assert(keys[sorted[from + m] as int].0 == summary.candle_time.ms);
    }
    assert forall|a: int, b: int| 0 <= a < b < at.len() implies larger_first(
        flat[(#[trigger] at[a]) as int].candidate,
        flat[(#[trigger] at[b]) as int].candidate,
    ) by {
        let x = sorted[from + a] as int;
        let y = sorted[from + b] as int;
        assert(order::precedes(keys, sorted[from + a] as int, sorted[from + b] as int));
        lemma_rank_orders(flat[at[a] as int].candidate, flat[at[b] as int].candidate);
        if size_rank(flat[at[a] as int].candidate) == size_rank(flat[at[b] as int].candidate) {
            // Two entries of one candle with one id cannot both be listed.
            if x < y {
                assert(order::key_lt(
                    cluster_keys(flat)[list[x] as int],
                    cluster_keys(flat)[list[y] as int],
                ));
            } else {
                assert(x != y);
                assert(order::key_lt(
                    cluster_keys(flat)[list[y] as int],
                    cluster_keys(flat)[list[x] as int],
                ));
            }
        }
    }
    assert forall|i: int|
        0 <= i < flat.len() && flat[i].candle_time == summary.candle_time && #[trigger] is_winner(
            flat,
            i,
        ) implies exists|m: int| 0 <= m < at.len() && at[m] == i by {
        assert(list.contains(i as usize));
        let w = choose|w: int| 0 <= w < list.len() && list[w] == i;
        assert(sorted.contains(w as usize));
        let m = choose|m: int| 0 <= m < sorted.len() && sorted[m] == w;
        assert(keys[sorted[m] as int].0 == summary.candle_time.ms);
        if m < from {
            if m < from - 1 {
                assert(order::precedes(keys, sorted[m] as int, sorted[from - 1] as int));
            }
            assert(false);
        }
        if m >= k {
            assert(at[k - 1 - from] == list[sorted[k - 1] as int]);
            assert(keys[sorted[from + (k - 1 - from)] as int].0 == summary.candle_time.ms);
            assert(order::precedes(keys, sorted[k - 1] as int, sorted[k] as int));
            if m > k {
                assert(order::precedes(keys, sorted[k] as int, sorted[m] as int));
            }
            assert(false);
        }
        assert(at[m - from] == i);
    }
    assert(is_candle_summary_at(flat, max, summary, at));
}

} // verus!
