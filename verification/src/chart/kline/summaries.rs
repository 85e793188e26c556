//! Bubble summaries from the trades that a chart holds: the trades of a range by candle, and
//! of the clusters of each candle the largest.
use vstd::prelude::*;
use rustc_hash::FxHashMap;
use crate::chart::kline::market::KlineChart;
use crate::chart::kline::trades;
use crate::chart::kline::trades::floor_to;
use crate::connector::records::{
    BubbleCandidate, BubbleVolumeSummary, Trade, BUBBLE_SUMMARY_ALGORITHM_VERSION,
};
use crate::fx;
use crate::order;
use crate::order::{select_in_order, stable_order, SortKey};
use crate::units::{Timeframe, UnixMs};

verus! {

/// The trades of one candle.
#[derive(Debug)]
pub struct CandleTrades {
    pub candle_time: UnixMs,
    pub trades: Vec<Trade>,
}

/// The clusters that were found among the trades of one candle.
#[derive(Debug)]
pub struct CandleClusters {
    pub candle_time: UnixMs,
    pub candidates: Vec<BubbleCandidate>,
}

/// The trades from `from` to `to`, both included, in order.
pub open spec fn in_range(trades: Seq<Trade>, from: UnixMs, to: UnixMs) -> Seq<Trade> {
    trades.filter(|trade: Trade| from.ms <= trade.time.ms <= to.ms)
}

/// Whether the candle at `time` has an entry.
pub open spec fn has_candle(groups: Seq<CandleTrades>, time: u64) -> bool {
    exists|k: int| 0 <= k < groups.len() && (#[trigger] groups[k]).candle_time.ms == time
}

/// Each group holds the trades of its candle, in order, and no candle of a trade lacks its
/// group.
pub open spec fn is_partition(trades: Seq<Trade>, interval: Timeframe, groups: Seq<CandleTrades>) -> bool {
    &&& forall|k: int|
        0 <= k < groups.len() ==> (#[trigger] groups[k]).trades@.len() > 0 && groups[k].trades@
            == trades::of_bucket(trades, groups[k].candle_time.ms, interval)
    &&& forall|i: int|
        0 <= i < trades.len() ==> has_candle(
            groups,
            trades::bucket_start((#[trigger] trades[i]).time.ms, interval),
        )
}

/// The groups are in ascending order of their candles.
pub open spec fn is_ascending(groups: Seq<CandleTrades>) -> bool {
    forall|i: int, j: int|
        0 <= i < j < groups.len() ==> (#[trigger] groups[i]).candle_time.ms < (
        #[trigger] groups[j]).candle_time.ms
}

/// Where the group of each candle stands.
spec fn is_index(groups: Seq<CandleTrades>, places: Map<u64, usize>) -> bool {
    &&& forall|time: u64| #[trigger]
        places.dom().contains(time) ==> places[time] < groups.len()
            && groups[places[time] as int].candle_time.ms == time
    &&& forall|k: int|
        0 <= k < groups.len() ==> places.dom().contains((#[trigger] groups[k]).candle_time.ms)
            && places[groups[k].candle_time.ms] == k
}

/// The trades of one more candle are those before it and, if it is its own, the last one.
proof fn lemma_of_bucket_step(trades: Seq<Trade>, added: Trade, bucket: u64, interval: Timeframe)
    ensures
        trades::of_bucket(trades.push(added), bucket, interval) == (if trades::bucket_start(
            added.time.ms,
            interval,
        ) == bucket {
            trades::of_bucket(trades, bucket, interval).push(added)
        } else {
            trades::of_bucket(trades, bucket, interval)
        }),
{
    assert(trades.push(added).drop_last() =~= trades);
}

/// A candle without a group has no trade.
proof fn lemma_no_trades(
    trades: Seq<Trade>,
    interval: Timeframe,
    groups: Seq<CandleTrades>,
    bucket: u64,
)
    requires
        forall|i: int|
            0 <= i < trades.len() ==> has_candle(
                groups,
                trades::bucket_start((#[trigger] trades[i]).time.ms, interval),
            ),
        !has_candle(groups, bucket),
    ensures
        trades::of_bucket(trades, bucket, interval) == Seq::<Trade>::empty(),
    decreases trades.len(),
{
    if trades.len() > 0 {
        let last = trades[trades.len() - 1];
        assert(has_candle(groups, trades::bucket_start(last.time.ms, interval)));
        assert forall|i: int| 0 <= i < trades.drop_last().len() implies has_candle(
            groups,
            trades::bucket_start((#[trigger] trades.drop_last()[i]).time.ms, interval),
        ) by {
            assert(trades.drop_last()[i] == trades[i]);
        }
        lemma_no_trades(trades.drop_last(), interval, groups, bucket);
    }
}

fn partition(trades: &Vec<Trade>, from: UnixMs, to: UnixMs, interval: Timeframe) -> (r: Vec<CandleTrades>)
    ensures
        is_partition(in_range(trades@, from, to), interval, r@),
        forall|i: int, j: int|
            0 <= i < j < r@.len() ==> (#[trigger] r@[i]).candle_time.ms != (
            #[trigger] r@[j]).candle_time.ms,
{
    let mut groups: Vec<CandleTrades> = Vec::new();
    let mut places: FxHashMap<u64, usize> = fx::new_map();
    let mut n: usize = 0;
    let ghost wanted = |trade: Trade| from.ms <= trade.time.ms <= to.ms;
    let ghost mut seen = in_range(trades@.take(0), from, to);
    proof {
        reveal(Seq::filter);
    }
    while n < trades.len()
        invariant
            n <= trades@.len(),
            seen == in_range(trades@.take(n as int), from, to),
            is_partition(seen, interval, groups@),
            is_index(groups@, places@),
        decreases trades@.len() - n,
    {
        let trade: Trade = trades[n];
        proof {
            reveal(Seq::filter);
            assert(trades@.take(n + 1).drop_last() =~= trades@.take(n as int));
            assert(trades@.take(n + 1).last() == trade);
        }
        n = n + 1;
        if from.ms <= trade.time.ms && trade.time.ms <= to.ms {
            let bucket: u64 = floor_to(trade.time, interval);
            let ghost before = groups@;
            let ghost earlier = seen;
            let place: Option<usize> = match fx::get(&places, bucket) {
                Some(place) => Some(*place),
                None => None,
            };
            match place {
                Some(place) => {
                    groups[place].trades.push(trade);
                },
                None => {
                    fx::insert(&mut places, bucket, groups.len());
                    let mut first: Vec<Trade> = Vec::new();
                    first.push(trade);
                    groups.push(CandleTrades { candle_time: UnixMs::new(bucket), trades: first });
                    proof {
                        assert(!has_candle(before, bucket));
                        lemma_no_trades(earlier, interval, before, bucket);
                        assert(first@ =~= trades::of_bucket(earlier, bucket, interval).push(trade));
                    }
                },
            }
            proof {
                seen = earlier.push(trade);
                assert(seen == in_range(trades@.take(n as int), from, to));
                assert forall|k: int| 0 <= k < groups@.len() implies (
                #[trigger] groups@[k]).trades@.len() > 0 && groups@[k].trades@
                    == trades::of_bucket(seen, groups@[k].candle_time.ms, interval) by {
                    lemma_of_bucket_step(earlier, trade, groups@[k].candle_time.ms, interval);
                    if k < before.len() {
                        assert(before[k].candle_time == groups@[k].candle_time);
                    }
                }
                assert forall|i: int| 0 <= i < seen.len() implies has_candle(
                    groups@,
                    trades::bucket_start((#[trigger] seen[i]).time.ms, interval),
                ) by {
                    if i < earlier.len() {
                        let time = trades::bucket_start(earlier[i].time.ms, interval);
                        assert(has_candle(before, time));
                        let k = choose|k: int|
                            0 <= k < before.len() && (#[trigger] before[k]).candle_time.ms == time;
                        assert(groups@[k].candle_time.ms == time);
                    } else {
                        let k = places@[bucket] as int;
                        assert(groups@[k].candle_time.ms == bucket);
                    }
                }
            }
        }
    }
    assert(trades@.take(trades@.len() as int) =~= trades@);
    groups
}

/// The trades from `from` to `to` by candle, in ascending order of the candles.
pub fn trades_by_candle(trades: &Vec<Trade>, from: UnixMs, to: UnixMs, interval: Timeframe) -> (r: Vec<
    CandleTrades,
>)
    ensures
        is_partition(in_range(trades@, from, to), interval, r@),
        is_ascending(r@),
{
    let groups = partition(trades, from, to, interval);
    let ghost unsorted = groups@;
    let mut keys: Vec<SortKey> = Vec::new();
    for k in 0..groups.len()
        invariant
            keys@.len() == k,
            forall|i: int|
                0 <= i < k ==> #[trigger] keys@[i] == (groups@[i].candle_time.ms, 0u128),
    {
        keys.push((groups[k].candle_time.ms, 0));
    }
    let sorted = stable_order(&keys);
    proof {
        assert forall|i: int, j: int| 0 <= i < j < sorted@.len() implies sorted@[i] != sorted@[j] by {
            assert(order::precedes(keys@, sorted@[i] as int, sorted@[j] as int));
        }
    }
    let r = select_in_order(groups, &sorted);
    proof {
        assert forall|i: int, j: int| 0 <= i < j < r@.len() implies (
        #[trigger] r@[i]).candle_time.ms < (#[trigger] r@[j]).candle_time.ms by {
            let a = sorted@[i] as int;
            let b = sorted@[j] as int;
            assert(order::precedes(keys@, a, b));
            assert(keys@[a] == (unsorted[a].candle_time.ms, 0u128));
            assert(keys@[b] == (unsorted[b].candle_time.ms, 0u128));
            if a < b {
                assert(unsorted[a].candle_time.ms != unsorted[b].candle_time.ms);
            } else {
                assert(unsorted[b].candle_time.ms != unsorted[a].candle_time.ms);
            }
        }
        let kept = in_range(trades@, from, to);
        assert forall|i: int| 0 <= i < kept.len() implies has_candle(
            r@,
            trades::bucket_start((#[trigger] kept[i]).time.ms, interval),
        ) by {
            let time = trades::bucket_start(kept[i].time.ms, interval);
            assert(has_candle(unsorted, time));
            let k = choose|k: int|
                0 <= k < unsorted.len() && (#[trigger] unsorted[k]).candle_time.ms == time;
            assert(sorted@.contains(k as usize));
            let at = choose|at: int| 0 <= at < sorted@.len() && sorted@[at] == k as usize;
            assert(r@[at] == unsorted[k]);
        }
    }
    r
}

/// What clusters are sorted by: larger ones come first.
pub open spec fn size_keys(candidates: Seq<BubbleCandidate>) -> Seq<SortKey> {
    candidates.map_values(
        |candidate: BubbleCandidate| ((i64::MAX - candidate.total_qty.units) as u64, 0u128),
    )
}

/// `kept` are the `max` largest of the clusters, larger ones first, and of those of one size
/// the earlier first.
pub open spec fn are_largest(
    candidates: Seq<BubbleCandidate>,
    max: usize,
    kept: Seq<BubbleCandidate>,
) -> bool {
    exists|at: Seq<usize>| #[trigger] are_largest_at(candidates, max, kept, at)
}

pub open spec fn are_largest_at(
    candidates: Seq<BubbleCandidate>,
    max: usize,
    kept: Seq<BubbleCandidate>,
    at: Seq<usize>,
) -> bool {
    &&& order::is_stable_order(size_keys(candidates), 0, candidates.len() as int, at)
    &&& kept.len() == (if candidates.len() < max {
        candidates.len() as int
    } else {
        max as int
    })
    &&& forall|k: int| 0 <= k < kept.len() ==> #[trigger] kept[k] == candidates[at[k] as int]
}

fn largest(candidates: &Vec<BubbleCandidate>, max: usize) -> (r: Vec<BubbleCandidate>)
    ensures
        are_largest(candidates@, max, r@),
{
    let mut keys: Vec<SortKey> = Vec::new();
    for k in 0..candidates.len()
        invariant
            keys@ == size_keys(candidates@.take(k as int)),
    {
        let below_top: u64 = (i64::MAX as i128 - candidates[k].total_qty.units as i128) as u64;
        keys.push((below_top, 0));
        assert(keys@ =~= size_keys(candidates@.take(k + 1)));
    }
    assert(candidates@.take(candidates@.len() as int) =~= candidates@);
    let sorted = stable_order(&keys);
    let mut r: Vec<BubbleCandidate> = Vec::new();
    while r.len() < max && r.len() < sorted.len()
        invariant
            r@.len() <= max,
            r@.len() <= sorted@.len(),
            sorted@.len() == candidates@.len(),
            forall|k: int| 0 <= k < sorted@.len() ==> (#[trigger] sorted@[k]) < candidates@.len(),
            forall|k: int|
                0 <= k < r@.len() ==> #[trigger] r@[k] == candidates@[sorted@[k] as int],
        decreases sorted@.len() - r@.len(),
    {
        r.push(candidates[sorted[r.len()]]);
    }
    assert(are_largest_at(candidates@, max, r@, sorted@));
    r
}

/// `summary` is that of the clusters of its candle.
pub open spec fn is_summary(clusters: CandleClusters, max: usize, summary: BubbleVolumeSummary) -> bool {
    &&& summary.candle_time == clusters.candle_time
    &&& summary.algorithm_version == BUBBLE_SUMMARY_ALGORITHM_VERSION
    &&& are_largest(clusters.candidates@, max, summary.candidates@)
}

/// The summaries of the clusters of each candle, in order.
pub fn summarize(clusters: &Vec<CandleClusters>, max: usize) -> (r: Vec<BubbleVolumeSummary>)
    ensures
        r@.len() == clusters@.len(),
        forall|k: int|
            0 <= k < r@.len() ==> is_summary(clusters@[k], max, #[trigger] r@[k]),
{
    let mut r: Vec<BubbleVolumeSummary> = Vec::new();
    for k in 0..clusters.len()
        invariant
            r@.len() == k,
            forall|i: int|
                0 <= i < r@.len() ==> is_summary(clusters@[i], max, #[trigger] r@[i]),
    {
        let kept = largest(&clusters[k].candidates, max);
        r.push(BubbleVolumeSummary::new(clusters[k].candle_time, kept));
    }
    r
}

impl KlineChart {
    /// The trades that the chart holds from `from` to `to`, by candle.
    pub fn bubble_trades(&self, from: UnixMs, to: UnixMs, interval: Timeframe) -> (r: Vec<
        CandleTrades,
    >)
        ensures
            is_partition(in_range(self@.raw_trades, from, to), interval, r@),
            is_ascending(r@),
    {
        trades_by_candle(self.raw_trades(), from, to, interval)
    }

    /// The summaries of clustered trades, with as many clusters per candle as the settings
    /// ask for.
    pub fn bubble_summaries(&self, clusters: &Vec<CandleClusters>) -> (r: Vec<BubbleVolumeSummary>)
        ensures
            r@.len() == clusters@.len(),
            forall|k: int|
                0 <= k < r@.len() ==> is_summary(
                    clusters@[k],
                    self@.config.volume_bubbles.candidates(),
                    #[trigger] r@[k],
                ),
    {
        summarize(clusters, self.visual_config().volume_bubbles.candidate_limit())
    }
}

/// A held trade of the range is in exactly one group, that of its candle.
pub proof fn a_trade_has_one_candle(
    trades: Seq<Trade>,
    interval: Timeframe,
    groups: Seq<CandleTrades>,
    i: int,
)
    requires
        is_partition(trades, interval, groups),
        is_ascending(groups),
        0 <= i < trades.len(),
    ensures
        exists|k: int| #![trigger groups[k]]
            0 <= k < groups.len() && groups[k].trades@.contains(trades[i]) && forall|j: int|
                0 <= j < groups.len() && (#[trigger] groups[j]).trades@.contains(trades[i]) ==> j
                    == k,
{
    let time = trades::bucket_start(trades[i].time.ms, interval);
    assert(has_candle(groups, time));
    let k = choose|k: int|
        0 <= k < groups.len() && (#[trigger] groups[k]).candle_time.ms == time;
    lemma_of_bucket_members(trades, time, interval);
    assert(groups[k].trades@.contains(trades[i]));
    assert forall|j: int|
        0 <= j < groups.len() && (#[trigger] groups[j]).trades@.contains(trades[i]) implies j == k by {
        lemma_of_bucket_members(trades, groups[j].candle_time.ms, interval);
        assert(groups[j].candle_time.ms == time);
        if j < k {
            assert(groups[j].candle_time.ms < groups[k].candle_time.ms);
        }
        if k < j {
            assert(groups[k].candle_time.ms < groups[j].candle_time.ms);
        }
    }
}

/// The trades of a candle are those of all trades that lie in it.
proof fn lemma_of_bucket_members(trades: Seq<Trade>, bucket: u64, interval: Timeframe)
    ensures
        forall|trade: Trade| #[trigger]
            trades::of_bucket(trades, bucket, interval).contains(trade) ==> trades::bucket_start(
                trade.time.ms,
                interval,
            ) == bucket,
        forall|i: int|
            0 <= i < trades.len() && trades::bucket_start((#[trigger] trades[i]).time.ms, interval)
                == bucket ==> trades::of_bucket(trades, bucket, interval).contains(trades[i]),
    decreases trades.len(),
{
    if trades.len() > 0 {
        let head = trades.drop_last();
        lemma_of_bucket_members(head, bucket, interval);
        let part = trades::of_bucket(head, bucket, interval);
        let all = trades::of_bucket(trades, bucket, interval);
        assert forall|i: int|
            0 <= i < trades.len() && trades::bucket_start((#[trigger] trades[i]).time.ms, interval)
                == bucket implies all.contains(trades[i]) by {
            if i < head.len() {
                assert(head[i] == trades[i]);
                let k = choose|k: int| 0 <= k < part.len() && part[k] == trades[i];
                assert(all[k] == trades[i]);
            } else {
                assert(all[all.len() - 1] == trades[i]);
            }
        }
        assert forall|trade: Trade| #[trigger] all.contains(trade) implies trades::bucket_start(
            trade.time.ms,
            interval,
        ) == bucket by {
            let k = choose|k: int| 0 <= k < all.len() && all[k] == trade;
            if k < part.len() {
                assert(part[k] == trade);
                assert(part.contains(trade));
            }
        }
    }
}

} // verus!
