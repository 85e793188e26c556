//! What the choice of bubbles promises, stated on the clusters and candles themselves.
use vstd::prelude::*;
use crate::chart::kline::bubbles;
use crate::chart::kline::bubbles::{BubbleCandle, LabelCandidate, PlaceRank};
use crate::connector::records::BubbleCandidate;
use crate::order;
use crate::order::SortRank;
use crate::text;
use crate::units::Bits64;

verus! {

/// Raw trades count where they are wanted and there; a summary of version 2 counts where they
/// do not; nothing counts otherwise.
pub proof fn wanted_trades_come_first(candle: BubbleCandle, use_raw_trades: bool)
    ensures
        ({
            let clusters = bubbles::clusters_of(candle, use_raw_trades);
            let raw = use_raw_trades && candle.raw_trades > 0;
            let current = candle.summary.algorithm_version == 2;
            &&& raw ==> clusters == candle.raw_clusters@
            &&& !raw && current ==> clusters == candle.summary.candidates@
            &&& !raw && !current ==> clusters.len() == 0
        }),
{
}

/// The window that thresholds adapt to ends at the latest moment and is as many minutes long
/// as asked for, at least one, but does not begin before the epoch.
pub proof fn windows_are_as_long_as_asked(latest: u64, minutes: u64)
    ensures
        minutes >= 1 && minutes * 60_000 <= latest ==> bubbles::adaptive_start(latest, minutes)
            + minutes * 60_000 == latest,
        minutes * 60_000 > latest ==> bubbles::adaptive_start(latest, minutes) == 0,
        bubbles::adaptive_start(latest, 0) == bubbles::adaptive_start(latest, 1),
{
}

proof fn lemma_fold_push<A, B>(s: Seq<A>, a: A, b: B, f: spec_fn(B, A) -> B)
    ensures
        s.push(a).fold_left(b, f) == f(s.fold_left(b, f), a),
{
    assert(s.push(a).drop_last() =~= s);
}

/// The clusters of a range are those of its candles, one candle after the other.
pub proof fn ranges_hold_the_clusters_of_their_candles(
    candles: Seq<BubbleCandle>,
    from: u64,
    to: u64,
    use_raw_trades: bool,
)
    ensures
        bubbles::clusters_between(candles, from, to, use_raw_trades) == candles.filter(
            |candle: BubbleCandle| from <= candle.time.ms <= to,
        ).fold_left(
            Seq::<BubbleCandidate>::empty(),
            |all: Seq<BubbleCandidate>, candle: BubbleCandle|
                all + bubbles::clusters_of(candle, use_raw_trades),
        ),
    decreases candles.len(),
{
    reveal(Seq::filter);
    let inside = |candle: BubbleCandle| from <= candle.time.ms <= to;
    let join = |all: Seq<BubbleCandidate>, candle: BubbleCandle|
        all + bubbles::clusters_of(candle, use_raw_trades);
    if candles.len() > 0 {
        let front = candles.drop_last();
        ranges_hold_the_clusters_of_their_candles(front, from, to, use_raw_trades);
        lemma_fold_push(
            front.filter(inside),
            candles.last(),
            Seq::<BubbleCandidate>::empty(),
            join,
        );
    }
}

/// Bubbles are chosen from the visible candles and from those that thresholds adapt to. Where
/// nothing is visible or none may be shown there are none.
pub proof fn bubbles_come_from_visible_candles_and_the_window(
    candles: Seq<BubbleCandle>,
    earliest: u64,
    latest: u64,
    window_minutes: u64,
    use_raw_trades: bool,
    max_bubbles_per_bar: usize,
) -> (from: u64)
    ensures
        ({
            let found = bubbles::gathered(
                candles,
                earliest,
                latest,
                window_minutes,
                use_raw_trades,
                max_bubbles_per_bar,
            );
            &&& latest < earliest || max_bubbles_per_bar == 0 ==> found.len() == 0
            &&& earliest <= latest && max_bubbles_per_bar > 0 ==> found
                == bubbles::clusters_between(candles, from, latest, use_raw_trades)
            &&& from <= earliest
            &&& from <= bubbles::adaptive_start(latest, window_minutes)
            &&& from == earliest || from == bubbles::adaptive_start(latest, window_minutes)
        }),
{
    if earliest <= bubbles::adaptive_start(latest, window_minutes) {
        earliest
    } else {
        bubbles::adaptive_start(latest, window_minutes)
    }
}

/// Thresholds adapt to the clusters that traded in their window, in order.
pub proof fn thresholds_adapt_to_their_window(clusters: Seq<BubbleCandidate>, from: u64)
    ensures
        bubbles::in_baseline(clusters, from) == clusters.filter(
            |cluster: BubbleCandidate| cluster.last_time.ms >= from,
        ),
    decreases clusters.len(),
{
    reveal(Seq::filter);
    if clusters.len() > 0 {
        thresholds_adapt_to_their_window(clusters.drop_last(), from);
    }
}

/// Exactly the clusters of visible candles are shown whose quantity is at least the threshold
/// of the side that traded more, of equal sides that of the buyers, and in order: `at` names
/// them. Quantities and thresholds are figures at least zero.
pub proof fn large_clusters_are_shown(
    clusters: Seq<BubbleCandidate>,
    totals: Seq<Bits64>,
    earliest: u64,
    latest: u64,
    buy_threshold: Bits64,
    sell_threshold: Bits64,
) -> (at: Seq<int>)
    requires
        totals.len() >= clusters.len(),
        forall|i: int|
            0 <= i < totals.len() ==> (#[trigger] totals[i]).bits <= 0x7ff0_0000_0000_0000,
        buy_threshold.bits <= 0x7ff0_0000_0000_0000,
        sell_threshold.bits <= 0x7ff0_0000_0000_0000,
    ensures
        ({
            let shown = bubbles::shown_clusters(
                clusters,
                totals,
                earliest,
                latest,
                buy_threshold,
                sell_threshold,
            );
            &&& at.len() == shown.len()
            &&& forall|k: int|
                0 <= k < at.len() ==> 0 <= (#[trigger] at[k]) < clusters.len() && shown[k]
                    == clusters[at[k]]
            &&& forall|a: int, b: int|
                0 <= a < b < at.len() ==> (#[trigger] at[a]) < (#[trigger] at[b])
        }),
        forall|i: int|
            0 <= i < clusters.len() ==> (#[trigger] at.contains(i) <==> {
                &&& earliest <= clusters[i].candle_time.ms <= latest
                &&& clusters[i].buy_qty.units >= clusters[i].sell_qty.units ==> totals[i].bits
                    >= buy_threshold.bits
                &&& clusters[i].buy_qty.units < clusters[i].sell_qty.units ==> totals[i].bits
                    >= sell_threshold.bits
            }),
    decreases clusters.len(),
{
    if clusters.len() == 0 {
        seq![]
    } else {
        let front = clusters.drop_last();
        let last = clusters.len() - 1;
        let head = large_clusters_are_shown(
            front,
            totals,
            earliest,
            latest,
            buy_threshold,
            sell_threshold,
        );
        let before = bubbles::shown_clusters(
            front,
            totals,
            earliest,
            latest,
            buy_threshold,
            sell_threshold,
        );
        let all = bubbles::shown_clusters(
            clusters,
            totals,
            earliest,
            latest,
            buy_threshold,
            sell_threshold,
        );
        let taken = bubbles::is_shown(
            clusters[last],
            totals[last],
            earliest,
            latest,
            buy_threshold,
            sell_threshold,
        );
        let at = if taken {
            head.push(last)
        } else {
            head
        };
        assert forall|k: int| 0 <= k < at.len() implies 0 <= (#[trigger] at[k]) < clusters.len()
            && all[k] == clusters[at[k]] by {
            if k < head.len() {
                assert(at[k] == head[k]);
                assert(front[head[k]] == before[k]);
                assert(all[k] == before[k]);
            }
        }
        assert forall|i: int| 0 <= i < clusters.len() implies (#[trigger] at.contains(i) <==> {
            &&& earliest <= clusters[i].candle_time.ms <= latest
            &&& clusters[i].buy_qty.units >= clusters[i].sell_qty.units ==> totals[i].bits
                >= buy_threshold.bits
            &&& clusters[i].buy_qty.units < clusters[i].sell_qty.units ==> totals[i].bits
                >= sell_threshold.bits
        }) by {
            if i < last {
                assert(front[i] == clusters[i]);
                if head.contains(i) {
                    let k = choose|k: int| 0 <= k < head.len() && head[k] == i;
                    assert(at[k] == i);
                }
                if at.contains(i) {
                    let k = choose|k: int| 0 <= k < at.len() && at[k] == i;
                    assert(head[k] == i);
                }
            } else {
                if taken {
                    assert(at[at.len() - 1] == i);
                } else if at.contains(i) {
                    let k = choose|k: int| 0 <= k < at.len() && at[k] == i;
                    assert(0 <= head[k] < front.len());
                }
            }
        }
        at
    }
}

/// Bubbles are drawn by candle, of one candle by time, of one time by id, and none is lost.
pub proof fn bubbles_are_drawn_by_time(clusters: Seq<BubbleCandidate>, drawn: Seq<BubbleCandidate>)
    requires
        bubbles::is_sorted_by(clusters, bubbles::draw_ranks(clusters), drawn),
        clusters.len() <= usize::MAX,
    ensures
        drawn.len() == clusters.len(),
        forall|i: int| 0 <= i < clusters.len() ==> drawn.contains(#[trigger] clusters[i]),
        forall|a: int, b: int|
            0 <= a < b < drawn.len() ==> {
                let x = #[trigger] drawn[a];
                let y = #[trigger] drawn[b];
                &&& x.candle_time.ms <= y.candle_time.ms
                &&& x.candle_time.ms == y.candle_time.ms ==> x.weighted_time.ms
                    <= y.weighted_time.ms
                &&& x.candle_time.ms == y.candle_time.ms && x.weighted_time.ms
                    == y.weighted_time.ms ==> x.id <= y.id
            },
{
    let keys = bubbles::draw_ranks(clusters);
    let at = choose|at: Seq<usize>| #[trigger]
        order::is_ranked_order(keys, 0, keys.len() as int, at) && drawn.len() == at.len() && forall|
            k: int,
        |
            0 <= k < drawn.len() ==> #[trigger] drawn[k] == clusters[at[k] as int];
    assert forall|i: int| 0 <= i < clusters.len() implies drawn.contains(#[trigger] clusters[i]) by {
        assert(at.contains(i as usize));
        let k = choose|k: int| 0 <= k < at.len() && at[k] == i as usize;
        assert(drawn[k] == clusters[i]);
    }
    assert forall|a: int, b: int| 0 <= a < b < drawn.len() implies {
        let x = #[trigger] drawn[a];
        let y = #[trigger] drawn[b];
        &&& x.candle_time.ms <= y.candle_time.ms
        &&& x.candle_time.ms == y.candle_time.ms ==> x.weighted_time.ms <= y.weighted_time.ms
        &&& x.candle_time.ms == y.candle_time.ms && x.weighted_time.ms == y.weighted_time.ms
            ==> x.id <= y.id
    } by {
        assert(order::rank_precedes(keys, at[a] as int, at[b] as int));
        assert(keys[at[a] as int].candle_time == drawn[a].candle_time.ms);
        assert(keys[at[b] as int].candle_time == drawn[b].candle_time.ms);
    }
}

/// Bubbles are laid out from the most important to the least, of equal ones from the lower id
/// to the higher, and none is left out. Importances are figures at least zero.
pub proof fn important_bubbles_are_placed_first(clusters: Seq<BubbleCandidate>, at: Seq<usize>)
    requires
        order::is_ranked_order(bubbles::place_ranks(clusters), 0, clusters.len() as int, at),
        clusters.len() <= usize::MAX,
        forall|i: int|
            0 <= i < clusters.len() ==> (#[trigger] clusters[i]).importance_score.bits
                <= 0x7f80_0000,
    ensures
        at.len() == clusters.len(),
        forall|i: int| 0 <= i < clusters.len() ==> #[trigger] at.contains(i as usize),
        forall|a: int, b: int|
            0 <= a < b < at.len() ==> {
                let x = clusters[(#[trigger] at[a]) as int];
                let y = clusters[(#[trigger] at[b]) as int];
                &&& x.importance_score.bits >= y.importance_score.bits
                &&& x.importance_score.bits == y.importance_score.bits ==> x.id <= y.id
            },
{
    let keys = bubbles::place_ranks(clusters);
    assert forall|i: int| 0 <= i < clusters.len() implies #[trigger] at.contains(i as usize) by {
        assert(0 <= i as usize);
    }
    assert forall|a: int, b: int| 0 <= a < b < at.len() implies {
        let x = clusters[(#[trigger] at[a]) as int];
        let y = clusters[(#[trigger] at[b]) as int];
        &&& x.importance_score.bits >= y.importance_score.bits
        &&& x.importance_score.bits == y.importance_score.bits ==> x.id <= y.id
    } by {
        assert(order::rank_precedes(keys, at[a] as int, at[b] as int));
        let x = clusters[at[a] as int];
        let y = clusters[at[b] as int];
        assert(keys[at[a] as int] == PlaceRank { importance: x.importance_score, id: x.id });
        assert(keys[at[b] as int] == PlaceRank { importance: y.importance_score, id: y.id });
    }
}

/// A bubble takes the first offset that is free, and none where no offset is.
pub proof fn the_first_free_offset_is_taken(free: Seq<bool>)
    requires
        free.len() <= usize::MAX,
    ensures
        match bubbles::first_free(free) {
            Some(at) => at < free.len() && free[at as int] && forall|i: int|
                0 <= i < at ==> !#[trigger] free[i],
            None => forall|i: int| 0 <= i < free.len() ==> !#[trigger] free[i],
        },
    decreases free.len(),
{
    if free.len() > 0 {
        let front = free.drop_last();
        the_first_free_offset_is_taken(front);
        assert(forall|i: int| 0 <= i < front.len() ==> #[trigger] front[i] == free[i]);
        assert(free[free.len() - 1] == free.last());
        match bubbles::first_free(front) {
            Some(at) => {
                assert(front[at as int] == free[at as int]);
                assert forall|i: int| 0 <= i < at implies !#[trigger] free[i] by {
                    assert(front[i] == free[i]);
                }
            },
            None => {
                assert forall|i: int| 0 <= i < front.len() implies !#[trigger] free[i] by {
                    assert(front[i] == free[i]);
                }
            },
        }
    }
}

/// What decides over a label is the number of labels that are more important, or equally
/// important and further in front.
pub proof fn labels_are_ranked_by_importance(list: Seq<LabelCandidate>, i: int, n: int)
    requires
        0 <= n <= list.len(),
        0 <= i < list.len(),
        forall|j: int|
            0 <= j < list.len() ==> (#[trigger] list[j]).importance.bits <= 0x7f80_0000,
    ensures
        ({
            let ahead = vstd::set_lib::set_int_range(0, n).filter(
                |j: int|
                    list[j].labelled && (list[j].importance.bits > list[i].importance.bits || (
                    list[j].importance.bits == list[i].importance.bits && j < i)),
            );
            ahead.finite() && bubbles::labels_before(list, i, n) == ahead.len()
        }),
    decreases n,
{
    let counts = |j: int|
        list[j].labelled && (list[j].importance.bits > list[i].importance.bits || (
        list[j].importance.bits == list[i].importance.bits && j < i));
    let ahead = vstd::set_lib::set_int_range(0, n).filter(counts);
    vstd::set_lib::lemma_int_range(0, n);
    if n > 0 {
        labels_are_ranked_by_importance(list, i, n - 1);
        let before = vstd::set_lib::set_int_range(0, n - 1).filter(counts);
        assert(list[n - 1].importance.bits <= 0x7f80_0000);
        assert(list[i].importance.bits <= 0x7f80_0000);
        assert(bubbles::label_before(list, n - 1, i) == counts(n - 1));
        if counts(n - 1) {
            assert(ahead =~= before.insert(n - 1));
        } else {
            assert(ahead =~= before);
        }
    } else {
        assert(ahead =~= Set::<int>::empty());
    }
}

/// The unit of a symbol is what stands before the currency it is quoted in.
pub proof fn units_stand_before_the_currency(base: Seq<char>)
    requires
        base.len() > 0,
    ensures
        bubbles::base_of(base + "USDT"@, 0) == base,
        bubbles::base_of(base + "USDC"@, 0) == base,
        bubbles::base_of(base + "USD"@, 0) == base,
        bubbles::base_of(base + "BTC"@, 0) == base,
        bubbles::base_of(base + "ETH"@, 0) == base,
{
    lemma_base(base, 0);
    lemma_base(base, 1);
    lemma_base(base, 2);
    lemma_base(base, 3);
    lemma_base(base, 4);
}

proof fn lemma_base(base: Seq<char>, at: int)
    requires
        base.len() > 0,
        0 <= at < 5,
    ensures
        bubbles::base_of(base + bubbles::quote_currencies()[at], 0) == base,
{
    reveal_strlit("USDT");
    reveal_strlit("USDC");
    reveal_strlit("USD");
    reveal_strlit("BTC");
    reveal_strlit("ETH");
    reveal_with_fuel(bubbles::base_of, 6);
    let list = bubbles::quote_currencies();
    let symbol = base + list[at];
    let n = symbol.len() as int;
    assert forall|i: int| 0 <= i < at implies !text::ends_in(
        symbol,
        #[trigger] list[i],
    ) by {
        let other = list[i];
        if text::ends_in(symbol, other) {
            let k = other.len() as int;
            let m = list[at].len() as int;
            assert(symbol[n - 1] == list[at][m - 1]);
            assert(symbol[n - 2] == list[at][m - 2]);
            assert(symbol[n - 3] == list[at][m - 3]);
            assert(symbol[n - 1] == other[k - 1]);
            assert(symbol[n - 2] == other[k - 2]);
            assert(symbol[n - 3] == other[k - 3]);
        }
    }
    assert(text::ends_in(symbol, list[at])) by {
        assert(symbol.skip(n - list[at].len()) =~= list[at]);
    }
    assert(symbol.take(n - list[at].len()) =~= base);
}

/// The dominant bubble is at least as important as every other, and of equally important ones
/// none has a lower id. Importances are figures at least zero.
pub proof fn the_dominant_bubble_is_most_important(hits: Seq<PlaceRank>, i: int, j: int)
    requires
        bubbles::is_dominant(hits, i),
        0 <= j < hits.len(),
        hits[i].importance.bits <= 0x7f80_0000,
        hits[j].importance.bits <= 0x7f80_0000,
    ensures
        hits[j].importance.bits <= hits[i].importance.bits,
        hits[j].importance.bits == hits[i].importance.bits ==> hits[j].id >= hits[i].id,
        hits[j].importance.bits == hits[i].importance.bits && hits[j].id == hits[i].id ==> j <= i,
{
    assert(!hits[j].before(&hits[i]));
}

/// A response is judged as many seconds after a cluster as the horizon has, by the first
/// candle from that moment on.
pub proof fn responses_are_judged_after_the_horizon(last_time: u64, horizon: u32, times: Seq<u64>)
    requires
        times.len() <= usize::MAX,
    ensures
        last_time + 1_000 * horizon <= 0xffff_ffff_ffff_ffff ==> bubbles::response_moment(
            last_time,
            horizon,
        ) - last_time == 1_000 * horizon,
        ({
            let target = bubbles::response_moment(last_time, horizon);
            match bubbles::first_from(times, target) {
                Some(at) => at < times.len() && times[at as int] >= target && forall|i: int|
                    0 <= i < at ==> #[trigger] times[i] < target,
                None => forall|i: int| 0 <= i < times.len() ==> #[trigger] times[i] < target,
            }
        }),
{
    lemma_first_from(times, bubbles::response_moment(last_time, horizon));
}

proof fn lemma_first_from(times: Seq<u64>, target: u64)
    requires
        times.len() <= usize::MAX,
    ensures
        match bubbles::first_from(times, target) {
            Some(at) => at < times.len() && times[at as int] >= target && forall|i: int|
                0 <= i < at ==> #[trigger] times[i] < target,
            None => forall|i: int| 0 <= i < times.len() ==> #[trigger] times[i] < target,
        },
    decreases times.len(),
{
    if times.len() > 0 {
        let front = times.drop_last();
        lemma_first_from(front, target);
        assert(times[times.len() - 1] == times.last());
        assert forall|i: int| 0 <= i < front.len() implies #[trigger] times[i] == front[i] by {}
        match bubbles::first_from(front, target) {
            Some(at) => {
                assert forall|i: int| 0 <= i < at implies #[trigger] times[i] < target by {
                    assert(front[i] < target);
                }
            },
            None => {
                assert forall|i: int| 0 <= i < front.len() implies #[trigger] times[i] < target by {
                    assert(front[i] < target);
                }
            },
        }
    }
}

} // verus!
