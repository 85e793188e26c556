//! What the store of past market data promises, stated on moments, records and places.
use vstd::prelude::*;
use crate::connector::buckets;
use crate::connector::buckets::CacheKind;
use crate::connector::cache_store;
use crate::connector::cache_store::SkipReason;
use crate::connector::frame;
use crate::connector::gex_history;
use crate::connector::gex_history::{SnapshotEntry, SnapshotRef};
use crate::connector::keys;
use crate::connector::kline_integrity;
use crate::connector::persistent_cache;
use crate::connector::persistent_cache::{FetchedBucket, InvalidReason};
use crate::connector::records;
use crate::connector::records::{BubbleCandidate, CacheRecord, Kline, OpenInterest, Timed, Trade};
use crate::text;
use crate::unit_laws;
use crate::units::{Bits32, UnixMs, Volume};

verus! {

/// Trades are kept by the minute, all else by the hour: a bucket starts at the last full one.
pub proof fn buckets_start_on_the_minute_or_the_hour(kind: CacheKind, t: int)
    requires
        t >= 0,
    ensures
        buckets::bucket_of(CacheKind::Trade, t) == t - t % 60_000,
        kind != CacheKind::Trade ==> buckets::bucket_of(kind, t) == t - t % 3_600_000,
{
    lemma_rounded_down(CacheKind::Trade, t, 60_000);
    if kind != CacheKind::Trade {
        lemma_rounded_down(kind, t, 3_600_000);
    }
}

proof fn lemma_rounded_down(kind: CacheKind, t: int, width: int)
    requires
        kind.width() == width,
        width > 0,
    ensures
        buckets::bucket_of(kind, t) == t - t % width,
{
    vstd::arithmetic::div_mod::lemma_fundamental_div_mod(t, width);
    vstd::arithmetic::mul::lemma_mul_is_commutative(t / width, width);
}

/// A bucket is touched by a range exactly where it starts on its raster and one of its moments
/// lies in the range.
pub proof fn touched_buckets_share_a_moment(start: int, from: int, to_exclusive: int, t: int)
    requires
        from <= t < to_exclusive,
    ensures
        start % 60_000 == 0 && start <= t < start + 60_000 ==> buckets::touches(
            CacheKind::Trade,
            start,
            from,
            to_exclusive,
        ),
        start % 3_600_000 == 0 && start <= t < start + 3_600_000 ==> buckets::touches(
            CacheKind::Kline,
            start,
            from,
            to_exclusive,
        ),
        start + 60_000 <= from || to_exclusive <= start || start % 60_000 != 0
            ==> !buckets::touches(CacheKind::Trade, start, from, to_exclusive),
        start + 3_600_000 <= from || to_exclusive <= start || start % 3_600_000 != 0
            ==> !buckets::touches(CacheKind::Kline, start, from, to_exclusive),
{
}

/// The records of a bucket are those of its hour, trades those of their minute, in order.
pub proof fn records_go_to_the_bucket_of_their_hour(
    candles: Seq<Kline>,
    trades: Seq<Trade>,
    start: u64,
)
    requires
        start % 3_600_000 == 0,
    ensures
        cache_store::of_bucket(candles, CacheKind::Kline, start) == candles.filter(
            |candle: Kline| start <= candle.time.ms < start + 3_600_000,
        ),
        cache_store::of_bucket(trades, CacheKind::Trade, start) == trades.filter(
            |trade: Trade| start <= trade.time.ms < start + 60_000,
        ),
    decreases candles.len() + trades.len(),
{
    reveal(Seq::filter);
    if candles.len() > 0 {
        records_go_to_the_bucket_of_their_hour(candles.drop_last(), trades, start);
        lemma_in_bucket(CacheKind::Kline, start, candles.last().time.ms as int);
    } else if trades.len() > 0 {
        records_go_to_the_bucket_of_their_hour(candles, trades.drop_last(), start);
    }
    if trades.len() > 0 {
        lemma_trades_of_bucket(trades, start);
    }
}

proof fn lemma_trades_of_bucket(trades: Seq<Trade>, start: u64)
    requires
        start % 60_000 == 0,
    ensures
        cache_store::of_bucket(trades, CacheKind::Trade, start) == trades.filter(
            |trade: Trade| start <= trade.time.ms < start + 60_000,
        ),
    decreases trades.len(),
{
    reveal(Seq::filter);
    if trades.len() > 0 {
        lemma_trades_of_bucket(trades.drop_last(), start);
        lemma_in_bucket(CacheKind::Trade, start, trades.last().time.ms as int);
    }
}

proof fn lemma_in_bucket(kind: CacheKind, start: u64, t: int)
    requires
        start % kind.width() == 0,
        t >= 0,
    ensures
        buckets::bucket_of(kind, t) == start <==> start <= t < start + kind.width(),
{
    buckets::lemma_bucket_of_holds(kind, t);
    if start <= t < start + kind.width() {
        buckets::bucket_is_unique(kind, start as int, t);
    }
}

/// A read keeps the records of its range, in order.
pub proof fn reads_keep_the_range<T: Timed>(list: Seq<T>, from: u64, to_exclusive: u64)
    ensures
        persistent_cache::within(list, from, to_exclusive) == list.filter(
            |record: T| from <= record.moment() < to_exclusive,
        ),
    decreases list.len(),
{
    reveal(Seq::filter);
    if list.len() > 0 {
        reads_keep_the_range(list.drop_last(), from, to_exclusive);
    }
}

/// The first bucket that is wrong ends a read: one that is missing though it must be there,
/// that cannot be read, or that is of another schema, dataset or time. A missing one that need
/// not be there is no fault.
pub proof fn the_first_wrong_bucket_is_reported<T: CacheRecord>(
    fetched: Seq<FetchedBucket<T>>,
    list: Seq<(u64, bool)>,
    kind: CacheKind,
    dataset: Seq<char>,
    at: int,
)
    requires
        fetched.len() == list.len(),
    ensures
        (forall|i: int| 0 <= i < fetched.len() ==> is_sound(#[trigger] fetched[i], list[i], kind, dataset))
            ==> persistent_cache::first_problem(fetched, list, kind, dataset) is None,
        0 <= at < fetched.len() && (forall|i: int|
            0 <= i < at ==> is_sound(#[trigger] fetched[i], list[i], kind, dataset)) && !is_sound(
            fetched[at],
            list[at],
            kind,
            dataset,
        ) ==> persistent_cache::first_problem(fetched, list, kind, dataset) == Some(
            (
                list[at].0,
                if fetched[at] is Missing {
                    InvalidReason::MissingBucket
                } else {
                    InvalidReason::InvalidBucket
                },
            ),
        ),
    decreases fetched.len(),
{
    if fetched.len() > 0 {
        let front = fetched.drop_last();
        let last = fetched.len() - 1;
        lemma_problem_list(front, list, list.drop_last(), kind, dataset);
        the_first_wrong_bucket_is_reported(front, list.drop_last(), kind, dataset, at);
        assert(forall|i: int| 0 <= i < last ==> #[trigger] front[i] == fetched[i]);
        if forall|i: int|
            0 <= i < fetched.len() ==> is_sound(#[trigger] fetched[i], list[i], kind, dataset) {
            assert forall|i: int| 0 <= i < front.len() implies is_sound(
                #[trigger] front[i],
                list.drop_last()[i],
                kind,
                dataset,
            ) by {
                assert(is_sound(fetched[i], list[i], kind, dataset));
            }
            assert(is_sound(fetched[last], list[last], kind, dataset));
        }
        if 0 <= at < fetched.len() && (forall|i: int|
            0 <= i < at ==> is_sound(#[trigger] fetched[i], list[i], kind, dataset)) {
            assert forall|i: int| 0 <= i < at && i < front.len() implies is_sound(
                #[trigger] front[i],
                list.drop_last()[i],
                kind,
                dataset,
            ) by {
                assert(is_sound(fetched[i], list[i], kind, dataset));
            }
        }
    }
}

proof fn lemma_problem_list<T: CacheRecord>(
    fetched: Seq<FetchedBucket<T>>,
    a: Seq<(u64, bool)>,
    b: Seq<(u64, bool)>,
    kind: CacheKind,
    dataset: Seq<char>,
)
    requires
        fetched.len() <= a.len(),
        fetched.len() <= b.len(),
        forall|i: int| 0 <= i < fetched.len() ==> #[trigger] a[i] == b[i],
    ensures
        persistent_cache::first_problem(fetched, a, kind, dataset)
            == persistent_cache::first_problem(fetched, b, kind, dataset),
    decreases fetched.len(),
{
    if fetched.len() > 0 {
        lemma_problem_list(fetched.drop_last(), a, b, kind, dataset);
        assert(a[fetched.len() - 1] == b[fetched.len() - 1]);
    }
}

/// Whether a fetched bucket is what a read asked for: the present layout, the dataset, the
/// start, no more than five million records, all of them valid and of its time. One that need
/// not be there may be missing.
pub open spec fn is_sound<T: CacheRecord>(
    fetched: FetchedBucket<T>,
    asked: (u64, bool),
    kind: CacheKind,
    dataset: Seq<char>,
) -> bool {
    match fetched {
        FetchedBucket::Missing => !asked.1,
        FetchedBucket::Unreadable => false,
        FetchedBucket::Read(bucket) => bucket.schema == 3 && bucket.dataset_key@ == dataset
            && bucket.bucket_start == asked.0 && bucket.records@.len() <= 5_000_000 && forall|
            i: int,
        |
            0 <= i < bucket.records@.len() ==> (#[trigger] bucket.records@[i]).valid()
                && buckets::bucket_of(kind, bucket.records@[i].moment() as int) == asked.0,
    }
}

/// A record is among what is gathered exactly where a bucket that was read holds it.
pub proof fn all_buckets_are_gathered<T>(fetched: Seq<FetchedBucket<T>>, record: T)
    ensures
        persistent_cache::gathered(fetched).contains(record) <==> exists|i: int|
            0 <= i < fetched.len() && is_held(#[trigger] fetched[i], record),
    decreases fetched.len(),
{
    let all = persistent_cache::gathered(fetched);
    if fetched.len() > 0 {
        let front = fetched.drop_last();
        let last = fetched.len() - 1;
        let head = persistent_cache::gathered(front);
        all_buckets_are_gathered(front, record);
        assert(fetched[last] == fetched.last());
        assert(forall|i: int| 0 <= i < last ==> #[trigger] front[i] == fetched[i]);
        if all.contains(record) {
            let k = choose|k: int| 0 <= k < all.len() && all[k] == record;
            if k < head.len() {
                assert(head[k] == record);
                let i = choose|i: int| 0 <= i < front.len() && is_held(#[trigger] front[i], record);
                assert(is_held(fetched[i], record));
            } else {
                assert(fetched[last] is Read);
                assert(fetched[last]->Read_0.records@[k - head.len()] == record);
                assert(is_held(fetched[last], record));
            }
        }
        if exists|i: int| 0 <= i < fetched.len() && is_held(#[trigger] fetched[i], record) {
            let i = choose|i: int|
                0 <= i < fetched.len() && is_held(#[trigger] fetched[i], record);
            if i < last {
                assert(is_held(front[i], record));
                let k = choose|k: int| 0 <= k < head.len() && head[k] == record;
                assert(all[k] == record);
            } else {
                let source = fetched[last]->Read_0.records@;
                let m = choose|m: int| 0 <= m < source.len() && source[m] == record;
                assert(all[head.len() + m] == record);
            }
        }
    }
}

/// Whether a bucket was read and holds a record.
pub open spec fn is_held<T>(fetched: FetchedBucket<T>, record: T) -> bool {
    fetched matches FetchedBucket::Read(bucket) && bucket.records@.contains(record)
}

/// A candle is valid where its prices are above zero, open and close lie between low and high,
/// and no volume is below zero.
pub proof fn valid_candles_hold_together(kline: Kline)
    ensures
        kline.valid() <==> {
            &&& 0 < kline.low.units
            &&& kline.low.units <= kline.open.units
            &&& kline.low.units <= kline.close.units
            &&& kline.open.units <= kline.high.units
            &&& kline.close.units <= kline.high.units
            &&& match kline.volume {
                Volume::TotalOnly(total) => total.units >= 0,
                Volume::BuySell(buy, sell) => buy.units >= 0 && sell.units >= 0,
            }
        },
{
}

/// A trade is valid where its price is above zero and its quantity not below; an open interest
/// where it is a number not below zero.
pub proof fn valid_figures_are_not_negative(trade: Trade, interest: OpenInterest)
    ensures
        trade.valid() <==> trade.price.units > 0 && trade.qty.units >= 0,
        interest.value.bits < 0x7ff0_0000_0000_0000 ==> interest.valid(),
        interest.value.bits >= 0x7ff0_0000_0000_0000 && interest.value.bits
            != 0x8000_0000_0000_0000 ==> !interest.valid(),
{
    unit_laws::finite_figures_lie_below_infinity(interest.value, Bits32 { bits: 0 });
}

/// The quantities of a valid cluster add up: buys and sells make its total, their difference
/// is its delta. It belongs to its candle, and its first trade is no later than its last.
pub proof fn valid_clusters_add_up(candidate: BubbleCandidate, candle_time: UnixMs)
    requires
        records::candidate_valid(candidate, candle_time),
    ensures
        candidate.buy_qty.units + candidate.sell_qty.units == candidate.total_qty.units,
        candidate.buy_qty.units - candidate.sell_qty.units == candidate.delta_qty.units,
        candidate.buy_qty.units >= 0,
        candidate.sell_qty.units >= 0,
        candidate.candle_time.ms == candle_time.ms,
        candidate.first_time.ms <= candidate.last_time.ms,
        candidate.vwap_price.units > 0,
{
}

/// A store is left out for an empty range, for an empty answer and for an answer with an
/// invalid record, and only then.
pub proof fn only_sound_answers_are_stored<T: CacheRecord>(
    list: Seq<T>,
    from: u64,
    to_exclusive: u64,
    i: int,
)
    ensures
        from >= to_exclusive ==> cache_store::skip_reason(list, from, to_exclusive) == Some(
            SkipReason::EmptyRange,
        ),
        from < to_exclusive && list.len() == 0 ==> cache_store::skip_reason(
            list,
            from,
            to_exclusive,
        ) == Some(SkipReason::EmptyUnverified),
        from < to_exclusive && 0 <= i < list.len() && !list[i].valid() ==> cache_store::skip_reason(
            list,
            from,
            to_exclusive,
        ) == Some(SkipReason::InvalidSourceRecord),
        from < to_exclusive && list.len() > 0 && (forall|k: int|
            0 <= k < list.len() ==> (#[trigger] list[k]).valid()) ==> cache_store::skip_reason(
            list,
            from,
            to_exclusive,
        ) is None,
{
}

/// Of records of one moment the one that was given last stays, and of each moment one does.
/// They come out in ascending order.
pub proof fn the_last_record_of_a_moment_stays<T: Timed>(source: Seq<T>, out: Seq<T>, k: int) -> (i:
    int)
    requires
        records::newest_per_moment(source, out),
        0 <= k < out.len(),
    ensures
        0 <= i < source.len(),
        out[k] == source[i],
        forall|j: int|
            i < j < source.len() ==> (#[trigger] source[j]).moment() != source[i].moment(),
        k + 1 < out.len() ==> out[k].moment() < out[k + 1].moment(),
{
    let keep = |j: int| records::is_newest(source, j);
    let before = |a: int, b: int| source[a].moment() < source[b].moment();
    let at = choose|at: Seq<usize>| #[trigger]
        records::is_selection_at(source, out, keep, before, at);
    let i = at[k] as int;
    assert(keep(i));
    if k + 1 < out.len() {
        assert(before(at[k] as int, at[k + 1] as int));
        assert(out[k + 1] == source[at[k + 1] as int]);
    }
    i
}

/// Of records of one moment the one that was given first stays, in ascending order.
pub proof fn the_first_record_of_a_moment_stays<T: Timed>(source: Seq<T>, out: Seq<T>, k: int) -> (i:
    int)
    requires
        records::oldest_per_moment(source, out),
        0 <= k < out.len(),
    ensures
        0 <= i < source.len(),
        out[k] == source[i],
        forall|j: int| 0 <= j < i ==> (#[trigger] source[j]).moment() != source[i].moment(),
        k + 1 < out.len() ==> out[k].moment() < out[k + 1].moment(),
{
    let keep = |j: int| records::is_oldest(source, j);
    let before = |a: int, b: int| source[a].moment() < source[b].moment();
    let at = choose|at: Seq<usize>| #[trigger]
        records::is_selection_at(source, out, keep, before, at);
    let i = at[k] as int;
    assert(keep(i));
    if k + 1 < out.len() {
        assert(before(at[k] as int, at[k + 1] as int));
        assert(out[k + 1] == source[at[k + 1] as int]);
    }
    i
}

/// A record whose moment no later one of the list shares is kept, and so is the first one of a
/// moment where the first ones are kept.
pub proof fn no_moment_is_lost<T: Timed>(source: Seq<T>, newest: Seq<T>, oldest: Seq<T>, i: int)
    requires
        records::newest_per_moment(source, newest),
        records::oldest_per_moment(source, oldest),
        0 <= i < source.len(),
    ensures
        (forall|j: int|
            i < j < source.len() ==> (#[trigger] source[j]).moment() != source[i].moment())
            ==> newest.contains(source[i]),
        (forall|j: int| 0 <= j < i ==> (#[trigger] source[j]).moment() != source[i].moment())
            ==> oldest.contains(source[i]),
{
    let before = |a: int, b: int| source[a].moment() < source[b].moment();
    let keep = |j: int| records::is_newest(source, j);
    let at = choose|at: Seq<usize>| #[trigger]
        records::is_selection_at(source, newest, keep, before, at);
    if records::is_newest(source, i) {
        assert(keep(i));
        let k = choose|k: int| 0 <= k < at.len() && at[k] == i;
        assert(newest[k] == source[at[k] as int]);
    }
    let keep = |j: int| records::is_oldest(source, j);
    let at = choose|at: Seq<usize>| #[trigger]
        records::is_selection_at(source, oldest, keep, before, at);
    if records::is_oldest(source, i) {
        assert(keep(i));
        let k = choose|k: int| 0 <= k < at.len() && at[k] == i;
        assert(oldest[k] == source[at[k] as int]);
    }
}

/// A candle is missing at a moment where that lies behind the end of one candle and before the
/// next one, within the request.
pub proof fn holes_lie_between_candles(
    candles: Seq<Kline>,
    timeframe_ms: u64,
    from: u64,
    to_exclusive: u64,
    t: int,
)
    requires
        timeframe_ms > 0,
        forall|k: int|
            0 <= k < candles.len() ==> (#[trigger] candles[k]).time.ms + timeframe_ms
                <= 0xffff_ffff_ffff_ffff,
    ensures
        kline_integrity::in_hole(candles, timeframe_ms, from, to_exclusive, t) <==> from <= t
            < to_exclusive && exists|k: int|
            0 <= k < candles.len() - 1 && (#[trigger] candles[k]).time.ms + timeframe_ms <= t
                < candles[k + 1].time.ms,
{
    if kline_integrity::in_hole(candles, timeframe_ms, from, to_exclusive, t) {
        let k = choose|k: int|
            0 <= k < candles.len() - 1 && (#[trigger] kline_integrity::hole(
                candles,
                k,
                timeframe_ms,
                from,
                to_exclusive,
            )).0 <= t < kline_integrity::hole(candles, k, timeframe_ms, from, to_exclusive).1;
        assert(candles[k].time.ms + timeframe_ms <= t < candles[k + 1].time.ms);
    }
    if from <= t < to_exclusive && exists|k: int|
        0 <= k < candles.len() - 1 && (#[trigger] candles[k]).time.ms + timeframe_ms <= t
            < candles[k + 1].time.ms {
        let k = choose|k: int|
            0 <= k < candles.len() - 1 && (#[trigger] candles[k]).time.ms + timeframe_ms <= t
                < candles[k + 1].time.ms;
        let hole = kline_integrity::hole(candles, k, timeframe_ms, from, to_exclusive);
        assert(hole.0 <= t < hole.1);
    }
}

/// Whether a stored entry of snapshots is one that a read uses: of the dataset and of an hour
/// that reaches into the range, and its bucket is of the present layout and says the same.
pub open spec fn is_used(entry: SnapshotEntry, dataset: Seq<char>, from: u64, to: u64) -> bool {
    &&& gex_history::is_requested(dataset, entry.key@, from, to)
    &&& entry.bucket is Some
    &&& entry.bucket->0.schema == 3
    &&& entry.bucket->0.dataset_key@ == dataset
    &&& keys::key_bucket(dataset, entry.key@) == Some(entry.bucket->0.bucket_start)
}

/// A snapshot is read exactly where an entry that is used holds it, it is valid, and it was
/// observed in the range.
pub proof fn snapshots_are_read_from_sound_entries(
    entries: Seq<SnapshotEntry>,
    dataset: Seq<char>,
    from: u64,
    to: u64,
    snapshot: SnapshotRef,
)
    ensures
        gex_history::tally(entries, dataset, from, to).snapshots.contains(snapshot) <==> {
            &&& snapshot.semantically_valid
            &&& from <= snapshot.observed_at.ms <= to
            &&& exists|i: int|
                0 <= i < entries.len() && is_used(#[trigger] entries[i], dataset, from, to)
                    && entries[i].bucket->0.records@.contains(snapshot)
        },
    decreases entries.len(),
{
    let all = gex_history::tally(entries, dataset, from, to).snapshots;
    if entries.len() > 0 {
        let front = entries.drop_last();
        let last = entries.len() - 1;
        let head = gex_history::tally(front, dataset, from, to).snapshots;
        snapshots_are_read_from_sound_entries(front, dataset, from, to, snapshot);
        assert(entries[last] == entries.last());
        assert(forall|i: int| 0 <= i < last ==> #[trigger] front[i] == entries[i]);
        let used = is_used(entries[last], dataset, from, to);
        let source = entries[last].bucket->0.records@;
        let kept = gex_history::admitted(source, from, to);
        lemma_admitted(source, from, to, snapshot);
        if used {
            assert(all == head + kept);
            assert(all.contains(snapshot) <==> head.contains(snapshot) || kept.contains(snapshot))
                by {
                if head.contains(snapshot) {
                    let k = choose|k: int| 0 <= k < head.len() && head[k] == snapshot;
                    assert(all[k] == snapshot);
                }
                if kept.contains(snapshot) {
                    let k = choose|k: int| 0 <= k < kept.len() && kept[k] == snapshot;
                    assert(all[head.len() + k] == snapshot);
                }
            }
        } else {
            assert(all == head);
        }
        if head.contains(snapshot) {
            let i = choose|i: int|
                0 <= i < front.len() && is_used(#[trigger] front[i], dataset, from, to)
                    && front[i].bucket->0.records@.contains(snapshot);
            assert(is_used(entries[i], dataset, from, to));
        }
        if exists|i: int|
            0 <= i < entries.len() && is_used(#[trigger] entries[i], dataset, from, to)
                && entries[i].bucket->0.records@.contains(snapshot) {
            let i = choose|i: int|
                0 <= i < entries.len() && is_used(#[trigger] entries[i], dataset, from, to)
                    && entries[i].bucket->0.records@.contains(snapshot);
            if i < last {
                assert(is_used(front[i], dataset, from, to));
            }
        }
    }
}

proof fn lemma_admitted(list: Seq<SnapshotRef>, from: u64, to: u64, snapshot: SnapshotRef)
    ensures
        gex_history::admitted(list, from, to).contains(snapshot) <==> list.contains(snapshot)
            && snapshot.semantically_valid && from <= snapshot.observed_at.ms <= to,
    decreases list.len(),
{
    let kept = gex_history::admitted(list, from, to);
    if list.len() > 0 {
        let front = list.drop_last();
        let head = gex_history::admitted(front, from, to);
        lemma_admitted(front, from, to, snapshot);
        assert(list[list.len() - 1] == list.last());
        if list.contains(snapshot) && list.last() != snapshot {
            let k = choose|k: int| 0 <= k < list.len() && list[k] == snapshot;
            assert(front[k] == snapshot);
        }
        if front.contains(snapshot) {
            let k = choose|k: int| 0 <= k < front.len() && front[k] == snapshot;
            assert(list[k] == snapshot);
        }
        if head.contains(snapshot) {
            let k = choose|k: int| 0 <= k < head.len() && head[k] == snapshot;
            assert(kept[k] == snapshot);
        }
        if kept.contains(snapshot) {
            let k = choose|k: int| 0 <= k < kept.len() && kept[k] == snapshot;
            if k < head.len() {
                assert(head[k] == snapshot);
            }
        }
        if kept.len() > head.len() {
            assert(kept[head.len() as int] == list.last());
        }
    }
}

/// Every entry that is asked for is counted as found, and as corrupt where it could not be
/// decoded; no decoded snapshot is lost without being counted as discarded.
pub proof fn reads_are_counted(entries: Seq<SnapshotEntry>, dataset: Seq<char>, from: u64, to: u64)
    ensures
        ({
            let read = gex_history::tally(entries, dataset, from, to);
            &&& read.found == entries.filter(
                |entry: SnapshotEntry| gex_history::is_requested(dataset, entry.key@, from, to),
            ).len()
            &&& read.corrupt == entries.filter(
                |entry: SnapshotEntry|
                    gex_history::is_requested(dataset, entry.key@, from, to)
                        && entry.bucket is None,
            ).len()
            &&& read.decoded <= read.snapshots.len() + read.discarded
            &&& read.snapshots.len() <= read.decoded
        }),
    decreases entries.len(),
{
    reveal(Seq::filter);
    if entries.len() > 0 {
        reads_are_counted(entries.drop_last(), dataset, from, to);
        if entries.last().bucket is Some {
            lemma_admitted_len(entries.last().bucket->0.records@, from, to);
        }
    }
}

proof fn lemma_admitted_len(list: Seq<SnapshotRef>, from: u64, to: u64)
    ensures
        gex_history::admitted(list, from, to).len() <= list.len(),
    decreases list.len(),
{
    if list.len() > 0 {
        lemma_admitted_len(list.drop_last(), from, to);
    }
}

/// After a store the hours of its dataset that reach into the last day stay, earlier ones go,
/// and those of other datasets stay.
pub proof fn a_day_of_snapshots_stays(dataset: Seq<char>, start: u64, other: Seq<char>, now: u64)
    requires
        now >= 86_400_000,
    ensures
        gex_history::survives_pruning(dataset, keys::gex_bucket_text(dataset, start), now) <==> start
            + 3_600_000 >= now - 86_400_000,
        !text::begins_with(other, dataset + "|"@) ==> gex_history::survives_pruning(
            dataset,
            other,
            now,
        ),
{
    keys::snapshot_keys_name_their_bucket(dataset, start);
}

/// An hour of snapshots is asked for where it reaches into the range.
pub proof fn hours_of_the_range_are_asked_for(dataset: Seq<char>, start: u64, from: u64, to: u64)
    requires
        start + 3_600_000 <= 0xffff_ffff_ffff_ffff,
    ensures
        gex_history::is_requested(dataset, keys::gex_bucket_text(dataset, start), from, to)
            <==> start <= to && from <= start + 3_600_000,
{
    keys::snapshot_keys_name_their_bucket(dataset, start);
}

/// A blob is a header of 28 bytes that begins with `FSCACHE1`, and the payload behind it.
pub proof fn blobs_hold_their_payload(payload: Seq<u8>)
    ensures
        frame::framed(payload).len() == 28 + payload.len(),
        frame::framed(payload).skip(28) == payload,
        frame::framed(payload).take(8) == seq![
            0x46u8,
            0x53u8,
            0x43u8,
            0x41u8,
            0x43u8,
            0x48u8,
            0x45u8,
            0x31u8,
        ],
{
    vstd::bytes::lemma_auto_spec_u64_to_from_le_bytes();
    vstd::bytes::lemma_auto_spec_u32_to_from_le_bytes();
    assert(frame::framed(payload).skip(28) =~= payload);
    assert(frame::framed(payload).take(8) =~= frame::magic());
}

/// A blob that is shorter than its header, or does not begin with `FSCACHE1`, is no blob. One
/// whose payload is longer or shorter than its header says is refused as well.
pub proof fn cut_blobs_are_refused(encoded: Seq<u8>, payload: Seq<u8>, n: int)
    requires
        payload.len() <= 536_870_912,
        0 <= n < 28 + payload.len(),
    ensures
        encoded.len() < 28 ==> frame::unframed(encoded) == Err::<Seq<u8>, frame::BlobError>(
            frame::BlobError::Header,
        ),
        encoded.len() > 0 && encoded[0] != 0x46u8 ==> frame::unframed(encoded) == Err::<
            Seq<u8>,
            frame::BlobError,
        >(frame::BlobError::Header),
        frame::unframed(frame::framed(payload).take(n)) is Err,
{
    if encoded.len() >= 28 && encoded[0] != 0x46u8 {
        assert(encoded.take(8)[0] == encoded[0]);
        assert(frame::magic()[0] == 0x46u8);
    }
    frame::frame_round_trip(payload);
    blobs_hold_their_payload(payload);
    let whole = frame::framed(payload);
    let cut = whole.take(n);
    if n >= 28 {
        assert(cut.subrange(16, 24) =~= whole.subrange(16, 24));
        assert(cut.skip(28).len() == n - 28);
        assert(whole.skip(28).len() == payload.len());
    }
}

} // verus!
