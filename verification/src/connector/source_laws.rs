//! What the sources of gamma exposure promise, stated on moments, ages and entries.
use vstd::prelude::*;
use crate::connector::bubble_merge;
use crate::connector::bubble_merge::Placed;
use crate::connector::failure;
use crate::connector::failure::FailureState;
use crate::connector::gex_deribit;
use crate::connector::gex_deribit::{CachedGexSnapshot, ChainRequest, DeribitState};
use crate::connector::gex_derive;
use crate::connector::gex_derive::DeriveState;
use crate::connector::gex_history;
use crate::connector::gex_history::{MakerTradeRef, ProxyRef, SnapshotRef};
use crate::connector::gex_keys::SeriesModel;
use crate::connector::gex_proxy;
use crate::connector::gex_proxy::{GexFreshness, ProxyState};
use crate::connector::gex_series;
use crate::connector::gex_series::HistoryEntry;
use crate::connector::records::BubbleVolumeSummary;
use crate::units::UnixMs;

verus! {

/// The pause after a first failure is five seconds and doubles with each further one, up to
/// two minutes.
pub proof fn pauses_grow_from_five_seconds(attempts: nat)
    ensures
        attempts <= 1 ==> failure::backoff_ms(attempts) == 5_000,
        attempts == 2 ==> failure::backoff_ms(attempts) == 10_000,
        attempts == 3 ==> failure::backoff_ms(attempts) == 20_000,
        attempts == 4 ==> failure::backoff_ms(attempts) == 40_000,
        attempts == 5 ==> failure::backoff_ms(attempts) == 80_000,
        attempts >= 6 ==> failure::backoff_ms(attempts) == 120_000,
    decreases attempts,
{
    if attempts > 1 {
        pauses_grow_from_five_seconds((attempts - 1) as nat);
    }
}

/// One more failure is counted, its text is kept, and no request is made until its pause is
/// over.
pub proof fn failures_are_counted(
    previous: Option<FailureState>,
    after: Option<FailureState>,
    error: Seq<char>,
    now: u64,
    later: u64,
)
    requires
        failure::failed_again(previous, after, error, now),
        now + 120_000 <= 0xffff_ffff_ffff_ffff,
    ensures
        after is Some,
        after->0.last_error@ == error,
        previous is None ==> after->0.attempts == 1 && after->0.retry_after.ms == now + 5_000,
        previous matches Some(failure) ==> failure.attempts < 0xffff_ffff ==> after->0.attempts
            == failure.attempts + 1,
        previous matches Some(failure) ==> failure.attempts == 1 ==> after->0.retry_after.ms == now
            + 10_000,
        previous matches Some(failure) ==> failure.attempts >= 5 ==> after->0.retry_after.ms == now
            + 120_000,
        failure::is_waiting(after, later) <==> later < after->0.retry_after.ms,
        !failure::is_waiting(None, later),
{
    pauses_grow_from_five_seconds(failure::attempts_after(previous) as nat);
}

/// Something is expired once its interval has passed since, and from the start.
pub proof fn things_expire_after_their_interval(moment: UnixMs, now: u64, interval: u64)
    ensures
        failure::is_expired(None, now, interval),
        now >= moment.ms + interval ==> failure::is_expired(Some(moment), now, interval),
        interval > 0 && now < moment.ms + interval ==> !failure::is_expired(
            Some(moment),
            now,
            interval,
        ),
{
}

/// The remote series is asked for once every five minutes and after its pause, or at once where
/// that is forced, but never twice at a time.
pub proof fn the_remote_series_is_asked_for_every_five_minutes(state: ProxyState, now: u64)
    ensures
        state.in_flight ==> !state.is_due(now),
        !state.in_flight && state.force_refresh ==> state.is_due(now),
        !state.in_flight && !state.force_refresh ==> {
            let pausing = state.failure is Some && now < state.failure->0.retry_after.ms;
            let recent = state.refreshed_at is Some && now < state.refreshed_at->0.ms + 300_000;
            state.is_due(now) <==> !pausing && !recent
        },
{
}

/// A failure shows as an error. Without one, a series is fresh for five minutes after it was
/// refreshed and stale afterwards, or where it was marked so; without any data it is loading.
pub proof fn the_remote_series_grows_stale(state: ProxyState, now: u64)
    ensures
        state.failure is Some <==> state.freshness_at(now) == GexFreshness::Error,
        state.failure is None && state.stale && (!state.in_flight || state.history@.len() > 0)
            ==> state.freshness_at(now) == GexFreshness::Stale,
        state.failure is None && !state.stale && state.history@.len() > 0 ==> {
            let recent = state.refreshed_at is Some && now <= state.refreshed_at->0.ms + 300_000;
            state.freshness_at(now) == if recent {
                GexFreshness::Fresh
            } else {
                GexFreshness::Stale
            }
        },
        state.failure is None && state.history@.len() == 0 && (state.in_flight || (!state.stale
            && state.refreshed_at is None)) ==> state.freshness_at(now) == GexFreshness::Loading,
{
}

/// The points of a series that are kept are the valid ones from the cutoff on, in order, and
/// those that are shown the ones from their cutoff on.
pub proof fn recent_points_are_kept(list: Seq<ProxyRef>, cutoff: i64)
    ensures
        gex_history::recent_points(list, cutoff) == list.filter(
            |point: ProxyRef| point.semantically_valid && point.observed_at >= cutoff,
        ),
        gex_proxy::points_since(list, cutoff) == list.filter(
            |point: ProxyRef| point.observed_at >= cutoff,
        ),
    decreases list.len(),
{
    reveal(Seq::filter);
    if list.len() > 0 {
        recent_points_are_kept(list.drop_last(), cutoff);
    }
}

/// The maker trades that are kept are those of the last day up to now; those that are cached
/// are the valid ones of the last day and ten minutes. Both in order.
pub proof fn recent_maker_trades_are_kept(list: Seq<MakerTradeRef>, now: u64)
    requires
        now >= 87_000_000,
    ensures
        gex_derive::in_retention(list, now) == list.filter(
            |trade: MakerTradeRef| now - 86_400_000 <= trade.timestamp.ms <= now,
        ),
        gex_history::recent_trades(list, now) == list.filter(
            |trade: MakerTradeRef|
                trade.semantically_valid && now - 87_000_000 <= trade.timestamp.ms <= now,
        ),
    decreases list.len(),
{
    reveal(Seq::filter);
    if list.len() > 0 {
        recent_maker_trades_are_kept(list.drop_last(), now);
    }
}

/// Instruments are asked for every ten minutes, trades every five seconds and never without
/// instruments; both at once where that is forced, and neither during its pause or twice at a
/// time.
pub proof fn maker_trades_are_asked_for_every_five_seconds(state: DeriveState, now: u64)
    ensures
        state.instruments_in_flight ==> !state.instruments_due(now),
        !state.instruments_in_flight && state.force_instruments ==> state.instruments_due(now),
        !state.instruments_in_flight && !state.force_instruments ==> {
            let pausing = state.instrument_failure is Some && now
                < state.instrument_failure->0.retry_after.ms;
            let recent = state.instruments_refreshed_at is Some && now
                < state.instruments_refreshed_at->0.ms + 600_000;
            state.instruments_due(now) <==> !pausing && !recent
        },
        state.instruments is None || state.instruments->0.count == 0 || state.trades_in_flight
            ==> !state.trades_due(now),
        state.instruments is Some && state.instruments->0.count > 0 && !state.trades_in_flight ==> {
            let pausing = state.trade_failure is Some && now < state.trade_failure->0.retry_after.ms;
            let recent = state.trades_refreshed_at is Some && now
                < state.trades_refreshed_at->0.ms + 5_000;
            state.trades_due(now) <==> state.force_trades || (!pausing && !recent)
        },
{
}

/// Trades are asked for from ten seconds before the last one that was seen, at first from two
/// hours before now.
pub proof fn maker_trades_overlap_by_ten_seconds(state: DeriveState, now: u64)
    ensures
        state.watermark matches Some(seen) ==> seen.ms >= 10_000 ==> state.fetch_start(now)
            + 10_000 == seen.ms,
        state.watermark is None && now >= 7_200_000 ==> state.fetch_start(now) + 7_200_000 == now,
{
}

/// A failure of either request shows as an error. Trades that were refreshed less than ten
/// seconds ago are fresh, older ones stale.
pub proof fn maker_trades_grow_stale(state: DeriveState, now: u64)
    ensures
        state.trade_failure is Some || state.instrument_failure is Some <==> state.freshness_at(now)
            == GexFreshness::Error,
        state.trade_failure is None && state.instrument_failure is None && state.stale
            ==> state.freshness_at(now) == GexFreshness::Stale,
        state.trade_failure is None && state.instrument_failure is None && !state.stale
            && state.trades is Some && state.trades->0@.len() > 0 ==> {
            let recent = state.trades_refreshed_at is Some && now
                < state.trades_refreshed_at->0.ms + 10_000;
            state.freshness_at(now) == if recent {
                GexFreshness::Fresh
            } else {
                GexFreshness::Stale
            }
        },
        state.trade_failure is None && state.instrument_failure is None && !state.stale
            && state.trades is None && state.trades_refreshed_at is None ==> state.freshness_at(now)
            == GexFreshness::Loading,
{
}

/// A chain asks for its instruments every ten minutes and for its market data every fifteen
/// seconds or where that is forced, not during a pause, and for neither twice at a time.
pub proof fn chains_are_asked_for_every_fifteen_seconds(state: DeribitState, now: u64)
    ensures
        ({
            let pausing = state.failure is Some && now < state.failure->0.retry_after.ms;
            let listed = state.instruments is Some && now < state.instruments->0.refreshed_at.ms
                + 600_000;
            let recent = state.raw is Some && now < state.raw->0.received_at.ms + 15_000;
            let due = state.due(now);
            &&& pausing ==> due is None
            &&& !pausing && !listed ==> due == if state.instruments_in_flight {
                None
            } else {
                Some(ChainRequest::Instruments)
            }
            &&& !pausing && listed && (state.force_refresh || !recent) ==> due
                == if state.snapshot_in_flight {
                None
            } else {
                Some(ChainRequest::Snapshot)
            }
            &&& !pausing && listed && !state.force_refresh && recent ==> due is None
        }),
{
}

/// A failure shows as an error. Market data is fresh for 45 seconds, stale for five minutes and
/// expired afterwards; what was read from the disk is stale.
pub proof fn market_data_expires(state: DeribitState, now: u64)
    ensures
        state.failure is Some <==> state.freshness_at(now) == GexFreshness::Error,
        state.failure is None && state.raw is None ==> state.freshness_at(now)
            == GexFreshness::Loading,
        state.failure is None ==> (state.raw matches Some(raw) ==> {
            let received = raw.received_at.ms;
            &&& raw.loaded_from_disk ==> state.freshness_at(now) == GexFreshness::Stale
            &&& !raw.loaded_from_disk && now <= received + 45_000 ==> state.freshness_at(now)
                == GexFreshness::Fresh
            &&& !raw.loaded_from_disk && received + 45_000 < now <= received + 300_000
                ==> state.freshness_at(now) == GexFreshness::Stale
            &&& !raw.loaded_from_disk && received + 300_000 < now ==> state.freshness_at(now)
                == GexFreshness::Expired
        }),
{
}

/// A derived snapshot is found by its series and its revision, the one that was remembered
/// last.
pub proof fn derived_snapshots_are_found_by_revision(
    list: Seq<CachedGexSnapshot>,
    key: SeriesModel,
    revision: u64,
    at: int,
)
    ensures
        0 <= at < list.len() && list[at].key@ == key && list[at].revision == revision && (forall|
            i: int,
        |
            at < i < list.len() ==> !((#[trigger] list[i]).key@ == key && list[i].revision
                == revision)) ==> gex_deribit::derived_slot(list, key, revision) == Some(
            list[at].slot,
        ),
        (forall|i: int|
            0 <= i < list.len() ==> !((#[trigger] list[i]).key@ == key && list[i].revision
                == revision)) ==> gex_deribit::derived_slot(list, key, revision) is None,
    decreases list.len(),
{
    if list.len() > 0 {
        let front = list.drop_last();
        let last = list.len() - 1;
        assert(list[last] == list.last());
        assert(forall|i: int| 0 <= i < last ==> #[trigger] front[i] == list[i]);
        derived_snapshots_are_found_by_revision(front, key, revision, at);
        if forall|i: int|
            0 <= i < list.len() ==> !((#[trigger] list[i]).key@ == key && list[i].revision
                == revision) {
            assert forall|i: int| 0 <= i < front.len() implies !((#[trigger] front[i]).key@ == key
                && front[i].revision == revision) by {
                assert(list[i] == front[i]);
            }
        }
        if 0 <= at < last && (forall|i: int|
            at < i < list.len() ==> !((#[trigger] list[i]).key@ == key && list[i].revision
                == revision)) {
            assert(front[at] == list[at]);
            assert forall|i: int| at < i < front.len() implies !((#[trigger] front[i]).key@ == key
                && front[i].revision == revision) by {
                assert(list[i] == front[i]);
            }
        }
    }
}

/// A history is shown for as many minutes as asked for, at least half an hour and at most a
/// day, and without what is older.
pub proof fn histories_are_shown_for_their_minutes(
    entries: Seq<HistoryEntry>,
    cutoff: u64,
    minutes: u16,
)
    ensures
        minutes < 30 ==> gex_series::shown_ms(minutes) == 1_800_000,
        30 <= minutes <= 1_440 ==> gex_series::shown_ms(minutes) == minutes * 60_000,
        minutes > 1_440 ==> gex_series::shown_ms(minutes) == 86_400_000,
        gex_series::entries_since(entries, cutoff) == entries.filter(
            |entry: HistoryEntry| entry.observed_at.ms >= cutoff,
        ),
    decreases entries.len(),
{
    reveal(Seq::filter);
    if entries.len() > 0 {
        histories_are_shown_for_their_minutes(entries.drop_last(), cutoff, minutes);
    }
}

proof fn lemma_pruned(entries: Seq<HistoryEntry>, cutoff: u64)
    ensures
        gex_series::pruned(entries, cutoff).len() <= entries.len(),
        gex_series::pruned(entries, cutoff) == entries.skip(
            entries.len() - gex_series::pruned(entries, cutoff).len(),
        ),
        forall|i: int|
            0 <= i < entries.len() - gex_series::pruned(entries, cutoff).len() ==> (
            #[trigger] entries[i]).observed_at.ms < cutoff || entries.len() - i > 5_760,
    decreases entries.len(),
{
    if entries.len() > 0 && (entries[0].observed_at.ms < cutoff || entries.len() > 5_760) {
        let rest = entries.skip(1);
        lemma_pruned(rest, cutoff);
        let kept = gex_series::pruned(entries, cutoff);
        assert(kept =~= entries.skip(entries.len() - kept.len()));
        assert forall|i: int| 0 <= i < entries.len() - kept.len() implies (
        #[trigger] entries[i]).observed_at.ms < cutoff || entries.len() - i > 5_760 by {
            if i > 0 {
                assert(rest[i - 1] == entries[i]);
            }
        }
    } else {
        assert(entries.skip(0) =~= entries);
    }
}

/// Entries leave a history at its front only: those that are too old, or too many for the 5,760
/// that are kept. All others stay in order.
pub proof fn histories_lose_old_entries_only(entries: Seq<HistoryEntry>, cutoff: u64) -> (left: int)
    ensures
        0 <= left <= entries.len(),
        gex_series::pruned(entries, cutoff) == entries.skip(left),
        forall|i: int|
            0 <= i < left ==> (#[trigger] entries[i]).observed_at.ms < cutoff || entries.len() - i
                > 5_760,
        left < entries.len() ==> entries[left].observed_at.ms >= cutoff && entries.len() - left
            <= 5_760,
{
    lemma_pruned(entries, cutoff);
    lemma_pruned_first(entries, cutoff);
    entries.len() - gex_series::pruned(entries, cutoff).len()
}

proof fn lemma_pruned_first(entries: Seq<HistoryEntry>, cutoff: u64)
    ensures
        gex_series::pruned(entries, cutoff).len() > 0 ==> gex_series::pruned(
            entries,
            cutoff,
        )[0].observed_at.ms >= cutoff && gex_series::pruned(entries, cutoff).len() <= 5_760,
    decreases entries.len(),
{
    if entries.len() > 0 && (entries[0].observed_at.ms < cutoff || entries.len() > 5_760) {
        lemma_pruned_first(entries.skip(1), cutoff);
    }
}

/// A new entry stands behind every earlier one and before every later one. One that repeats a
/// revision or a moment changes nothing.
pub proof fn entries_are_put_in_by_time(entries: Seq<HistoryEntry>, entry: HistoryEntry, now: u64)
    requires
        forall|i: int, j: int|
            0 <= i < j < entries.len() ==> (#[trigger] entries[i]).observed_at.ms < (
            #[trigger] entries[j]).observed_at.ms,
    ensures
        (exists|i: int|
            0 <= i < entries.len() && ((#[trigger] entries[i]).revision == entry.revision
                || entries[i].observed_at.ms == entry.observed_at.ms)) ==> gex_series::appended(
            entries,
            entry,
            now,
        ) == entries,
        ({
            let at = gex_series::insertion_place(entries, entry.observed_at.ms);
            &&& 0 <= at <= entries.len()
            &&& forall|i: int|
                0 <= i < at ==> (#[trigger] entries[i]).observed_at.ms <= entry.observed_at.ms
            &&& forall|i: int|
                at <= i < entries.len() ==> (#[trigger] entries[i]).observed_at.ms
                    > entry.observed_at.ms
        }),
{
    lemma_insertion(entries, entry.observed_at.ms);
    let at = gex_series::insertion_place(entries, entry.observed_at.ms);
    assert forall|i: int| at <= i < entries.len() implies (#[trigger] entries[i]).observed_at.ms
        > entry.observed_at.ms by {
        if i > at {
            assert(entries[at].observed_at.ms < entries[i].observed_at.ms);
        }
    }
    if exists|i: int|
        0 <= i < entries.len() && ((#[trigger] entries[i]).revision == entry.revision
            || entries[i].observed_at.ms == entry.observed_at.ms) {
        let i = choose|i: int|
            0 <= i < entries.len() && ((#[trigger] entries[i]).revision == entry.revision
                || entries[i].observed_at.ms == entry.observed_at.ms);
        assert(entries[i].revision == entry.revision || entries[i].observed_at
            == entry.observed_at);
        assert(gex_series::repeats(entries, entry));
    }
}

proof fn lemma_insertion(entries: Seq<HistoryEntry>, moment: u64)
    ensures
        0 <= gex_series::insertion_place(entries, moment) <= entries.len(),
        forall|i: int|
            0 <= i < gex_series::insertion_place(entries, moment) ==> (
            #[trigger] entries[i]).observed_at.ms <= moment,
        gex_series::insertion_place(entries, moment) < entries.len()
            ==> entries[gex_series::insertion_place(entries, moment)].observed_at.ms > moment,
    decreases entries.len(),
{
    if entries.len() > 0 {
        let front = entries.drop_last();
        lemma_insertion(front, moment);
        let at = gex_series::insertion_place(entries, moment);
        assert forall|i: int| 0 <= i < at implies (#[trigger] entries[i]).observed_at.ms
            <= moment by {
            if i < front.len() {
                assert(front[i] == entries[i]);
            }
        }
        if at < front.len() {
            assert(front[at] == entries[at]);
        }
    }
}

/// Of stored snapshots the valid ones of a range are admitted, in order.
pub proof fn valid_snapshots_are_admitted(list: Seq<SnapshotRef>, from: u64, to: u64)
    ensures
        gex_history::admitted(list, from, to) == list.filter(
            |snapshot: SnapshotRef|
                snapshot.semantically_valid && from <= snapshot.observed_at.ms <= to,
        ),
    decreases list.len(),
{
    reveal(Seq::filter);
    if list.len() > 0 {
        valid_snapshots_are_admitted(list.drop_last(), from, to);
    }
}

/// A merged summary lists an entry of its candle that no other entry of the same cluster
/// exceeds in trades; larger clusters come first, and none that was left out for want of room
/// is larger than one that is listed.
pub proof fn merged_clusters_are_the_most_complete(
    flat: Seq<Placed>,
    max: usize,
    out: BubbleVolumeSummary,
    k: int,
) -> (i: int)
    requires
        bubble_merge::is_candle_summary(flat, max, out),
        0 <= k < out.candidates@.len(),
    ensures
        0 <= i < flat.len(),
        out.candidates@[k] == flat[i].candidate,
        flat[i].candle_time == out.candle_time,
        out.candidates@.len() <= max,
        forall|j: int|
            0 <= j < flat.len() && (#[trigger] flat[j]).candle_time.ms == flat[i].candle_time.ms
                && flat[j].candidate.id == flat[i].candidate.id ==> flat[j].candidate.trade_count
                <= flat[i].candidate.trade_count && (flat[j].candidate.trade_count
                == flat[i].candidate.trade_count ==> flat[j].candidate.last_time.ms
                <= flat[i].candidate.last_time.ms),
        k + 1 < out.candidates@.len() ==> {
            let here = out.candidates@[k];
            let next = out.candidates@[k + 1];
            here.total_qty.units > next.total_qty.units || (here.total_qty.units
                == next.total_qty.units && here.id < next.id)
        },
{
    let at = choose|at: Seq<usize>| #[trigger]
        bubble_merge::is_candle_summary_at(flat, max, out, at);
    let i = at[k] as int;
    assert(out.candidates@[k] == flat[at[k] as int].candidate);
    assert(bubble_merge::is_winner(flat, i));
    assert forall|j: int|
        0 <= j < flat.len() && (#[trigger] flat[j]).candle_time.ms == flat[i].candle_time.ms
            && flat[j].candidate.id == flat[i].candidate.id implies flat[j].candidate.trade_count
        <= flat[i].candidate.trade_count && (flat[j].candidate.trade_count
        == flat[i].candidate.trade_count ==> flat[j].candidate.last_time.ms
        <= flat[i].candidate.last_time.ms) by {
        if j != i {
            assert(bubble_merge::same_cluster(flat[j], flat[i]));
        }
    }
    if k + 1 < out.candidates@.len() {
        assert(out.candidates@[k + 1] == flat[at[k + 1] as int].candidate);
        assert(bubble_merge::larger_first(
            flat[at[k] as int].candidate,
            flat[at[k + 1] as int].candidate,
        ));
    }
    i
}

/// A cluster of the summaries is merged where they are of version 2, under the candle of its
/// summary.
pub proof fn current_summaries_are_merged(summaries: Seq<BubbleVolumeSummary>, entry: Placed)
    ensures
        bubble_merge::flattened(summaries).contains(entry) <==> exists|s: int|
            0 <= s < summaries.len() && (#[trigger] summaries[s]).algorithm_version == 2
                && summaries[s].candle_time == entry.candle_time
                && summaries[s].candidates@.contains(entry.candidate),
    decreases summaries.len(),
{
    let all = bubble_merge::flattened(summaries);
    if summaries.len() > 0 {
        let front = summaries.drop_last();
        let last = summaries.len() - 1;
        current_summaries_are_merged(front, entry);
        assert(summaries[last] == summaries.last());
        assert(forall|s: int| 0 <= s < last ==> #[trigger] front[s] == summaries[s]);
        let head = bubble_merge::flattened(front);
        let source = summaries[last].candidates@;
        let tail = bubble_merge::placed_at(summaries[last].candle_time, source);
        if all.contains(entry) {
            let k = choose|k: int| 0 <= k < all.len() && all[k] == entry;
            if k < head.len() {
                assert(head[k] == entry);
                let s = choose|s: int|
                    0 <= s < front.len() && (#[trigger] front[s]).algorithm_version == 2
                        && front[s].candle_time == entry.candle_time
                        && front[s].candidates@.contains(entry.candidate);
                assert(summaries[s] == front[s]);
            } else {
                assert(tail[k - head.len()] == entry);
                assert(source[k - head.len()] == entry.candidate);
            }
        }
        if exists|s: int|
            0 <= s < summaries.len() && (#[trigger] summaries[s]).algorithm_version == 2
                && summaries[s].candle_time == entry.candle_time
                && summaries[s].candidates@.contains(entry.candidate) {
            let s = choose|s: int|
                0 <= s < summaries.len() && (#[trigger] summaries[s]).algorithm_version == 2
                    && summaries[s].candle_time == entry.candle_time
                    && summaries[s].candidates@.contains(entry.candidate);
            if s < last {
                assert(front[s] == summaries[s]);
                assert(head.contains(entry));
                let k = choose|k: int| 0 <= k < head.len() && head[k] == entry;
                assert(all[k] == entry);
            } else {
                let m = choose|m: int| 0 <= m < source.len() && source[m] == entry.candidate;
                assert(tail[m] == entry);
                assert(all[head.len() + m] == entry);
            }
        }
    }
}

} // verus!
