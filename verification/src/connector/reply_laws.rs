//! What the answers of the sources of gamma exposure leave behind.
use vstd::prelude::*;
use crate::connector::archive_laws;
use crate::connector::failure;
use crate::connector::gex_deribit::{ChainRequest, ChainSnapshot, DeribitState, DerivedLookup};
use crate::connector::gex_derive;
use crate::connector::gex_derive::{DeriveState, InstrumentList};
use crate::connector::gex_history;
use crate::connector::gex_history::{MakerTradeRef, ProxyRef};
use crate::connector::gex_keys::SeriesModel;
use crate::connector::gex_proxy;
use crate::connector::gex_proxy::{GexFreshness, ProxyResponse, ProxyState};
use crate::connector::records;
use crate::connector::records::Timed;
use crate::connector::source_laws;
use crate::lists;

verus! {

/// An answer of the remote series ends its request. A fresh one shows as fresh, and the next
/// request comes five minutes later; a stale one never replaces points that are there. After a
/// first failure nothing is asked for during five seconds, and what was there stays.
pub proof fn answers_settle_the_remote_series(
    before: ProxyState,
    result: Result<ProxyResponse, String>,
    now: u64,
    after: ProxyState,
    later: u64,
)
    requires
        ProxyState::completed(before, result, now, after),
        now <= later,
        now + 300_000 <= 0xffff_ffff_ffff_ffff,
    ensures
        !after.in_flight && !after.force_refresh,
        result is Ok ==> (after.is_due(later) <==> later >= now + 300_000),
        result is Ok && !result->Ok_0.stale ==> after.freshness_at(now) == GexFreshness::Fresh,
        result is Ok && result->Ok_0.stale ==> after.freshness_at(now) == GexFreshness::Stale,
        result is Ok && result->Ok_0.stale && before.history@.len() > 0 ==> after.history@
            == before.history@,
        result is Err ==> after.freshness_at(later) == GexFreshness::Error && after.history@
            == before.history@,
        result is Err && before.failure is None && before.refreshed_at is None ==> (after.is_due(
            later,
        ) <==> later >= now + 5_000),
{
    source_laws::pauses_grow_from_five_seconds(failure::attempts_after(before.failure) as nat);
}

/// A series that was taken in holds valid points of the last day and ten minutes only, in
/// ascending order, each as it came in first for its moment, and no more than 320.
pub proof fn the_remote_series_is_kept_in_order(
    points: Seq<ProxyRef>,
    now: u64,
    kept: Seq<ProxyRef>,
    k: int,
)
    requires
        gex_proxy::is_normal_series(points, now, kept),
        87_000_000 <= now <= 0x7fff_ffff_ffff_ffff,
        0 <= k < kept.len(),
    ensures
        kept.len() <= 320,
        points.contains(kept[k]),
        kept[k].semantically_valid,
        kept[k].observed_at >= now - 87_000_000,
        k + 1 < kept.len() ==> kept[k].observed_at < kept[k + 1].observed_at,
{
    let cutoff = gex_history::sat_sub_i64(gex_proxy::signed_ms(now), 87_000_000);
    let recent = gex_history::recent_points(points, cutoff);
    let all = choose|all: Seq<ProxyRef>| #[trigger]
        records::oldest_per_moment(recent, all) && kept == lists::last_of(all, 320);
    let skipped = all.len() - kept.len();
    assert(kept[k] == all[skipped + k]);
    let i = archive_laws::the_first_record_of_a_moment_stays(recent, all, skipped + k);
    lemma_recent_points(points, cutoff, i);
    if k + 1 < kept.len() {
        assert(kept[k + 1] == all[skipped + k + 1]);
    }
}

proof fn lemma_recent_points(list: Seq<ProxyRef>, cutoff: i64, i: int)
    requires
        0 <= i < gex_history::recent_points(list, cutoff).len(),
    ensures
        list.contains(gex_history::recent_points(list, cutoff)[i]),
        gex_history::recent_points(list, cutoff)[i].semantically_valid,
        gex_history::recent_points(list, cutoff)[i].observed_at >= cutoff,
    decreases list.len(),
{
    let front = list.drop_last();
    let head = gex_history::recent_points(front, cutoff);
    assert(list[list.len() - 1] == list.last());
    if i < head.len() {
        lemma_recent_points(front, cutoff, i);
        let k = choose|k: int| 0 <= k < front.len() && front[k] == head[i];
        assert(list[k] == head[i]);
    }
}

/// The newest points of a series are those that are kept: one that is valid, recent, the first
/// of its moment and later than some kept one is kept too.
pub proof fn the_newest_points_are_kept(
    points: Seq<ProxyRef>,
    now: u64,
    kept: Seq<ProxyRef>,
    i: int,
    k: int,
)
    requires
        gex_proxy::is_normal_series(points, now, kept),
        87_000_000 <= now <= 0x7fff_ffff_ffff_ffff,
        0 <= i < points.len(),
        points[i].semantically_valid,
        points[i].observed_at >= now - 87_000_000,
        forall|j: int|
            0 <= j < points.len() && j != i ==> (#[trigger] points[j]).observed_at
                != points[i].observed_at,
        kept.len() < 320 || (0 <= k < kept.len() && kept[k].observed_at < points[i].observed_at),
    ensures
        kept.contains(points[i]),
{
    let cutoff = gex_history::sat_sub_i64(gex_proxy::signed_ms(now), 87_000_000);
    let recent = gex_history::recent_points(points, cutoff);
    let all = choose|all: Seq<ProxyRef>| #[trigger]
        records::oldest_per_moment(recent, all) && kept == lists::last_of(all, 320);
    let r = lemma_recent_kept(points, cutoff, i);
    assert forall|j: int| 0 <= j < r implies (#[trigger] recent[j]).moment()
        != recent[r].moment() by {
        lemma_recent_other(points, cutoff, i, r, j);
    }
    lemma_oldest_kept(recent, all, r);
    let a = choose|a: int| 0 <= a < all.len() && all[a] == points[i];
    let skipped = all.len() - kept.len();
    if a < skipped {
        assert(kept[k] == all[skipped + k]);
        lemma_ascending(recent, all, a, skipped + k);
    }
    assert(kept[a - skipped] == points[i]);
}

proof fn lemma_oldest_kept(source: Seq<ProxyRef>, out: Seq<ProxyRef>, i: int)
    requires
        records::oldest_per_moment(source, out),
        0 <= i < source.len(),
        forall|j: int| 0 <= j < i ==> (#[trigger] source[j]).moment() != source[i].moment(),
    ensures
        out.contains(source[i]),
{
    let before = |a: int, b: int| source[a].moment() < source[b].moment();
    let keep = |j: int| records::is_oldest(source, j);
    let at = choose|at: Seq<usize>| #[trigger]
        records::is_selection_at(source, out, keep, before, at);
    assert(keep(i));
    let k = choose|k: int| 0 <= k < at.len() && at[k] == i;
    assert(out[k] == source[at[k] as int]);
}

proof fn lemma_ascending(source: Seq<ProxyRef>, out: Seq<ProxyRef>, a: int, b: int)
    requires
        records::oldest_per_moment(source, out),
        0 <= a < b < out.len(),
    ensures
        out[a].observed_at < out[b].observed_at,
{
    let before = |a: int, b: int| source[a].moment() < source[b].moment();
    let keep = |j: int| records::is_oldest(source, j);
    let at = choose|at: Seq<usize>| #[trigger]
        records::is_selection_at(source, out, keep, before, at);
    assert(before(at[a] as int, at[b] as int));
    assert(out[a] == source[at[a] as int] && out[b] == source[at[b] as int]);
}

proof fn lemma_recent_kept(list: Seq<ProxyRef>, cutoff: i64, i: int) -> (r: int)
    requires
        0 <= i < list.len(),
        list[i].semantically_valid,
        list[i].observed_at >= cutoff,
    ensures
        0 <= r < gex_history::recent_points(list, cutoff).len(),
        gex_history::recent_points(list, cutoff)[r] == list[i],
        r == gex_history::recent_points(list.take(i), cutoff).len(),
    decreases list.len(),
{
    let front = list.drop_last();
    if i < front.len() {
        assert(front[i] == list[i]);
        assert(front.take(i) =~= list.take(i));
        lemma_recent_kept(front, cutoff, i)
    } else {
        assert(list.take(i) =~= front);
        gex_history::recent_points(front, cutoff).len() as int
    }
}

proof fn lemma_recent_front(list: Seq<ProxyRef>, cutoff: i64, i: int, j: int)
    requires
        0 <= i <= list.len(),
        0 <= j < gex_history::recent_points(list.take(i), cutoff).len(),
    ensures
        j < gex_history::recent_points(list, cutoff).len(),
        gex_history::recent_points(list, cutoff)[j] == gex_history::recent_points(
            list.take(i),
            cutoff,
        )[j],
    decreases list.len(),
{
    if i < list.len() {
        assert(list.drop_last().take(i) =~= list.take(i));
        lemma_recent_front(list.drop_last(), cutoff, i, j);
    } else {
        assert(list.take(i) =~= list);
    }
}

proof fn lemma_recent_other(list: Seq<ProxyRef>, cutoff: i64, i: int, r: int, j: int)
    requires
        0 <= i < list.len(),
        forall|j: int|
            0 <= j < list.len() && j != i ==> (#[trigger] list[j]).observed_at
                != list[i].observed_at,
        r == gex_history::recent_points(list.take(i), cutoff).len(),
        r < gex_history::recent_points(list, cutoff).len(),
        gex_history::recent_points(list, cutoff)[r] == list[i],
        0 <= j < r,
    ensures
        gex_history::recent_points(list, cutoff)[j].observed_at != list[i].observed_at,
{
    let front = list.take(i);
    lemma_recent_front(list, cutoff, i, j);
    lemma_recent_points(front, cutoff, j);
    let head = gex_history::recent_points(front, cutoff);
    let k = choose|k: int| 0 <= k < front.len() && front[k] == head[j];
    assert(list[k] == head[j]);
}

/// An answer with trades ends its request: they are fresh, the next request comes five seconds
/// later, and it overlaps the last trade by ten seconds. A failure keeps what was there.
pub proof fn answers_settle_the_maker_trades(
    before: DeriveState,
    result: Result<Vec<MakerTradeRef>, String>,
    now: u64,
    after: DeriveState,
    later: u64,
)
    requires
        DeriveState::trades_completed(before, result, now, after),
        before.instruments is Some && before.instruments->0.count > 0,
        now <= later,
        now + 120_000 <= 0xffff_ffff_ffff_ffff,
    ensures
        !after.trades_in_flight && !after.force_trades,
        after.instruments == before.instruments,
        result is Ok ==> (after.trades_due(later) <==> later >= now + 5_000),
        result is Ok && before.instrument_failure is None ==> after.freshness_at(now)
            == GexFreshness::Fresh,
        result is Ok && after.trades->0@.len() > 0 && after.trades->0@.last().timestamp.ms
            >= 10_000 ==> after.fetch_start(later) + 10_000
            == after.trades->0@.last().timestamp.ms,
        result is Err ==> after.trades == before.trades && after.watermark == before.watermark
            && after.freshness_at(later) == GexFreshness::Error,
        result is Err && before.trade_failure is None && before.trades_refreshed_at is None ==> (
        after.trades_due(later) <==> later >= now + 5_000),
{
    source_laws::pauses_grow_from_five_seconds(failure::attempts_after(before.trade_failure) as nat);
}

/// New instruments have trades asked for at once and are asked for again ten minutes later. An
/// empty list counts as a failure, and the instruments that were there stay.
pub proof fn new_instruments_have_trades_asked_for(
    before: DeriveState,
    result: Result<InstrumentList, String>,
    now: u64,
    after: DeriveState,
    later: u64,
)
    requires
        DeriveState::instruments_completed(before, result, now, after),
        now <= later,
        now + 600_000 <= 0xffff_ffff_ffff_ffff,
    ensures
        !after.instruments_in_flight && !after.force_instruments,
        after.trades == before.trades,
        result is Ok && result->Ok_0.count > 0 ==> {
            &&& after.instruments == Some(result->Ok_0)
            &&& after.trades_due(later) <==> !before.trades_in_flight
            &&& after.instruments_due(later) <==> later >= now + 600_000
            &&& after.instrument_failure is None
        },
        result is Err || result->Ok_0.count == 0 ==> after.instruments == before.instruments
            && after.freshness_at(later) == GexFreshness::Error,
{
}

/// New instruments have the market data of a chain asked for at once.
pub proof fn new_instruments_have_market_data_asked_for(
    before: DeribitState,
    result: Result<InstrumentList, String>,
    now: u64,
    after: DeribitState,
    later: u64,
)
    requires
        DeribitState::instruments_completed(before, result, now, after),
        now <= later < now + 600_000,
    ensures
        !after.instruments_in_flight,
        after.raw == before.raw,
        result is Ok && result->Ok_0.count > 0 ==> {
            &&& after.instruments is Some && after.instruments->0.values == result->Ok_0
            &&& after.due(later) == if before.snapshot_in_flight {
                None
            } else {
                Some(ChainRequest::Snapshot)
            }
        },
        result is Err || result->Ok_0.count == 0 ==> after.instruments == before.instruments
            && after.freshness_at(later) == GexFreshness::Error,
{
}

/// New market data is fresh, has every derived snapshot computed anew, and is asked for again
/// fifteen seconds later. A failure, or an empty chain, keeps the data that was there.
pub proof fn new_market_data_replaces_the_old(
    before: DeribitState,
    result: Result<ChainSnapshot, String>,
    now: u64,
    revision: u64,
    after: DeribitState,
    later: u64,
    key: SeriesModel,
)
    requires
        DeribitState::snapshot_completed(before, result, now, revision, after),
        before.instruments is Some,
        before.instruments->0.refreshed_at.ms <= now <= later
            < before.instruments->0.refreshed_at.ms + 600_000,
    ensures
        !after.snapshot_in_flight,
        after.instruments == before.instruments,
        result is Ok && result->Ok_0.contracts > 0 ==> {
            &&& after.raw is Some && after.raw->0.value == result->Ok_0 && after.raw->0.revision
                == revision
            &&& after.freshness_at(now) == GexFreshness::Fresh
            &&& after.lookup(key) == DerivedLookup::Compute(after.raw->0)
            &&& after.due(later) == if later >= now + 15_000 {
                Some(ChainRequest::Snapshot)
            } else {
                None
            }
        },
        result is Err || result->Ok_0.contracts == 0 ==> {
            &&& after.raw == before.raw
            &&& after.freshness_at(later) == GexFreshness::Error
            &&& after.lookup(key) == before.lookup(key)
        },
{
}

/// Maker trades that are kept are of the last day, in the order of time, no more than 50,000,
/// and each is the last one that came in for its id.
pub proof fn maker_trades_are_kept_in_order(
    trades: Seq<MakerTradeRef>,
    now: u64,
    kept: Seq<MakerTradeRef>,
    k: int,
)
    requires
        gex_derive::is_kept_trades(trades, now, kept),
        now >= 86_400_000,
        0 <= k < kept.len(),
    ensures
        kept.len() <= 50_000,
        now - 86_400_000 <= kept[k].timestamp.ms <= now,
        exists|i: int|
            0 <= i < trades.len() && kept[k] == #[trigger] trades[i] && forall|j: int|
                i < j < trades.len() ==> (#[trigger] trades[j]).trade_id@ != trades[i].trade_id@,
{
    let all = choose|all: Seq<MakerTradeRef>| #[trigger]
        gex_history::latest_per_id(trades, all) && kept == lists::last_of(
            gex_derive::in_retention(all, now),
            50_000,
        );
    let held = gex_derive::in_retention(all, now);
    let p = held.len() - kept.len() + k;
    assert(kept[k] == held[p]);
    let m = lemma_in_retention(all, now, p);
    let keep = |i: int| gex_history::is_latest_of_id(trades, i);
    let before = |i: int, j: int| gex_history::maker_before(trades[i], trades[j]);
    let at = choose|at: Seq<usize>| #[trigger]
        records::is_selection_at(trades, all, keep, before, at);
    let i = at[m] as int;
    assert(keep(i));
    assert(kept[k] == trades[i]);
}

proof fn lemma_in_retention(list: Seq<MakerTradeRef>, now: u64, p: int) -> (m: int)
    requires
        now >= 86_400_000,
        0 <= p < gex_derive::in_retention(list, now).len(),
    ensures
        0 <= m < list.len(),
        gex_derive::in_retention(list, now)[p] == list[m],
        now - 86_400_000 <= list[m].timestamp.ms <= now,
    decreases list.len(),
{
    let front = list.drop_last();
    if p < gex_derive::in_retention(front, now).len() {
        let m = lemma_in_retention(front, now, p);
        assert(front[m] == list[m]);
        m
    } else {
        list.len() - 1
    }
}

} // verus!
