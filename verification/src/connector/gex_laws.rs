//! What a read gives back of cached gamma-exposure data.
use vstd::prelude::*;
use crate::connector::buckets::{CACHE_SCHEMA, HOURLY_BUCKET_MS};
use crate::connector::cache_laws;
use crate::connector::gex_history;
use crate::connector::gex_history::{
    MakerTradeRef, ProxyRef, SnapshotBucket, SnapshotEntry, SnapshotRef, MAX_MAKER_TRADES,
    MAX_PROXY_RECORDS, PROXY_RETENTION_MS,
};
use crate::connector::keys;
use crate::connector::records;
use crate::connector::records::Timed;
use crate::lists;
use crate::text;
use crate::units;

verus! {

/// The first record of a moment is in the normal form.
proof fn lemma_oldest_is_kept(source: Seq<SnapshotRef>, out: Seq<SnapshotRef>, i: int)
    requires
        records::oldest_per_moment(source, out),
        0 <= i < source.len(),
        records::is_oldest(source, i),
    ensures
        out.contains(source[i]),
{
    let keep = |i: int| records::is_oldest(source, i);
    let before = |i: int, j: int| source[i].moment() < source[j].moment();
    let at = choose|at: Seq<usize>| #[trigger]
        records::is_selection_at(source, out, keep, before, at);
    assert(keep(i));
    let k = choose|k: int| 0 <= k < at.len() && at[k] == i;
    assert(out[k] == source[at[k] as int]);
}

/// Some record of the moment is the first of it.
proof fn lemma_oldest_of(source: Seq<SnapshotRef>, i: int) -> (n: int)
    requires
        0 <= i < source.len(),
    ensures
        0 <= n <= i,
        source[n].moment() == source[i].moment(),
        records::is_oldest(source, n),
    decreases i,
{
    if records::is_oldest(source, i) {
        i
    } else {
        let j = choose|j: int| 0 <= j < i && (#[trigger] source[j]).moment() == source[i].moment();
        lemma_oldest_of(source, j)
    }
}

proof fn lemma_admitted(list: Seq<SnapshotRef>, from: u64, to: u64, snapshot: SnapshotRef)
    ensures
        gex_history::admitted(list, from, to).contains(snapshot) == (list.contains(snapshot)
            && gex_history::is_admitted(snapshot, from, to)),
    decreases list.len(),
{
    if list.len() > 0 {
        let front = list.drop_last();
        let head = gex_history::admitted(front, from, to);
        let kept = gex_history::admitted(list, from, to);
        lemma_admitted(front, from, to, snapshot);
        if list.contains(snapshot) {
            let m = choose|m: int| 0 <= m < list.len() && list[m] == snapshot;
            if m < front.len() {
                assert(front[m] == snapshot);
                if head.contains(snapshot) {
                    let k = choose|k: int| 0 <= k < head.len() && head[k] == snapshot;
                    assert(kept[k] == snapshot);
                }
            } else if gex_history::is_admitted(snapshot, from, to) {
                assert(kept[head.len() as int] == snapshot);
            }
        }
        if kept.contains(snapshot) {
            let k = choose|k: int| 0 <= k < kept.len() && kept[k] == snapshot;
            if k < head.len() {
                assert(head[k] == snapshot);
                let m = choose|m: int| 0 <= m < front.len() && front[m] == snapshot;
                assert(list[m] == snapshot);
            } else {
                assert(list[list.len() - 1] == snapshot);
            }
        }
    }
}

/// A read of the request uses the entry.
pub open spec fn is_usable(entry: SnapshotEntry, dataset: Seq<char>, from: u64, to: u64) -> bool {
    &&& gex_history::is_requested(dataset, entry.key@, from, to)
    &&& entry.bucket matches Some(bucket) && bucket.schema == CACHE_SCHEMA
        && bucket.dataset_key@ == dataset && Some(bucket.bucket_start) == keys::key_bucket(
        dataset,
        entry.key@,
    )
}

proof fn lemma_tally_holds(
    entries: Seq<SnapshotEntry>,
    dataset: Seq<char>,
    from: u64,
    to: u64,
    e: int,
    snapshot: SnapshotRef,
)
    requires
        0 <= e < entries.len(),
        is_usable(entries[e], dataset, from, to),
        entries[e].bucket->0.records@.contains(snapshot),
        gex_history::is_admitted(snapshot, from, to),
    ensures
        gex_history::tally(entries, dataset, from, to).snapshots.contains(snapshot),
    decreases entries.len(),
{
    let front = entries.drop_last();
    let before = gex_history::tally(front, dataset, from, to).snapshots;
    let after = gex_history::tally(entries, dataset, from, to).snapshots;
    if e < front.len() {
        lemma_tally_holds(front, dataset, from, to, e, snapshot);
        let k = choose|k: int| 0 <= k < before.len() && before[k] == snapshot;
        assert(after[k] == snapshot);
    } else {
        let list = entries[e].bucket->0.records@;
        lemma_admitted(list, from, to, snapshot);
        let kept = gex_history::admitted(list, from, to);
        let k = choose|k: int| 0 <= k < kept.len() && kept[k] == snapshot;
        assert(after[before.len() + k] == snapshot);
    }
}

proof fn lemma_tally_source(
    entries: Seq<SnapshotEntry>,
    dataset: Seq<char>,
    from: u64,
    to: u64,
    q: int,
) -> (e: int)
    requires
        0 <= q < gex_history::tally(entries, dataset, from, to).snapshots.len(),
    ensures
        0 <= e < entries.len(),
        is_usable(entries[e], dataset, from, to),
        entries[e].bucket->0.records@.contains(
            gex_history::tally(entries, dataset, from, to).snapshots[q],
        ),
        gex_history::is_admitted(
            gex_history::tally(entries, dataset, from, to).snapshots[q],
            from,
            to,
        ),
    decreases entries.len(),
{
    let front = entries.drop_last();
    let before = gex_history::tally(front, dataset, from, to).snapshots;
    let after = gex_history::tally(entries, dataset, from, to).snapshots;
    if q < before.len() {
        let e = lemma_tally_source(front, dataset, from, to, q);
        assert(after[q] == before[q]);
        e
    } else {
        let last = entries.len() - 1;
        let list = entries[last].bucket->0.records@;
        let kept = gex_history::admitted(list, from, to);
        assert(kept[q - before.len()] == after[q]);
        assert(kept.contains(after[q]));
        lemma_admitted(list, from, to, after[q]);
        last
    }
}

/// What a store of a valid snapshot leaves in its bucket.
pub open spec fn is_stored(
    dataset: Seq<char>,
    existing: Option<SnapshotBucket>,
    snapshot: SnapshotRef,
    bucket: SnapshotBucket,
) -> bool {
    &&& snapshot.semantically_valid
    &&& bucket.schema == CACHE_SCHEMA
    &&& bucket.dataset_key@ == dataset
    &&& bucket.bucket_start == snapshot.observed_at.ms as int / (HOURLY_BUCKET_MS as int) * (
    HOURLY_BUCKET_MS as int)
    &&& records::oldest_per_moment(
        gex_history::valid_only(gex_history::held_snapshots(existing, dataset).push(snapshot)),
        bucket.records@,
    )
}

/// After a store, a read of a range with the moment of the snapshot gives a snapshot of
/// that moment; it is the stored one unless another of the same moment was there.
pub proof fn stored_snapshots_are_read_back(
    dataset: Seq<char>,
    existing: Option<SnapshotBucket>,
    snapshot: SnapshotRef,
    bucket: SnapshotBucket,
    entries: Seq<SnapshotEntry>,
    e: int,
    from: u64,
    to: u64,
    result: Seq<SnapshotRef>,
)
    requires
        is_stored(dataset, existing, snapshot, bucket),
        0 <= e < entries.len(),
        entries[e].key@ == keys::gex_bucket_text(dataset, bucket.bucket_start),
        entries[e].bucket == Some(bucket),
        from <= snapshot.observed_at.ms <= to,
        records::oldest_per_moment(
            gex_history::tally(entries, dataset, from, to).snapshots,
            result,
        ),
    ensures
        exists|k: int| 0 <= k < result.len() && (#[trigger] result[k]).moment() == snapshot.moment(),
        (forall|j: int, m: int|
            0 <= j < entries.len() && is_usable(entries[j], dataset, from, to) && 0 <= m
                < entries[j].bucket->0.records@.len() && (
            #[trigger] entries[j].bucket->0.records@[m]).moment() == snapshot.moment()
                ==> entries[j].bucket->0.records@[m] == snapshot) ==> result.contains(snapshot),
{
    let added = gex_history::held_snapshots(existing, dataset).push(snapshot);
    let valid = gex_history::valid_only(added);
    let start = bucket.bucket_start;
    assert(added[added.len() - 1] == snapshot);
    lemma_admitted(added, 0, u64::MAX, snapshot);
    let v = choose|v: int| 0 <= v < valid.len() && valid[v] == snapshot;
    let n = lemma_oldest_of(valid, v);
    let held = valid[n];
    assert(valid.contains(held));
    lemma_admitted(added, 0, u64::MAX, held);
    lemma_oldest_is_kept(valid, bucket.records@, n);
    keys::snapshot_keys_name_their_bucket(dataset, start);
    assert(start <= snapshot.observed_at.ms);
    assert(units::sat_add(start, HOURLY_BUCKET_MS) >= from) by {
        let moment = snapshot.observed_at.ms as int;
        assert(moment < moment / 3_600_000 * 3_600_000 + 3_600_000);
    }
    assert(is_usable(entries[e], dataset, from, to));
    lemma_tally_holds(entries, dataset, from, to, e, held);
    let all = gex_history::tally(entries, dataset, from, to).snapshots;
    let a = choose|a: int| 0 <= a < all.len() && all[a] == held;
    let first = lemma_oldest_of(all, a);
    lemma_oldest_is_kept(all, result, first);
    let k = choose|k: int| 0 <= k < result.len() && result[k] == all[first];
    assert(result[k].moment() == snapshot.moment());
    if forall|j: int, m: int|
        0 <= j < entries.len() && is_usable(entries[j], dataset, from, to) && 0 <= m
            < entries[j].bucket->0.records@.len() && (
        #[trigger] entries[j].bucket->0.records@[m]).moment() == snapshot.moment()
            ==> entries[j].bucket->0.records@[m] == snapshot {
        let j = lemma_tally_source(entries, dataset, from, to, first);
        let list = entries[j].bucket->0.records@;
        let m = choose|m: int| 0 <= m < list.len() && list[m] == all[first];
        assert(entries[j].bucket->0.records@[m] == snapshot);
    }
}

proof fn lemma_recent_points(list: Seq<ProxyRef>, cutoff: i64)
    ensures
        forall|k: int|
            0 <= k < gex_history::recent_points(list, cutoff).len() ==> (
            #[trigger] gex_history::recent_points(list, cutoff)[k]).semantically_valid
                && gex_history::recent_points(list, cutoff)[k].observed_at >= cutoff,
    decreases list.len(),
{
    if list.len() > 0 {
        lemma_recent_points(list.drop_last(), cutoff);
        let head = gex_history::recent_points(list.drop_last(), cutoff);
        let kept = gex_history::recent_points(list, cutoff);
        assert forall|k: int| 0 <= k < kept.len() implies (#[trigger] kept[k]).semantically_valid
            && kept[k].observed_at >= cutoff by {
            if k < head.len() {
                assert(kept[k] == head[k]);
            }
        }
    }
}

proof fn lemma_all_recent(list: Seq<ProxyRef>, cutoff: i64)
    requires
        forall|k: int|
            0 <= k < list.len() ==> (#[trigger] list[k]).semantically_valid && list[k].observed_at
                >= cutoff,
    ensures
        gex_history::recent_points(list, cutoff) == list,
    decreases list.len(),
{
    if list.len() > 0 {
        lemma_all_recent(list.drop_last(), cutoff);
        assert(list.drop_last().push(list.last()) =~= list);
    }
}

/// The cached form of the proxy series is ascending and is its own cached form: what was
/// stored is read back unchanged at the same moment.
pub proof fn cached_series_is_read_back(
    points: Seq<ProxyRef>,
    now_ms: i64,
    stored: Seq<ProxyRef>,
    read: Seq<ProxyRef>,
)
    requires
        gex_history::is_cached_series(points, now_ms, stored),
        gex_history::is_cached_series(stored, now_ms, read),
    ensures
        cache_laws::ascending_moments(stored),
        read == stored,
{
    let cutoff = gex_history::sat_sub_i64(now_ms, PROXY_RETENTION_MS);
    let recent = gex_history::recent_points(points, cutoff);
    let all = choose|all: Seq<ProxyRef>| #[trigger]
        records::newest_per_moment(recent, all) && stored == lists::last_of(
            all,
            MAX_PROXY_RECORDS as nat,
        );
    lemma_recent_points(points, cutoff);
    let keep = |i: int| records::is_newest(recent, i);
    let before = |i: int, j: int| recent[i].moment() < recent[j].moment();
    let at = choose|at: Seq<usize>| #[trigger]
        records::is_selection_at(recent, all, keep, before, at);
    let shift = all.len() - stored.len();
    assert forall|k: int| 0 <= k < stored.len() implies (#[trigger] stored[k]).semantically_valid
        && stored[k].observed_at >= cutoff by {
        assert(stored[k] == all[k + shift]);
        assert(all[k + shift] == recent[at[k + shift] as int]);
    }
    assert forall|i: int, j: int| 0 <= i < j < stored.len() implies (
    #[trigger] stored[i]).moment() < (#[trigger] stored[j]).moment() by {
        assert(stored[i] == all[i + shift] && stored[j] == all[j + shift]);
        assert(all[i + shift] == recent[at[i + shift] as int]);
        assert(all[j + shift] == recent[at[j + shift] as int]);
        assert(before(at[i + shift] as int, at[j + shift] as int));
    }
    lemma_all_recent(stored, cutoff);
    let again = choose|again: Seq<ProxyRef>| #[trigger]
        records::newest_per_moment(stored, again) && read == lists::last_of(
            again,
            MAX_PROXY_RECORDS as nat,
        );
    cache_laws::ascending_records_are_unchanged(stored, again);
}

proof fn lemma_recent_trades(list: Seq<MakerTradeRef>, now: u64)
    ensures
        forall|k: int|
            0 <= k < gex_history::recent_trades(list, now).len() ==> gex_history::is_recent_trade(
                #[trigger] gex_history::recent_trades(list, now)[k],
                now,
            ),
    decreases list.len(),
{
    if list.len() > 0 {
        lemma_recent_trades(list.drop_last(), now);
        let head = gex_history::recent_trades(list.drop_last(), now);
        let kept = gex_history::recent_trades(list, now);
        assert forall|k: int| 0 <= k < kept.len() implies gex_history::is_recent_trade(
            #[trigger] kept[k],
            now,
        ) by {
            if k < head.len() {
                assert(kept[k] == head[k]);
            }
        }
    }
}

proof fn lemma_all_trades_recent(list: Seq<MakerTradeRef>, now: u64)
    requires
        forall|k: int| 0 <= k < list.len() ==> gex_history::is_recent_trade(#[trigger] list[k], now),
    ensures
        gex_history::recent_trades(list, now) == list,
    decreases list.len(),
{
    if list.len() > 0 {
        lemma_all_trades_recent(list.drop_last(), now);
        assert(list.drop_last().push(list.last()) =~= list);
    }
}

/// The cached form of maker trades is ordered, holds an id once, and is its own cached
/// form: what was stored is read back unchanged at the same moment.
pub proof fn cached_flow_is_read_back(
    trades: Seq<MakerTradeRef>,
    now: u64,
    stored: Seq<MakerTradeRef>,
    read: Seq<MakerTradeRef>,
)
    requires
        gex_history::is_cached_flow(trades, now, stored),
        gex_history::is_cached_flow(stored, now, read),
    ensures
        forall|i: int, j: int|
            0 <= i < j < stored.len() ==> gex_history::maker_before(
                #[trigger] stored[i],
                #[trigger] stored[j],
            ) && stored[i].trade_id@ != stored[j].trade_id@,
        read == stored,
{
    let recent = gex_history::recent_trades(trades, now);
    let all = choose|all: Seq<MakerTradeRef>| #[trigger]
        gex_history::latest_per_id(recent, all) && stored == lists::last_of(
            all,
            MAX_MAKER_TRADES as nat,
        );
    lemma_recent_trades(trades, now);
    let keep = |i: int| gex_history::is_latest_of_id(recent, i);
    let before = |i: int, j: int| gex_history::maker_before(recent[i], recent[j]);
    let at = choose|at: Seq<usize>| #[trigger]
        records::is_selection_at(recent, all, keep, before, at);
    let shift = all.len() - stored.len();
    assert forall|k: int| 0 <= k < stored.len() implies gex_history::is_recent_trade(
        #[trigger] stored[k],
        now,
    ) by {
        assert(stored[k] == all[k + shift]);
        assert(all[k + shift] == recent[at[k + shift] as int]);
    }
    assert forall|i: int, j: int| 0 <= i < j < stored.len() implies gex_history::maker_before(
        #[trigger] stored[i],
        #[trigger] stored[j],
    ) && stored[i].trade_id@ != stored[j].trade_id@ by {
        let a = at[i + shift] as int;
        let b = at[j + shift] as int;
        assert(stored[i] == all[i + shift] && stored[j] == all[j + shift]);
        assert(all[i + shift] == recent[at[i + shift] as int]);
        assert(all[j + shift] == recent[at[j + shift] as int]);
        assert(before(at[i + shift] as int, at[j + shift] as int));
        assert(keep(a) && keep(b));
        if stored[i].trade_id@ == stored[j].trade_id@ {
            text::lex_order_laws(stored[i].trade_id@, stored[i].trade_id@, stored[i].trade_id@);
            if a < b {
                assert(recent[b].trade_id@ != recent[a].trade_id@);
            } else if b < a {
                assert(recent[a].trade_id@ != recent[b].trade_id@);
            }
        }
    }
    lemma_all_trades_recent(stored, now);
    let again = choose|again: Seq<MakerTradeRef>| #[trigger]
        gex_history::latest_per_id(stored, again) && read == lists::last_of(
            again,
            MAX_MAKER_TRADES as nat,
        );
    let kept = |i: int| gex_history::is_latest_of_id(stored, i);
    let ordered = |i: int, j: int| gex_history::maker_before(stored[i], stored[j]);
    let same = Seq::new(stored.len(), |k: int| k as usize);
    assert(records::is_selection_at(stored, stored, kept, ordered, same)) by {
        assert forall|i: int| 0 <= i < stored.len() && #[trigger] kept(i) implies exists|k: int|
            0 <= k < same.len() && same[k] == i by {
            assert(same[i] == i);
        }
    }
    assert forall|i: int, j: int| #[trigger] ordered(i, j) implies !ordered(j, i) by {
        text::lex_order_laws(stored[i].trade_id@, stored[j].trade_id@, stored[i].trade_id@);
    }
    records::lemma_selection_is_unique(stored, again, stored, kept, ordered);
}

} // verus!
