//! What a read gives back of a store.
use vstd::prelude::*;
use crate::connector::buckets;
use crate::connector::buckets::CacheKind;
use crate::connector::cache_store;
use crate::connector::coverage;
use crate::connector::dataset;
use crate::connector::intervals;
use crate::connector::persistent_cache;
use crate::connector::persistent_cache::{BucketPlan, FetchedBucket, ReadOutcome, StoredBucket};
use crate::connector::records;
use crate::connector::records::{BubbleVolumeSummary, CacheRecord, Kline, OpenInterest, Timed};

verus! {

/// Each record belongs to a later moment than the one before.
pub open spec fn ascending_moments<T: Timed>(list: Seq<T>) -> bool {
    forall|i: int, j: int|
        0 <= i < j < list.len() ==> (#[trigger] list[i]).moment() < (#[trigger] list[j]).moment()
}

/// The newest record of each moment, wherever the list holds it, is in the normal form,
/// and the normal form has one record of a moment at most.
pub proof fn newest_records_are_kept<T: Timed>(source: Seq<T>, out: Seq<T>, i: int)
    requires
        records::newest_per_moment(source, out),
        0 <= i < source.len(),
        records::is_newest(source, i),
    ensures
        out.contains(source[i]),
        ascending_moments(out),
{
    let keep = |k: int| records::is_newest(source, k);
    let before = |a: int, b: int| source[a].moment() < source[b].moment();
    let at = choose|at: Seq<usize>| #[trigger]
        records::is_selection_at(source, out, keep, before, at);
    assert(keep(i));
    let k = choose|k: int| 0 <= k < at.len() && at[k] == i;
    assert(out[k] == source[at[k] as int]);
    lemma_newest_ascending(source, out);
}

proof fn lemma_newest_ascending<T: Timed>(source: Seq<T>, out: Seq<T>)
    requires
        records::newest_per_moment(source, out),
    ensures
        ascending_moments(out),
        forall|k: int| 0 <= k < out.len() ==> source.contains(#[trigger] out[k]),
{
    let keep = |k: int| records::is_newest(source, k);
    let before = |a: int, b: int| source[a].moment() < source[b].moment();
    let at = choose|at: Seq<usize>| #[trigger]
        records::is_selection_at(source, out, keep, before, at);
    assert forall|i: int, j: int| 0 <= i < j < out.len() implies (#[trigger] out[i]).moment() < (
    #[trigger] out[j]).moment() by {
        assert(before(at[i] as int, at[j] as int));
        assert(out[i] == source[at[i] as int]);
        assert(out[j] == source[at[j] as int]);
    }
    assert forall|k: int| 0 <= k < out.len() implies source.contains(#[trigger] out[k]) by {
        assert(out[k] == source[at[k] as int]);
    }
}

/// A list whose moments already ascend is its own normal form: normalising twice is
/// normalising once.
pub proof fn ascending_records_are_unchanged<T: Timed>(list: Seq<T>, out: Seq<T>)
    requires
        ascending_moments(list),
        list.len() <= usize::MAX,
        records::newest_per_moment(list, out),
    ensures
        out == list,
{
    let keep = |k: int| records::is_newest(list, k);
    let before = |a: int, b: int| list[a].moment() < list[b].moment();
    let at = Seq::new(list.len(), |k: int| k as usize);
    assert forall|k: int| 0 <= k < at.len() implies (#[trigger] at[k]) < list.len() && keep(
        at[k] as int,
    ) && list[k] == list[at[k] as int] by {
        assert(records::is_newest(list, k)) by {
            assert forall|j: int| k < j < list.len() implies (#[trigger] list[j]).moment()
                != list[k].moment() by {
                assert(list[k].moment() < list[j].moment());
            }
        }
    }
    assert forall|i: int| 0 <= i < list.len() && #[trigger] keep(i) implies exists|k: int|
        0 <= k < at.len() && at[k] == i by {
        assert(at[i] == i);
    }
    assert(records::is_selection_at(list, list, keep, before, at));
    records::lemma_selection_is_unique(list, out, list, keep, before);
}

proof fn lemma_group_keeps_newest<T: Timed>(list: Seq<T>, kind: CacheKind, start: u64, i: int)
    requires
        0 <= i < list.len(),
        records::is_newest(list, i),
        buckets::bucket_of(kind, list[i].moment() as int) == start,
    ensures
        exists|p: int|
            0 <= p < cache_store::of_bucket(list, kind, start).len() && #[trigger]
                cache_store::of_bucket(list, kind, start)[p] == list[i] && records::is_newest(
                cache_store::of_bucket(list, kind, start),
                p,
            ),
    decreases list.len(),
{
    let group = cache_store::of_bucket(list, kind, start);
    let front = list.drop_last();
    let head = cache_store::of_bucket(front, kind, start);
    if i == list.len() - 1 {
        assert(group =~= head.push(list.last()));
        assert(group[head.len() as int] == list[i]);
        assert(records::is_newest(group, head.len() as int));
    } else {
        assert(records::is_newest(front, i)) by {
            assert forall|j: int| i < j < front.len() implies (#[trigger] front[j]).moment()
                != front[i].moment() by {
                assert(list[j].moment() != list[i].moment());
            }
        }
        lemma_group_keeps_newest(front, kind, start, i);
        let p = choose|p: int|
            0 <= p < head.len() && #[trigger] head[p] == front[i] && records::is_newest(head, p);
        assert(group[p] == list[i]);
        assert(records::is_newest(group, p)) by {
            assert forall|j: int| p < j < group.len() implies (#[trigger] group[j]).moment()
                != group[p].moment() by {
                if j < head.len() {
                    assert(head[j].moment() != head[p].moment());
                } else {
                    assert(group[j] == list[list.len() - 1]);
                }
            }
        }
    }
}

/// Records of which the newest of each moment counts.
pub open spec fn keeps_newest<T: CacheRecord>() -> bool {
    forall|source: Seq<T>, out: Seq<T>| #[trigger]
        T::is_normal_form(source, out) == records::newest_per_moment(source, out)
}

/// Of candles, open interest and bubble summaries the newest of each moment counts.
pub proof fn all_but_trades_keep_the_newest()
    ensures
        keeps_newest::<Kline>(),
        keeps_newest::<OpenInterest>(),
        keeps_newest::<BubbleVolumeSummary>(),
{
}

/// The newest record of a bucket stays the newest among all that is gathered, whatever the
/// order of the buckets: no other bucket holds a record of its moment.
proof fn lemma_gathered_newest<T: Timed>(
    fetched: Seq<FetchedBucket<T>>,
    starts: Seq<u64>,
    kind: CacheKind,
    k: int,
    m: int,
) -> (q: int)
    requires
        fetched.len() == starts.len(),
        forall|i: int, j: int|
            0 <= i < j < starts.len() ==> (#[trigger] starts[i]) != (#[trigger] starts[j]),
        forall|i: int, p: int|
            0 <= i < fetched.len() && 0 <= p < dataset::fetched_records(fetched[i]).len()
                ==> buckets::bucket_of(
                kind,
                (#[trigger] dataset::fetched_records(fetched[i])[p]).moment() as int,
            ) == starts[i],
        0 <= k < fetched.len(),
        0 <= m < dataset::fetched_records(fetched[k]).len(),
        records::is_newest(dataset::fetched_records(fetched[k]), m),
    ensures
        0 <= q < persistent_cache::gathered(fetched).len(),
        persistent_cache::gathered(fetched)[q] == dataset::fetched_records(fetched[k])[m],
        records::is_newest(persistent_cache::gathered(fetched), q),
    decreases fetched.len(),
{
    let front = fetched.drop_last();
    let last = fetched.len() - 1;
    let head = persistent_cache::gathered(front);
    let tail = dataset::fetched_records(fetched[last]);
    let whole = persistent_cache::gathered(fetched);
    let record = dataset::fetched_records(fetched[k])[m];
    assert(whole =~= head + tail);
    if k == last {
        let q = head.len() + m;
        assert forall|j: int| q < j < whole.len() implies (#[trigger] whole[j]).moment()
            != whole[q].moment() by {
            assert(tail[j - head.len()].moment() != tail[m].moment());
        }
        q
    } else {
        assert forall|i: int, p: int|
            0 <= i < front.len() && 0 <= p < dataset::fetched_records(front[i]).len() implies
            buckets::bucket_of(
                kind,
                (#[trigger] dataset::fetched_records(front[i])[p]).moment() as int,
            ) == starts.drop_last()[i] by {
            assert(front[i] == fetched[i]);
        }
        assert(front[k] == fetched[k]);
        let q = lemma_gathered_newest(front, starts.drop_last(), kind, k, m);
        assert forall|j: int| q < j < whole.len() implies (#[trigger] whole[j]).moment()
            != whole[q].moment() by {
            if j < head.len() {
                assert(head[j].moment() != head[q].moment());
            } else {
                let p = j - head.len();
                assert(buckets::bucket_of(kind, tail[p].moment() as int) == starts[last]);
                assert(buckets::bucket_of(kind, record.moment() as int) == starts[k]);
                assert(starts[k] != starts[last]);
            }
        }
        q
    }
}

proof fn lemma_within_newest<T: Timed>(list: Seq<T>, from: u64, to_exclusive: u64, q: int) -> (p:
    int)
    requires
        0 <= q < list.len(),
        records::is_newest(list, q),
        from <= list[q].moment() < to_exclusive,
    ensures
        0 <= p < persistent_cache::within(list, from, to_exclusive).len(),
        persistent_cache::within(list, from, to_exclusive)[p] == list[q],
        records::is_newest(persistent_cache::within(list, from, to_exclusive), p),
    decreases list.len(),
{
    let front = list.drop_last();
    let head = persistent_cache::within(front, from, to_exclusive);
    let kept = persistent_cache::within(list, from, to_exclusive);
    if q == list.len() - 1 {
        assert(kept =~= head.push(list.last()));
        head.len() as int
    } else {
        assert forall|j: int| q < j < front.len() implies (#[trigger] front[j]).moment()
            != front[q].moment() by {
            assert(list[j].moment() != list[q].moment());
        }
        let p = lemma_within_newest(front, from, to_exclusive, q);
        assert forall|j: int| p < j < kept.len() implies (#[trigger] kept[j]).moment()
            != kept[p].moment() by {
            if j < head.len() {
                assert(head[j].moment() != head[p].moment());
            } else {
                assert(kept[j] == list[list.len() - 1]);
            }
        }
        p
    }
}

/// Whatever lies in the cache and is asked for is read: the newest record of each moment of
/// a bucket comes back from every read of a range that holds it, be it a prefix, a suffix or
/// only partly covered.
pub proof fn cached_records_are_read<T: CacheRecord>(
    covered: Seq<(u64, u64)>,
    stored: Map<u64, StoredBucket<T>>,
    kind: CacheKind,
    dataset_key: Seq<char>,
    from: u64,
    to_exclusive: u64,
    record_from: u64,
    plan: BucketPlan,
    fetched: Seq<FetchedBucket<T>>,
    outcome: ReadOutcome<T>,
    start: u64,
    m: int,
)
    requires
        keeps_newest::<T>(),
        dataset::is_sound(covered, stored, kind, dataset_key),
        dataset::is_read(
            covered,
            stored,
            kind,
            dataset_key,
            from,
            to_exclusive,
            record_from,
            plan,
            fetched,
            outcome,
        ),
        0 <= m < dataset::records_at(stored, start).len(),
        records::is_newest(dataset::records_at(stored, start), m),
        dataset::is_asked_for(
            covered,
            from,
            to_exclusive,
            record_from,
            dataset::records_at(stored, start)[m].moment(),
        ),
    ensures
        outcome matches ReadOutcome::Slice(slice) && slice.records@.contains(
            dataset::records_at(stored, start)[m],
        ),
{
    let record = dataset::records_at(stored, start)[m];
    dataset::sound_datasets_are_read(
        covered,
        stored,
        kind,
        dataset_key,
        from,
        to_exclusive,
        record_from,
        plan,
        fetched,
        outcome,
    );
    dataset::lemma_fetched(covered, stored, kind, dataset_key, plan, fetched);
    dataset::lemma_plan(plan, kind, covered, from, to_exclusive, record_from);
    assert(buckets::bucket_of(kind, record.moment() as int) == start);
    let k = dataset::lemma_asked_for_is_planned(
        plan,
        kind,
        covered,
        from,
        to_exclusive,
        record_from,
        record.moment(),
    );
    let starts = plan.buckets@.map_values(|entry: (u64, bool)| entry.0);
    assert(dataset::fetched_records(fetched[k]) == dataset::records_at(stored, start));
    assert forall|i: int, p: int|
        0 <= i < fetched.len() && 0 <= p < dataset::fetched_records(fetched[i]).len() implies
        buckets::bucket_of(
            kind,
            (#[trigger] dataset::fetched_records(fetched[i])[p]).moment() as int,
        ) == starts[i] by {
        assert(dataset::records_at(stored, plan.buckets@[i].0)[p] == dataset::fetched_records(
            fetched[i],
        )[p]);
    }
    let q = lemma_gathered_newest(fetched, starts, kind, k, m);
    let whole = persistent_cache::gathered(fetched);
    let p = lemma_within_newest(whole, record_from, to_exclusive, q);
    newest_records_are_kept(
        persistent_cache::within(whole, record_from, to_exclusive),
        outcome->Slice_0.records@,
        p,
    );
}

/// Where a record of a list of ascending moments lies.
proof fn lemma_place_of<T: Timed>(list: Seq<T>, record: T) -> (m: int)
    requires
        ascending_moments(list),
        list.contains(record),
    ensures
        0 <= m < list.len(),
        list[m] == record,
        records::is_newest(list, m),
{
    let m = choose|m: int| 0 <= m < list.len() && list[m] == record;
    assert forall|j: int| m < j < list.len() implies (#[trigger] list[j]).moment()
        != list[m].moment() by {
        assert(list[m].moment() < list[j].moment());
    }
    m
}

/// Every record of a store that is the newest of its moment there is read back, by every
/// later read that asks for its moment. The read may ask for any prefix or suffix of what
/// was stored, be covered in part only, and start earlier.
pub proof fn stored_records_are_read_back<T: CacheRecord>(
    covered_before: Seq<(u64, u64)>,
    covered: Seq<(u64, u64)>,
    before: Map<u64, StoredBucket<T>>,
    stored: Map<u64, StoredBucket<T>>,
    kind: CacheKind,
    dataset_key: Seq<char>,
    stored_from: u64,
    stored_to: u64,
    new_records: Seq<T>,
    groups: Seq<(u64, Vec<T>)>,
    from: u64,
    to_exclusive: u64,
    record_from: u64,
    plan: BucketPlan,
    fetched: Seq<FetchedBucket<T>>,
    outcome: ReadOutcome<T>,
    i: int,
)
    requires
        keeps_newest::<T>(),
        dataset::is_sound(covered_before, before, kind, dataset_key),
        dataset::buckets_after_store(
            before,
            stored,
            kind,
            dataset_key,
            stored_from,
            stored_to,
            new_records,
            groups,
        ),
        coverage::coverage_after_store(covered_before, covered, stored_from, stored_to),
        dataset::is_read(
            covered,
            stored,
            kind,
            dataset_key,
            from,
            to_exclusive,
            record_from,
            plan,
            fetched,
            outcome,
        ),
        0 <= i < new_records.len(),
        records::is_newest(new_records, i),
        dataset::is_asked_for(covered, from, to_exclusive, record_from, new_records[i].moment()),
    ensures
        outcome matches ReadOutcome::Slice(slice) && slice.records@.contains(new_records[i]),
{
    let record = new_records[i];
    let moment = record.moment() as int;
    buckets::lemma_bucket_of_holds(kind, moment);
    let start = buckets::bucket_of(kind, moment) as u64;
    dataset::stores_keep_datasets_sound(
        covered_before,
        covered,
        before,
        stored,
        kind,
        dataset_key,
        stored_from,
        stored_to,
        new_records,
        groups,
    );
    dataset::lemma_bucket_after_store(
        covered_before,
        before,
        stored,
        kind,
        dataset_key,
        stored_from,
        stored_to,
        new_records,
        groups,
        start,
    );
    let old_records = dataset::records_at(before, start);
    let added = cache_store::of_bucket(new_records, kind, start);
    let source = old_records + added;
    lemma_group_keeps_newest(new_records, kind, start, i);
    let p = choose|p: int|
        0 <= p < added.len() && #[trigger] added[p] == record && records::is_newest(added, p);
    let s = old_records.len() + p;
    assert(source[s] == record);
    assert forall|j: int| s < j < source.len() implies (#[trigger] source[j]).moment()
        != source[s].moment() by {
        assert(added[j - old_records.len()].moment() != added[p].moment());
    }
    newest_records_are_kept(source, dataset::records_at(stored, start), s);
    let m = lemma_place_of(dataset::records_at(stored, start), record);
    cached_records_are_read(
        covered,
        stored,
        kind,
        dataset_key,
        from,
        to_exclusive,
        record_from,
        plan,
        fetched,
        outcome,
        start,
        m,
    );
}

/// A record that was held before a store is still read back after it, unless the store
/// brought a record of the same moment.
pub proof fn held_records_are_read_back<T: CacheRecord>(
    covered_before: Seq<(u64, u64)>,
    covered: Seq<(u64, u64)>,
    before: Map<u64, StoredBucket<T>>,
    stored: Map<u64, StoredBucket<T>>,
    kind: CacheKind,
    dataset_key: Seq<char>,
    stored_from: u64,
    stored_to: u64,
    new_records: Seq<T>,
    groups: Seq<(u64, Vec<T>)>,
    from: u64,
    to_exclusive: u64,
    record_from: u64,
    plan: BucketPlan,
    fetched: Seq<FetchedBucket<T>>,
    outcome: ReadOutcome<T>,
    start: u64,
    m: int,
)
    requires
        keeps_newest::<T>(),
        dataset::is_sound(covered_before, before, kind, dataset_key),
        dataset::buckets_after_store(
            before,
            stored,
            kind,
            dataset_key,
            stored_from,
            stored_to,
            new_records,
            groups,
        ),
        coverage::coverage_after_store(covered_before, covered, stored_from, stored_to),
        dataset::is_read(
            covered,
            stored,
            kind,
            dataset_key,
            from,
            to_exclusive,
            record_from,
            plan,
            fetched,
            outcome,
        ),
        0 <= m < dataset::records_at(before, start).len(),
        records::is_newest(dataset::records_at(before, start), m),
        forall|i: int|
            0 <= i < new_records.len() ==> (#[trigger] new_records[i]).moment()
                != dataset::records_at(before, start)[m].moment(),
        dataset::is_asked_for(
            covered,
            from,
            to_exclusive,
            record_from,
            dataset::records_at(before, start)[m].moment(),
        ),
    ensures
        outcome matches ReadOutcome::Slice(slice) && slice.records@.contains(
            dataset::records_at(before, start)[m],
        ),
{
    let old_records = dataset::records_at(before, start);
    let record = old_records[m];
    dataset::stores_keep_datasets_sound(
        covered_before,
        covered,
        before,
        stored,
        kind,
        dataset_key,
        stored_from,
        stored_to,
        new_records,
        groups,
    );
    dataset::lemma_bucket_after_store(
        covered_before,
        before,
        stored,
        kind,
        dataset_key,
        stored_from,
        stored_to,
        new_records,
        groups,
        start,
    );
    let added = cache_store::of_bucket(new_records, kind, start);
    let source = old_records + added;
    let at = if cache_store::is_touched(new_records, kind, stored_from, stored_to, start) {
        assert(source[m] == record);
        assert forall|j: int| m < j < source.len() implies (#[trigger] source[j]).moment()
            != source[m].moment() by {
            if j < old_records.len() {
                assert(old_records[j].moment() != old_records[m].moment());
            } else {
                let p = j - old_records.len();
                dataset::lemma_group_members(new_records, kind, start, p);
                let i = choose|i: int| 0 <= i < new_records.len() && new_records[i] == added[p];
                assert(new_records[i].moment() != record.moment());
            }
        }
        newest_records_are_kept(source, dataset::records_at(stored, start), m);
        lemma_place_of(dataset::records_at(stored, start), record)
    } else {
        m
    };
    cached_records_are_read(
        covered,
        stored,
        kind,
        dataset_key,
        from,
        to_exclusive,
        record_from,
        plan,
        fetched,
        outcome,
        start,
        at,
    );
}

/// After a store a read returns stored records only: each one was stored now, or was held
/// before and no record of its moment was stored now.
pub proof fn read_returns_stored_records_only<T: CacheRecord>(
    covered_before: Seq<(u64, u64)>,
    covered: Seq<(u64, u64)>,
    before: Map<u64, StoredBucket<T>>,
    stored: Map<u64, StoredBucket<T>>,
    kind: CacheKind,
    dataset_key: Seq<char>,
    stored_from: u64,
    stored_to: u64,
    new_records: Seq<T>,
    groups: Seq<(u64, Vec<T>)>,
    from: u64,
    to_exclusive: u64,
    record_from: u64,
    plan: BucketPlan,
    fetched: Seq<FetchedBucket<T>>,
    outcome: ReadOutcome<T>,
    q: int,
)
    requires
        keeps_newest::<T>(),
        dataset::is_sound(covered_before, before, kind, dataset_key),
        dataset::buckets_after_store(
            before,
            stored,
            kind,
            dataset_key,
            stored_from,
            stored_to,
            new_records,
            groups,
        ),
        coverage::coverage_after_store(covered_before, covered, stored_from, stored_to),
        dataset::is_read(
            covered,
            stored,
            kind,
            dataset_key,
            from,
            to_exclusive,
            record_from,
            plan,
            fetched,
            outcome,
        ),
        outcome is Slice,
        0 <= q < outcome->Slice_0.records@.len(),
    ensures
        record_from <= outcome->Slice_0.records@[q].moment() < to_exclusive,
        new_records.contains(outcome->Slice_0.records@[q]) || ((exists|b: u64|
            (#[trigger] dataset::records_at(before, b)).contains(outcome->Slice_0.records@[q]))
            && forall|i: int|
            0 <= i < new_records.len() ==> (#[trigger] new_records[i]).moment()
                != outcome->Slice_0.records@[q].moment()),
{
    let record = outcome->Slice_0.records@[q];
    dataset::stores_keep_datasets_sound(
        covered_before,
        covered,
        before,
        stored,
        kind,
        dataset_key,
        stored_from,
        stored_to,
        new_records,
        groups,
    );
    let start = dataset::reads_return_stored_records_only(
        covered,
        stored,
        kind,
        dataset_key,
        from,
        to_exclusive,
        record_from,
        plan,
        fetched,
        outcome,
        q,
    );
    dataset::lemma_bucket_after_store(
        covered_before,
        before,
        stored,
        kind,
        dataset_key,
        stored_from,
        stored_to,
        new_records,
        groups,
        start,
    );
    let old_records = dataset::records_at(before, start);
    let added = cache_store::of_bucket(new_records, kind, start);
    let source = old_records + added;
    let now = dataset::records_at(stored, start);
    let touched = cache_store::is_touched(new_records, kind, stored_from, stored_to, start);
    if !touched {
        assert(source =~= now);
    } else {
        lemma_newest_ascending(source, now);
    }
    let m = choose|m: int| 0 <= m < now.len() && now[m] == record;
    assert(source.contains(now[m]));
    if !new_records.contains(record) {
        let p = choose|p: int| 0 <= p < source.len() && source[p] == record;
        if p >= old_records.len() {
            dataset::lemma_group_members(new_records, kind, start, p - old_records.len());
        }
        assert(old_records[p] == record);
        assert forall|i: int| 0 <= i < new_records.len() implies (
        #[trigger] new_records[i]).moment() != record.moment() by {
            if new_records[i].moment() == record.moment() {
                // The newest record of that moment was stored and lies there instead.
                let n = lemma_newest_of(new_records, i);
                assert(touched);
                lemma_group_keeps_newest(new_records, kind, start, n);
                let g = choose|g: int|
                    0 <= g < added.len() && #[trigger] added[g] == new_records[n]
                        && records::is_newest(added, g);
                let s = old_records.len() + g;
                assert(source[s] == new_records[n]);
                assert forall|j: int| s < j < source.len() implies (#[trigger] source[j]).moment()
                    != source[s].moment() by {
                    assert(added[j - old_records.len()].moment() != added[g].moment());
                }
                newest_records_are_kept(source, now, s);
                let r = choose|r: int| 0 <= r < now.len() && now[r] == new_records[n];
                if r < m {
                    assert(now[r].moment() < now[m].moment());
                } else if m < r {
                    assert(now[m].moment() < now[r].moment());
                }
                assert(new_records.contains(record));
            }
        }
    }
}

/// Some record of the moment is the newest of it.
proof fn lemma_newest_of<T: Timed>(list: Seq<T>, i: int) -> (n: int)
    requires
        0 <= i < list.len(),
    ensures
        i <= n < list.len(),
        list[n].moment() == list[i].moment(),
        records::is_newest(list, n),
    decreases list.len() - i,
{
    if records::is_newest(list, i) {
        i
    } else {
        let j = choose|j: int|
            i < j < list.len() && (#[trigger] list[j]).moment() == list[i].moment();
        lemma_newest_of(list, j)
    }
}

/// Once a range was stored, a read of any part of it finds no gap.
pub proof fn stored_ranges_are_complete(
    before: Seq<(u64, u64)>,
    after: Seq<(u64, u64)>,
    from: u64,
    to_exclusive: u64,
    read_from: u64,
    read_to: u64,
)
    requires
        coverage::coverage_after_store(before, after, from, to_exclusive),
        from <= read_from,
        read_to <= to_exclusive,
    ensures
        intervals::request_gaps(after, read_from, read_to).len() == 0,
{
    intervals::covered_request_has_no_gaps(after, read_from, read_to);
}

} // verus!
