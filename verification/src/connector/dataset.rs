//! A dataset of the cache as a whole: what a store makes of it and what a read finds in it.
use vstd::prelude::*;
use crate::connector::buckets;
use crate::connector::buckets::CacheKind;
use crate::connector::cache_store;
use crate::connector::coverage;
use crate::connector::intervals;
use crate::connector::persistent_cache;
use crate::connector::persistent_cache::{BucketPlan, FetchedBucket, ReadOutcome, StoredBucket};
use crate::connector::records::{CacheRecord, Timed};

verus! {

/// A dataset that can be trusted: each bucket is what is expected at its start, and the
/// bucket of every covered moment is there.
pub open spec fn is_sound<T: CacheRecord>(
    covered: Seq<(u64, u64)>,
    stored: Map<u64, StoredBucket<T>>,
    kind: CacheKind,
    dataset_key: Seq<char>,
) -> bool {
    &&& intervals::disjoint_ascending(covered)
    &&& forall|start: u64| #[trigger]
        stored.contains_key(start) ==> stored[start].usable(kind, dataset_key, start)
    &&& forall|t: int, start: u64|
        #![trigger intervals::covers(covered, t), stored.contains_key(start)]
        intervals::covers(covered, t) && buckets::bucket_of(kind, t) == start
            ==> stored.contains_key(start)
}

/// What is stored at the start of a bucket.
pub open spec fn stored_at<T>(stored: Map<u64, StoredBucket<T>>, start: u64) -> Option<
    StoredBucket<T>,
> {
    if stored.contains_key(start) {
        Some(stored[start])
    } else {
        None
    }
}

/// The records that lie in the bucket that begins at `start`.
pub open spec fn records_at<T>(stored: Map<u64, StoredBucket<T>>, start: u64) -> Seq<T> {
    if stored.contains_key(start) {
        stored[start].records@
    } else {
        seq![]
    }
}

/// What a store of `records` for `[from, to_exclusive)` makes of the buckets: those that it
/// touches are merged with their new records, and all others stay.
pub open spec fn buckets_after_store<T: CacheRecord>(
    before: Map<u64, StoredBucket<T>>,
    after: Map<u64, StoredBucket<T>>,
    kind: CacheKind,
    dataset_key: Seq<char>,
    from: u64,
    to_exclusive: u64,
    records: Seq<T>,
    groups: Seq<(u64, Vec<T>)>,
) -> bool {
    &&& cache_store::skip_reason(records, from, to_exclusive) is None
    &&& cache_store::is_grouping(groups, records, kind, from, to_exclusive)
    &&& forall|g: int|
        0 <= g < groups.len() ==> after.contains_key((#[trigger] groups[g]).0)
            && cache_store::is_merged(
            after[groups[g].0],
            kind,
            dataset_key,
            groups[g].0,
            stored_at(before, groups[g].0),
            groups[g].1@,
        )
    &&& forall|start: u64|
        !cache_store::is_touched(records, kind, from, to_exclusive, start) ==> stored_at(
            after,
            start,
        ) == #[trigger] stored_at(before, start)
}

/// The buckets of a plan as they lie in the store.
pub open spec fn is_fetched<T>(
    fetched: Seq<FetchedBucket<T>>,
    stored: Map<u64, StoredBucket<T>>,
    plan: BucketPlan,
) -> bool {
    &&& fetched.len() == plan.buckets@.len()
    &&& forall|k: int|
        0 <= k < fetched.len() ==> #[trigger] fetched[k] == (match stored_at(
            stored,
            plan.buckets@[k].0,
        ) {
            Some(bucket) => FetchedBucket::Read(bucket),
            None => FetchedBucket::Missing,
        })
}

/// A read of a dataset: planned from its coverage, fetched from its buckets and ended with
/// `outcome`.
pub open spec fn is_read<T: CacheRecord>(
    covered: Seq<(u64, u64)>,
    stored: Map<u64, StoredBucket<T>>,
    kind: CacheKind,
    dataset_key: Seq<char>,
    from: u64,
    to_exclusive: u64,
    record_from: u64,
    plan: BucketPlan,
    fetched: Seq<FetchedBucket<T>>,
    outcome: ReadOutcome<T>,
) -> bool {
    &&& persistent_cache::is_bucket_plan(plan, kind, covered, from, to_exclusive, record_from)
    &&& is_fetched(fetched, stored, plan)
    &&& persistent_cache::is_read_outcome(outcome, fetched, plan, kind, dataset_key)
}

/// A moment whose records a read of `[from, to_exclusive)` is to return: a covered moment of
/// the request, or one from `record_from` on in front of it.
pub open spec fn is_asked_for(
    covered: Seq<(u64, u64)>,
    from: u64,
    to_exclusive: u64,
    record_from: u64,
    moment: u64,
) -> bool {
    record_from <= moment < to_exclusive && (moment < from || intervals::covers(
        covered,
        moment as int,
    ))
}

/// The records of a fetched bucket.
pub open spec fn fetched_records<T>(fetched: FetchedBucket<T>) -> Seq<T> {
    match fetched {
        FetchedBucket::Read(bucket) => bucket.records@,
        _ => seq![],
    }
}

/// The bucket of a moment that is asked for is planned.
pub proof fn lemma_asked_for_is_planned(
    plan: BucketPlan,
    kind: CacheKind,
    covered: Seq<(u64, u64)>,
    from: u64,
    to_exclusive: u64,
    record_from: u64,
    moment: u64,
) -> (k: int)
    requires
        persistent_cache::is_bucket_plan(plan, kind, covered, from, to_exclusive, record_from),
        is_asked_for(covered, from, to_exclusive, record_from, moment),
    ensures
        0 <= k < plan.buckets@.len(),
        plan.buckets@[k].0 == buckets::bucket_of(kind, moment as int),
{
    let parts = intervals::clipped(covered, from, to_exclusive);
    let required = persistent_cache::required_starts(kind, parts);
    let optional = persistent_cache::optional_starts(kind, parts, record_from, from);
    let n = choose|n: int|
        0 <= n <= plan.buckets@.len() && persistent_cache::lists_starts(
            #[trigger] plan.buckets@.take(n),
            required,
            true,
        ) && persistent_cache::lists_starts(plan.buckets@.skip(n), optional, false);
    let head = plan.buckets@.take(n);
    let tail = plan.buckets@.skip(n);
    buckets::lemma_bucket_of_holds(kind, moment as int);
    let start = buckets::bucket_of(kind, moment as int) as u64;
    if moment >= from {
        intervals::lemma_clipped(covered, from, to_exclusive);
        assert(intervals::covers(parts, moment as int));
        let i = choose|i: int|
            0 <= i < parts.len() && (#[trigger] parts[i]).0 <= moment < parts[i].1;
        assert(buckets::touches(kind, start as int, parts[i].0 as int, parts[i].1 as int));
        assert(required.contains(start));
    } else {
        assert(buckets::touches(kind, start as int, record_from as int, from as int));
        assert(buckets::bucket_starts(kind, record_from as int, from as int).contains(start));
    }
    if required.contains(start) {
        let k = choose|k: int| 0 <= k < head.len() && (#[trigger] head[k]).0 == start;
        assert(plan.buckets@[k] == head[k]);
        k
    } else {
        assert(optional.contains(start));
        let k = choose|k: int| 0 <= k < tail.len() && (#[trigger] tail[k]).0 == start;
        assert(plan.buckets@[n + k] == tail[k]);
        n + k
    }
}

/// No bucket is planned twice, and every bucket that has to be there belongs to a covered
/// moment.
pub proof fn lemma_plan(
    plan: BucketPlan,
    kind: CacheKind,
    covered: Seq<(u64, u64)>,
    from: u64,
    to_exclusive: u64,
    record_from: u64,
)
    requires
        persistent_cache::is_bucket_plan(plan, kind, covered, from, to_exclusive, record_from),
    ensures
        forall|i: int, j: int|
            0 <= i < j < plan.buckets@.len() ==> (#[trigger] plan.buckets@[i]).0 != (
            #[trigger] plan.buckets@[j]).0,
        forall|k: int|
            0 <= k < plan.buckets@.len() && (#[trigger] plan.buckets@[k]).1 ==> exists|t: int|
                #[trigger] intervals::covers(covered, t) && buckets::bucket_of(kind, t)
                    == plan.buckets@[k].0,
{
    let parts = intervals::clipped(covered, from, to_exclusive);
    let required = persistent_cache::required_starts(kind, parts);
    let optional = persistent_cache::optional_starts(kind, parts, record_from, from);
    let n = choose|n: int|
        0 <= n <= plan.buckets@.len() && persistent_cache::lists_starts(
            #[trigger] plan.buckets@.take(n),
            required,
            true,
        ) && persistent_cache::lists_starts(plan.buckets@.skip(n), optional, false);
    let head = plan.buckets@.take(n);
    let tail = plan.buckets@.skip(n);
    assert forall|i: int, j: int| 0 <= i < j < plan.buckets@.len() implies (
    #[trigger] plan.buckets@[i]).0 != (#[trigger] plan.buckets@[j]).0 by {
        if j < n {
            assert(head[i].0 < head[j].0);
        } else if i >= n {
            assert(tail[i - n].0 < tail[j - n].0);
        } else {
            assert(required.contains(head[i].0));
            assert(optional.contains(tail[j - n].0));
        }
    }
    assert forall|k: int|
        0 <= k < plan.buckets@.len() && (#[trigger] plan.buckets@[k]).1 implies exists|t: int|
        #[trigger] intervals::covers(covered, t) && buckets::bucket_of(kind, t)
            == plan.buckets@[k].0 by {
        if k >= n {
            assert(!tail[k - n].1);
        }
        let start = head[k].0;
        assert(required.contains(start));
        let i = choose|i: int|
            0 <= i < parts.len() && buckets::touches(
                kind,
                start as int,
                (#[trigger] parts[i]).0 as int,
                parts[i].1 as int,
            );
        let t = if start >= parts[i].0 {
            start as int
        } else {
            parts[i].0 as int
        };
        intervals::lemma_clipped(covered, from, to_exclusive);
        assert(intervals::covers(parts, t));
        assert(intervals::covers(covered, t));
        buckets::bucket_is_unique(kind, start as int, t);
    }
}

proof fn lemma_no_problem<T: CacheRecord>(
    fetched: Seq<FetchedBucket<T>>,
    list: Seq<(u64, bool)>,
    kind: CacheKind,
    dataset_key: Seq<char>,
)
    requires
        forall|k: int|
            0 <= k < fetched.len() ==> persistent_cache::bucket_problem(
                #[trigger] fetched[k],
                list[k],
                kind,
                dataset_key,
            ) is None,
    ensures
        persistent_cache::first_problem(fetched, list, kind, dataset_key) is None,
    decreases fetched.len(),
{
    if fetched.len() > 0 {
        let front = fetched.drop_last();
        assert forall|k: int| 0 <= k < front.len() implies persistent_cache::bucket_problem(
            #[trigger] front[k],
            list[k],
            kind,
            dataset_key,
        ) is None by {
            assert(front[k] == fetched[k]);
        }
        lemma_no_problem(front, list, kind, dataset_key);
        assert(fetched[fetched.len() - 1] == fetched.last());
    }
}

/// A read of a sound dataset never drops anything: it ends with a slice, and the gaps that
/// remain are exactly the moments of the request that are not covered.
pub proof fn sound_datasets_are_read<T: CacheRecord>(
    covered: Seq<(u64, u64)>,
    stored: Map<u64, StoredBucket<T>>,
    kind: CacheKind,
    dataset_key: Seq<char>,
    from: u64,
    to_exclusive: u64,
    record_from: u64,
    plan: BucketPlan,
    fetched: Seq<FetchedBucket<T>>,
    outcome: ReadOutcome<T>,
)
    requires
        is_sound(covered, stored, kind, dataset_key),
        is_read(
            covered,
            stored,
            kind,
            dataset_key,
            from,
            to_exclusive,
            record_from,
            plan,
            fetched,
            outcome,
        ),
    ensures
        outcome is Slice,
        T::is_normal_form(
            persistent_cache::within(
                persistent_cache::gathered(fetched),
                record_from,
                to_exclusive,
            ),
            outcome->Slice_0.records@,
        ),
        forall|t: int| #[trigger]
            intervals::covers(persistent_cache::gap_pairs(outcome->Slice_0.gaps@), t) == (from <= t
                < to_exclusive && !intervals::covers(covered, t)),
{
    lemma_plan(plan, kind, covered, from, to_exclusive, record_from);
    assert forall|k: int| 0 <= k < fetched.len() implies persistent_cache::bucket_problem(
        #[trigger] fetched[k],
        plan.buckets@[k],
        kind,
        dataset_key,
    ) is None by {
        let start = plan.buckets@[k].0;
        if plan.buckets@[k].1 {
            let t = choose|t: int| #[trigger]
                intervals::covers(covered, t) && buckets::bucket_of(kind, t) == start;
            assert(stored.contains_key(start));
        }
    }
    lemma_no_problem(fetched, plan.buckets@, kind, dataset_key);
    intervals::gaps_are_the_uncovered_moments(covered, from, to_exclusive);
}

/// The records of a fetched bucket are those that lie in it, and belong to it.
pub proof fn lemma_fetched<T: CacheRecord>(
    covered: Seq<(u64, u64)>,
    stored: Map<u64, StoredBucket<T>>,
    kind: CacheKind,
    dataset_key: Seq<char>,
    plan: BucketPlan,
    fetched: Seq<FetchedBucket<T>>,
)
    requires
        is_sound(covered, stored, kind, dataset_key),
        is_fetched(fetched, stored, plan),
    ensures
        forall|k: int|
            0 <= k < fetched.len() ==> fetched_records(#[trigger] fetched[k]) == records_at(
                stored,
                plan.buckets@[k].0,
            ),
        forall|start: u64, m: int|
            0 <= m < records_at(stored, start).len() ==> buckets::bucket_of(
                kind,
                (#[trigger] records_at(stored, start)[m]).moment() as int,
            ) == start,
{
    assert forall|start: u64, m: int| 0 <= m < records_at(stored, start).len() implies
        buckets::bucket_of(kind, (#[trigger] records_at(stored, start)[m]).moment() as int)
        == start by {
        assert(stored.contains_key(start));
        assert(stored[start].records@[m] == records_at(stored, start)[m]);
    }
}

/// After a store a bucket holds the normal form of what it held and of its new records, or
/// what it held where the store does not touch it, and then no new record belongs to it.
pub proof fn lemma_bucket_after_store<T: CacheRecord>(
    covered: Seq<(u64, u64)>,
    before: Map<u64, StoredBucket<T>>,
    after: Map<u64, StoredBucket<T>>,
    kind: CacheKind,
    dataset_key: Seq<char>,
    from: u64,
    to_exclusive: u64,
    records: Seq<T>,
    groups: Seq<(u64, Vec<T>)>,
    start: u64,
)
    requires
        is_sound(covered, before, kind, dataset_key),
        buckets_after_store(
            before,
            after,
            kind,
            dataset_key,
            from,
            to_exclusive,
            records,
            groups,
        ),
    ensures
        if cache_store::is_touched(records, kind, from, to_exclusive, start) {
            T::is_normal_form(
                records_at(before, start) + cache_store::of_bucket(records, kind, start),
                records_at(after, start),
            ) && after.contains_key(start) && after[start].usable(kind, dataset_key, start)
        } else {
            records_at(after, start) == records_at(before, start) && cache_store::of_bucket(
                records,
                kind,
                start,
            ) == Seq::<T>::empty()
        },
{
    if cache_store::is_touched(records, kind, from, to_exclusive, start) {
        let g = choose|g: int| 0 <= g < groups.len() && (#[trigger] groups[g]).0 == start;
        let added = cache_store::of_bucket(records, kind, start);
        assert(groups[g].1@ == added);
        assert(cache_store::kept_records(
            stored_at(before, start),
            kind,
            dataset_key,
            start,
        ) =~= records_at(before, start));
        assert(persistent_cache::records_fit(added, kind, start)) by {
            assert forall|p: int| 0 <= p < added.len() implies (#[trigger] added[p]).valid()
                && buckets::bucket_of(kind, added[p].moment() as int) == start by {
                lemma_group_members(records, kind, start, p);
                let i = choose|i: int| 0 <= i < records.len() && records[i] == added[p];
                assert(records[i].valid());
            }
        }
    } else {
        assert(stored_at(after, start) == stored_at(before, start));
        cache_store::lemma_untouched_is_empty(records, kind, from, to_exclusive, start);
    }
}

/// The records of a group are records of the list, and belong to the bucket.
pub proof fn lemma_group_members<T: Timed>(list: Seq<T>, kind: CacheKind, start: u64, p: int)
    requires
        0 <= p < cache_store::of_bucket(list, kind, start).len(),
    ensures
        list.contains(cache_store::of_bucket(list, kind, start)[p]),
        buckets::bucket_of(
            kind,
            cache_store::of_bucket(list, kind, start)[p].moment() as int,
        ) == start,
    decreases list.len(),
{
    let front = list.drop_last();
    let head = cache_store::of_bucket(front, kind, start);
    if p < head.len() {
        lemma_group_members(front, kind, start, p);
        let k = choose|k: int| 0 <= k < front.len() && front[k] == head[p];
        assert(list[k] == head[p]);
    } else {
        assert(list[list.len() - 1] == list.last());
    }
}

/// A store leaves a sound dataset sound, so any number of stores does.
pub proof fn stores_keep_datasets_sound<T: CacheRecord>(
    covered_before: Seq<(u64, u64)>,
    covered_after: Seq<(u64, u64)>,
    before: Map<u64, StoredBucket<T>>,
    after: Map<u64, StoredBucket<T>>,
    kind: CacheKind,
    dataset_key: Seq<char>,
    from: u64,
    to_exclusive: u64,
    records: Seq<T>,
    groups: Seq<(u64, Vec<T>)>,
)
    requires
        is_sound(covered_before, before, kind, dataset_key),
        buckets_after_store(
            before,
            after,
            kind,
            dataset_key,
            from,
            to_exclusive,
            records,
            groups,
        ),
        coverage::coverage_after_store(covered_before, covered_after, from, to_exclusive),
    ensures
        is_sound(covered_after, after, kind, dataset_key),
{
    assert forall|start: u64| #[trigger] after.contains_key(start) implies after[start].usable(
        kind,
        dataset_key,
        start,
    ) by {
        lemma_bucket_after_store(
            covered_before,
            before,
            after,
            kind,
            dataset_key,
            from,
            to_exclusive,
            records,
            groups,
            start,
        );
        if !cache_store::is_touched(records, kind, from, to_exclusive, start) {
            assert(stored_at(after, start) == stored_at(before, start));
            assert(before.contains_key(start));
        }
    }
    assert forall|t: int, start: u64|
        #![trigger intervals::covers(covered_after, t), after.contains_key(start)]
        intervals::covers(covered_after, t) && buckets::bucket_of(kind, t)
            == start implies after.contains_key(start) by {
        lemma_bucket_after_store(
            covered_before,
            before,
            after,
            kind,
            dataset_key,
            from,
            to_exclusive,
            records,
            groups,
            start,
        );
        if intervals::covers(covered_before, t) {
            assert(before.contains_key(start));
            assert(stored_at(before, start) is Some);
        } else {
            buckets::lemma_bucket_of_holds(kind, t);
            assert(buckets::touches(kind, start as int, from as int, to_exclusive as int));
        }
    }
}

/// The coverage that a store wrote is what the next read is planned from and what the next
/// store extends.
pub proof fn stored_coverage_is_found_again(
    blob: Seq<u8>,
    model: coverage::CoverageModel,
    dataset_key: Seq<char>,
)
    requires
        coverage::decoded_coverage(blob) == Some(model),
        coverage::usable(model, dataset_key),
    ensures
        persistent_cache::usable_coverage(blob, dataset_key) == Some(model.2),
        coverage::known_intervals(Some(blob), dataset_key) == model.2,
{
}

/// An empty cache is a sound dataset.
pub proof fn empty_datasets_are_sound<T: CacheRecord>(kind: CacheKind, dataset_key: Seq<char>)
    ensures
        is_sound::<T>(seq![], Map::empty(), kind, dataset_key),
{
}

/// What one bucket holds is gathered.
pub proof fn lemma_gathered_contains<T: Timed>(fetched: Seq<FetchedBucket<T>>, k: int, record: T)
    requires
        0 <= k < fetched.len(),
        fetched_records(fetched[k]).contains(record),
    ensures
        persistent_cache::gathered(fetched).contains(record),
    decreases fetched.len(),
{
    let front = fetched.drop_last();
    let head = persistent_cache::gathered(front);
    let tail = fetched_records(fetched.last());
    let whole = persistent_cache::gathered(fetched);
    assert(whole =~= head + tail);
    if k < front.len() {
        lemma_gathered_contains(front, k, record);
        let q = choose|q: int| 0 <= q < head.len() && head[q] == record;
        assert(whole[q] == record);
    } else {
        let q = choose|q: int| 0 <= q < tail.len() && tail[q] == record;
        assert(whole[head.len() + q] == record);
    }
}

/// Each gathered record comes from some bucket.
pub proof fn lemma_gathered_member<T>(fetched: Seq<FetchedBucket<T>>, w: int)
    requires
        0 <= w < persistent_cache::gathered(fetched).len(),
    ensures
        exists|k: int|
            0 <= k < fetched.len() && fetched_records(#[trigger] fetched[k]).contains(
                persistent_cache::gathered(fetched)[w],
            ),
    decreases fetched.len(),
{
    let front = fetched.drop_last();
    let head = persistent_cache::gathered(front);
    let whole = persistent_cache::gathered(fetched);
    let tail = fetched_records(fetched.last());
    assert(whole =~= head + tail);
    if w < head.len() {
        lemma_gathered_member(front, w);
        let k = choose|k: int|
            0 <= k < front.len() && fetched_records(#[trigger] front[k]).contains(head[w]);
        assert(fetched[k] == front[k]);
        assert(fetched_records(fetched[k]).contains(whole[w]));
    } else {
        assert(tail[w - head.len()] == whole[w]);
        assert(fetched_records(fetched[fetched.len() - 1]).contains(whole[w]));
    }
}

/// The records within a range are those of the list with a moment in it.
pub proof fn lemma_within<T: Timed>(list: Seq<T>, from: u64, to_exclusive: u64)
    ensures
        forall|record: T| #[trigger]
            persistent_cache::within(list, from, to_exclusive).contains(record) == (list.contains(
                record,
            ) && from <= record.moment() < to_exclusive),
    decreases list.len(),
{
    let kept = persistent_cache::within(list, from, to_exclusive);
    if list.len() > 0 {
        let front = list.drop_last();
        let head = persistent_cache::within(front, from, to_exclusive);
        lemma_within(front, from, to_exclusive);
        assert forall|record: T| #[trigger] kept.contains(record) == (list.contains(record) && from
            <= record.moment() < to_exclusive) by {
            if kept.contains(record) {
                let k = choose|k: int| 0 <= k < kept.len() && kept[k] == record;
                if k < head.len() {
                    assert(head.contains(record));
                    let m = choose|m: int| 0 <= m < front.len() && front[m] == record;
                    assert(list[m] == record);
                } else {
                    assert(list[list.len() - 1] == record);
                }
            }
            if list.contains(record) && from <= record.moment() < to_exclusive {
                let m = choose|m: int| 0 <= m < list.len() && list[m] == record;
                if m < front.len() {
                    assert(front[m] == record);
                    assert(front.contains(record));
                    assert(head.contains(record));
                    let k = choose|k: int| 0 <= k < head.len() && head[k] == record;
                    assert(kept[k] == record);
                } else {
                    assert(kept[head.len() as int] == record);
                }
            }
        }
    }
}

/// A read returns nothing else than what lies in the buckets, and only what is in the range
/// that was asked for.
pub proof fn reads_return_stored_records_only<T: CacheRecord>(
    covered: Seq<(u64, u64)>,
    stored: Map<u64, StoredBucket<T>>,
    kind: CacheKind,
    dataset_key: Seq<char>,
    from: u64,
    to_exclusive: u64,
    record_from: u64,
    plan: BucketPlan,
    fetched: Seq<FetchedBucket<T>>,
    outcome: ReadOutcome<T>,
    q: int,
) -> (start: u64)
    requires
        is_sound(covered, stored, kind, dataset_key),
        is_read(
            covered,
            stored,
            kind,
            dataset_key,
            from,
            to_exclusive,
            record_from,
            plan,
            fetched,
            outcome,
        ),
        outcome is Slice,
        0 <= q < outcome->Slice_0.records@.len(),
    ensures
        record_from <= outcome->Slice_0.records@[q].moment() < to_exclusive,
        start == buckets::bucket_of(kind, outcome->Slice_0.records@[q].moment() as int),
        records_at(stored, start).contains(outcome->Slice_0.records@[q]),
{
    sound_datasets_are_read(
        covered,
        stored,
        kind,
        dataset_key,
        from,
        to_exclusive,
        record_from,
        plan,
        fetched,
        outcome,
    );
    let result = outcome->Slice_0.records@;
    let whole = persistent_cache::gathered(fetched);
    let kept = persistent_cache::within(whole, record_from, to_exclusive);
    T::normal_form_holds_source_records(kept, result, q);
    lemma_within(whole, record_from, to_exclusive);
    assert(kept.contains(result[q]));
    let w = choose|w: int| 0 <= w < whole.len() && whole[w] == result[q];
    lemma_gathered_member(fetched, w);
    let k = choose|k: int|
        0 <= k < fetched.len() && fetched_records(#[trigger] fetched[k]).contains(whole[w]);
    lemma_fetched(covered, stored, kind, dataset_key, plan, fetched);
    let start = plan.buckets@[k].0;
    let m = choose|m: int|
        0 <= m < fetched_records(fetched[k]).len() && fetched_records(fetched[k])[m] == whole[w];
    assert(records_at(stored, start)[m] == result[q]);
    start
}

} // verus!
