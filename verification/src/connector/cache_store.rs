//! What a store writes: the buckets that change and the coverage record.
use std::collections::BTreeMap;
use vstd::prelude::*;
use crate::connector::buckets;
use crate::connector::buckets::{
    add_empty_buckets, bucket_for, CacheKind, CACHE_SCHEMA, MAX_RECORDS_PER_BUCKET,
};
use crate::connector::persistent_cache;
use crate::connector::persistent_cache::StoredBucket;
use crate::connector::records::{CacheRecord, Timed};
use crate::text;
use crate::text::{push_decimal, push_text};
use crate::units::UnixMs;

verus! {

/// The records of the bucket that starts at `start`, in their order.
pub open spec fn of_bucket<T: Timed>(records: Seq<T>, kind: CacheKind, start: u64) -> Seq<T>
    decreases records.len(),
{
    if records.len() == 0 {
        seq![]
    } else {
        let head = of_bucket(records.drop_last(), kind, start);
        if buckets::bucket_of(kind, records.last().moment() as int) == start {
            head.push(records.last())
        } else {
            head
        }
    }
}

/// Whether a bucket changes when `records` are stored for `[from, to_exclusive)`: it
/// lies in the range, or one of the records belongs to it.
pub open spec fn is_touched<T: Timed>(
    records: Seq<T>,
    kind: CacheKind,
    from: u64,
    to_exclusive: u64,
    start: u64,
) -> bool {
    ||| buckets::touches(kind, start as int, from as int, to_exclusive as int)
    ||| exists|i: int|
        0 <= i < records.len() && buckets::bucket_of(
            kind,
            (#[trigger] records[i]).moment() as int,
        ) == start
}

/// The touched buckets in ascending order, each with its new records.
pub open spec fn is_grouping<T: Timed>(
    groups: Seq<(u64, Vec<T>)>,
    records: Seq<T>,
    kind: CacheKind,
    from: u64,
    to_exclusive: u64,
) -> bool {
    &&& forall|i: int, j: int|
        0 <= i < j < groups.len() ==> (#[trigger] groups[i]).0 < (#[trigger] groups[j]).0
    &&& forall|i: int|
        0 <= i < groups.len() ==> is_touched(
            records,
            kind,
            from,
            to_exclusive,
            (#[trigger] groups[i]).0,
        ) && groups[i].1@ == of_bucket(records, kind, groups[i].0)
    &&& forall|start: u64| #[trigger]
        is_touched(records, kind, from, to_exclusive, start) ==> exists|i: int|
            0 <= i < groups.len() && (#[trigger] groups[i]).0 == start
}

fn ascending_keys<V>(map: &BTreeMap<u64, V>) -> (list: Vec<u64>)
    ensures
        forall|b: u64| #[trigger] list@.contains(b) == map@.dom().contains(b),
        forall|i: int, j: int| 0 <= i < j < list@.len() ==> list@[i] < list@[j],
{
    let mut list: Vec<u64> = Vec::new();
    for key in it: map.keys()
        invariant
            it.seq().unref().to_set() == map@.dom(),
            vstd::std_specs::btree::increasing_seq(it.seq()),
            list@.len() == it.index(),
            it.index() <= it.seq().len(),
            forall|i: int| 0 <= i < list@.len() ==> list@[i] == *it.seq()[i],
            forall|i: int, j: int| 0 <= i < j < list@.len() ==> list@[i] < list@[j],
            forall|i: int| 0 <= i < list@.len() ==> map@.dom().contains(#[trigger] list@[i]),
            forall|b: u64| #[trigger]
                map@.dom().contains(b) ==> list@.contains(b) || exists|k: int|
                    it.index() <= k < it.seq().len() && b == *(#[trigger] it.seq()[k]),
    {
        let ghost before = list@;
        list.push(*key);
        proof {
            buckets::lemma_increasing(it.seq());
            let index = it.index();
            assert(it.seq().unref()[index] == *it.seq()[index]);
            assert(it.seq().unref().to_set().contains(*it.seq()[index]));
            assert forall|b: u64| #[trigger] map@.dom().contains(b) implies list@.contains(b)
                || exists|k: int|
                index + 1 <= k < it.seq().len() && b == *(#[trigger] it.seq()[k]) by {
                if before.contains(b) {
                    let k = choose|k: int| 0 <= k < before.len() && before[k] == b;
                    assert(list@[k] == b);
                } else if b == *key {
                    assert(list@[before.len() as int] == b);
                }
            }
        }
    }
    list
}

/// Distributes new records over the buckets that a store touches.
pub fn group_records<T: CacheRecord>(
    kind: CacheKind,
    from: u64,
    to_exclusive: u64,
    records: Vec<T>,
) -> (groups: Vec<(u64, Vec<T>)>)
    ensures
        is_grouping(groups@, records@, kind, from, to_exclusive),
{
    let ghost source = records@;
    let mut by_bucket: BTreeMap<u64, Vec<T>> = BTreeMap::new();
    add_empty_buckets(kind, &mut by_bucket, from, to_exclusive);
    proof {
        assert(source.take(0) =~= Seq::<T>::empty());
        assert forall|b: u64| #[trigger] by_bucket@.dom().contains(b) == is_touched(
            source.take(0),
            kind,
            from,
            to_exclusive,
            b,
        ) by {}
    }
    for record in it: records
        invariant
            it.seq() == source,
            forall|b: u64| #[trigger]
                by_bucket@.dom().contains(b) == is_touched(
                    source.take(it.index()),
                    kind,
                    from,
                    to_exclusive,
                    b,
                ),
            forall|b: u64| #[trigger]
                by_bucket@.dom().contains(b) ==> by_bucket@[b]@ == of_bucket(
                    source.take(it.index()),
                    kind,
                    b,
                ),
    {
        let start: u64 = bucket_for(kind, record.timestamp().as_u64());
        let ghost before = by_bucket@;
        let mut list: Vec<T> = match by_bucket.remove(&start) {
            Some(list) => list,
            None => Vec::new(),
        };
        proof {
            if !before.dom().contains(start) {
                lemma_untouched_is_empty(
                    source.take(it.index()),
                    kind,
                    from,
                    to_exclusive,
                    start,
                );
            }
            assert(list@ =~= of_bucket(source.take(it.index()), kind, start));
        }
        list.push(record);
        by_bucket.insert(start, list);
        proof {
            let index = it.index();
            let shorter = source.take(index);
            let longer = source.take(index + 1);
            assert(longer.drop_last() =~= shorter);
            assert(longer.last() == source[index]);
            assert forall|b: u64| #[trigger] by_bucket@.dom().contains(b) == is_touched(
                longer,
                kind,
                from,
                to_exclusive,
                b,
            ) by {
                lemma_touched_grows(shorter, longer, kind, from, to_exclusive, b);
                assert(by_bucket@.dom().contains(b) == (before.dom().contains(b) || b == start));
            }
            assert forall|b: u64| #[trigger] by_bucket@.dom().contains(b) implies by_bucket@[b]@
                == of_bucket(longer, kind, b) by {
                if b != start {
                    assert(before.dom().contains(b));
                    assert(by_bucket@[b] == before[b]);
                }
            }
        }
    }
    assert(source.take(source.len() as int) =~= source);
    let starts = ascending_keys(&by_bucket);
    let ghost full = by_bucket@;
    proof {
        assert forall|i: int| 0 <= i < starts@.len() implies full.dom().contains(
            #[trigger] starts@[i],
        ) by {
            assert(starts@.contains(starts@[i]));
        }
    }
    let mut groups: Vec<(u64, Vec<T>)> = Vec::new();
    for k in 0..starts.len()
        invariant
            groups@.len() == k,
            forall|i: int, j: int| 0 <= i < j < starts@.len() ==> starts@[i] < starts@[j],
            forall|i: int| 0 <= i < starts@.len() ==> full.dom().contains(#[trigger] starts@[i]),
            forall|i: int|
                k <= i < starts@.len() ==> by_bucket@.dom().contains(#[trigger] starts@[i])
                    && by_bucket@[starts@[i]] == full[starts@[i]],
            forall|i: int|
                0 <= i < k ==> (#[trigger] groups@[i]).0 == starts@[i] && groups@[i].1
                    == full[starts@[i]],
    {
        let start: u64 = starts[k];
        match by_bucket.remove(&start) {
            Some(list) => {
                groups.push((start, list));
            },
            None => {
                assert(false);
            },
        }
    }
    proof {
        assert forall|start: u64| #[trigger] is_touched(
            source,
            kind,
            from,
            to_exclusive,
            start,
        ) implies exists|i: int| 0 <= i < groups@.len() && (#[trigger] groups@[i]).0 == start by {
            assert(full.dom().contains(start));
            assert(starts@.contains(start));
            let i = choose|i: int| 0 <= i < starts@.len() && starts@[i] == start;
            assert(groups@[i].0 == start);
        }
        assert forall|i: int| 0 <= i < groups@.len() implies is_touched(
            source,
            kind,
            from,
            to_exclusive,
            (#[trigger] groups@[i]).0,
        ) && groups@[i].1@ == of_bucket(source, kind, groups@[i].0) by {
            assert(starts@.contains(starts@[i]));
            assert(full.dom().contains(starts@[i]));
        }
    }
    groups
}

proof fn lemma_touched_grows<T: Timed>(
    shorter: Seq<T>,
    longer: Seq<T>,
    kind: CacheKind,
    from: u64,
    to_exclusive: u64,
    start: u64,
)
    requires
        longer.len() == shorter.len() + 1,
        longer.drop_last() == shorter,
    ensures
        is_touched(longer, kind, from, to_exclusive, start) == (is_touched(
            shorter,
            kind,
            from,
            to_exclusive,
            start,
        ) || buckets::bucket_of(kind, longer.last().moment() as int) == start),
{
    if exists|i: int|
        0 <= i < shorter.len() && buckets::bucket_of(
            kind,
            (#[trigger] shorter[i]).moment() as int,
        ) == start {
        let i = choose|i: int|
            0 <= i < shorter.len() && buckets::bucket_of(
                kind,
                (#[trigger] shorter[i]).moment() as int,
            ) == start;
        assert(longer[i] == shorter[i]);
    }
    if exists|i: int|
        0 <= i < longer.len() && buckets::bucket_of(
            kind,
            (#[trigger] longer[i]).moment() as int,
        ) == start {
        let i = choose|i: int|
            0 <= i < longer.len() && buckets::bucket_of(
                kind,
                (#[trigger] longer[i]).moment() as int,
            ) == start;
        if i < shorter.len() {
            assert(shorter[i] == longer[i]);
        }
    }
    if buckets::bucket_of(kind, longer.last().moment() as int) == start {
        assert(longer[shorter.len() as int] == longer.last());
    }
}

pub proof fn lemma_untouched_is_empty<T: Timed>(
    records: Seq<T>,
    kind: CacheKind,
    from: u64,
    to_exclusive: u64,
    start: u64,
)
    requires
        !is_touched(records, kind, from, to_exclusive, start),
    ensures
        of_bucket(records, kind, start) == Seq::<T>::empty(),
    decreases records.len(),
{
    if records.len() > 0 {
        assert(records[records.len() - 1] == records.last());
        let shorter = records.drop_last();
        lemma_touched_grows(shorter, records, kind, from, to_exclusive, start);
        lemma_untouched_is_empty(shorter, kind, from, to_exclusive, start);
    }
}

/// Why a store writes nothing.
#[derive(Clone, Copy, Debug, PartialEq, Eq, Structural)]
pub enum SkipReason {
    /// The range is empty.
    EmptyRange,
    /// An empty response is no durable evidence that the range is empty.
    EmptyUnverified,
    /// A record of the source is not valid.
    InvalidSourceRecord,
}

/// Whether all records are valid.
pub open spec fn all_valid<T: CacheRecord>(records: Seq<T>) -> bool {
    forall|i: int| 0 <= i < records.len() ==> (#[trigger] records[i]).valid()
}

pub open spec fn skip_reason<T: CacheRecord>(
    records: Seq<T>,
    from: u64,
    to_exclusive: u64,
) -> Option<SkipReason> {
    if from >= to_exclusive {
        Some(SkipReason::EmptyRange)
    } else if records.len() == 0 {
        Some(SkipReason::EmptyUnverified)
    } else if !all_valid(records) {
        Some(SkipReason::InvalidSourceRecord)
    } else {
        None
    }
}

/// Plans a store: nothing is written for an empty range, an empty response or a response
/// with an invalid record; otherwise the touched buckets with their new records.
pub fn plan_store<T: CacheRecord>(
    kind: CacheKind,
    from: UnixMs,
    to_exclusive: UnixMs,
    records: Vec<T>,
) -> (plan: Result<Vec<(u64, Vec<T>)>, SkipReason>)
    ensures
        match skip_reason(records@, from.ms, to_exclusive.ms) {
            Some(reason) => plan == Err::<Vec<(u64, Vec<T>)>, SkipReason>(reason),
            None => plan matches Ok(groups) && is_grouping(
                groups@,
                records@,
                kind,
                from.ms,
                to_exclusive.ms,
            ),
        },
{
    if from.ms >= to_exclusive.ms {
        return Err(SkipReason::EmptyRange);
    }
    if records.len() == 0 {
        return Err(SkipReason::EmptyUnverified);
    }
    let mut i: usize = 0;
    while i < records.len()
        invariant
            i <= records@.len(),
            from.ms < to_exclusive.ms,
            records@.len() > 0,
            forall|k: int| 0 <= k < i ==> (#[trigger] records@[k]).valid(),
        decreases records@.len() - i,
    {
        if !records[i].is_semantically_valid() {
            assert(!records@[i as int].valid());
            return Err(SkipReason::InvalidSourceRecord);
        }
        i = i + 1;
    }
    Ok(group_records(kind, from.ms, to_exclusive.ms, records))
}

/// The records that an existing bucket contributes: none unless it is usable.
pub open spec fn kept_records<T: CacheRecord>(
    existing: Option<StoredBucket<T>>,
    kind: CacheKind,
    dataset_key: Seq<char>,
    start: u64,
) -> Seq<T> {
    match existing {
        Some(bucket) => if bucket.usable(kind, dataset_key, start) {
            bucket.records@
        } else {
            seq![]
        },
        None => seq![],
    }
}

/// A bucket that would hold too many records.
#[derive(Clone, Copy, Debug, PartialEq, Eq, Structural)]
pub struct BucketTooLarge {
    pub bucket_start: u64,
}

impl BucketTooLarge {
    pub open spec fn message(self) -> Seq<char> {
        "bucket "@ + text::decimal(self.bucket_start as nat) + " exceeds 5000000 records"@
    }

    pub fn describe(&self) -> (r: String)
        ensures
            r@ == self.message(),
    {
        let mut out: String = String::new();
        push_text(&mut out, "bucket ");
        push_decimal(&mut out, self.bucket_start);
        push_text(&mut out, " exceeds 5000000 records");
        assert(out@ =~= self.message());
        out
    }
}

/// `bucket` is what is stored at `start` once new records were added to what was there: the
/// normal form of both. Where the new records belong there, it can be read again.
pub open spec fn is_merged<T: CacheRecord>(
    bucket: StoredBucket<T>,
    kind: CacheKind,
    dataset_key: Seq<char>,
    start: u64,
    existing: Option<StoredBucket<T>>,
    new_records: Seq<T>,
) -> bool {
    &&& bucket.schema == CACHE_SCHEMA
    &&& bucket.dataset_key@ == dataset_key
    &&& bucket.bucket_start == start
    &&& T::is_normal_form(
        kept_records(existing, kind, dataset_key, start) + new_records,
        bucket.records@,
    )
    &&& bucket.records@.len() <= MAX_RECORDS_PER_BUCKET
    &&& persistent_cache::records_fit(new_records, kind, start) ==> bucket.usable(
        kind,
        dataset_key,
        start,
    )
}

/// The bucket after new records were added to what it held, unless it is too long to be
/// stored.
pub fn merge_bucket<T: CacheRecord>(
    kind: CacheKind,
    dataset_key: &str,
    start: u64,
    existing: Option<StoredBucket<T>>,
    new_records: Vec<T>,
) -> (r: Result<StoredBucket<T>, BucketTooLarge>)
    ensures
        match r {
            Ok(bucket) => is_merged(
                bucket,
                kind,
                dataset_key@,
                start,
                existing,
                new_records@,
            ),
            Err(error) => error.bucket_start == start && forall|normal: Seq<T>| #[trigger]
                T::is_normal_form(
                    kept_records(existing, kind, dataset_key@, start) + new_records@,
                    normal,
                ) ==> normal.len() > MAX_RECORDS_PER_BUCKET,
        },
{
    let ghost kept = kept_records(existing, kind, dataset_key@, start);
    let mut merged: Vec<T> = match existing {
        Some(bucket) => if bucket.is_usable(kind, dataset_key, start) {
            bucket.records
        } else {
            Vec::new()
        },
        None => Vec::new(),
    };
    assert(merged@ =~= kept);
    let ghost added = new_records@;
    let mut new_records = new_records;
    merged.append(&mut new_records);
    let ghost source = merged@;
    assert(source =~= kept + added);
    let normal: Vec<T> = T::normalize(merged);
    if normal.len() > MAX_RECORDS_PER_BUCKET {
        proof {
            assert forall|other: Seq<T>| #[trigger] T::is_normal_form(source, other) implies
                other.len() > MAX_RECORDS_PER_BUCKET by {
                T::normal_form_is_unique(source, other, normal@);
            }
        }
        return Err(BucketTooLarge { bucket_start: start });
    }
    proof {
        if persistent_cache::records_fit(added, kind, start) {
            assert forall|i: int| 0 <= i < normal@.len() implies (#[trigger] normal@[i]).valid()
                && buckets::bucket_of(kind, normal@[i].moment() as int) == start by {
                T::normal_form_holds_source_records(source, normal@, i);
                let k = choose|k: int| 0 <= k < source.len() && source[k] == normal@[i];
                if k < kept.len() {
                    assert(source[k] == kept[k]);
                } else {
                    assert(source[k] == added[k - kept.len()]);
                }
            }
        }
    }
    Ok(
        StoredBucket {
            schema: CACHE_SCHEMA,
            dataset_key: dataset_key.to_owned(),
            bucket_start: start,
            records: normal,
        },
    )
}

} // verus!
