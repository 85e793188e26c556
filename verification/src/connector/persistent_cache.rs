//! Reading and storing bounded historical market data.
//!
//! A dataset is a coverage record and a set of time buckets. A read is planned from the
//! coverage record, the buckets it needs are fetched, and the outcome is either the
//! requested slice with the gaps that remain, or the part of the store that must be
//! dropped because it cannot be trusted.
use std::collections::BTreeSet;
use vstd::prelude::*;
use crate::connector::buckets;
use crate::connector::buckets::{
    add_bucket_starts, ascending, bucket_for, CacheKind, CACHE_SCHEMA, MAX_RECORDS_PER_BUCKET,
};
use crate::connector::coverage;
use crate::connector::coverage::{decode_checked, usable_intervals};
use crate::connector::intervals;
use crate::connector::intervals::{coverage_gaps, coverage_intersections};
use crate::connector::records::{CacheRecord, Timed};
use crate::units::UnixMs;

verus! {

/// Cached records plus the half-open intervals which still require the network.
#[derive(Debug)]
pub struct CacheSlice<T> {
    pub records: Vec<T>,
    pub gaps: Vec<(UnixMs, UnixMs)>,
}

/// The gaps of a slice as plain intervals.
pub open spec fn gap_pairs(gaps: Seq<(UnixMs, UnixMs)>) -> Seq<(u64, u64)> {
    gaps.map_values(|gap: (UnixMs, UnixMs)| (gap.0.ms, gap.1.ms))
}

impl<T> CacheSlice<T> {
    /// No records: the whole request is a gap.
    pub fn miss(from: UnixMs, to_exclusive: UnixMs) -> (r: Self)
        ensures
            r.records@ == Seq::<T>::empty(),
            gap_pairs(r.gaps@) == (if from.ms < to_exclusive.ms {
                seq![(from.ms, to_exclusive.ms)]
            } else {
                seq![]
            }),
    {
        let mut gaps: Vec<(UnixMs, UnixMs)> = Vec::new();
        if from.ms < to_exclusive.ms {
            gaps.push((from, to_exclusive));
        }
        assert(gap_pairs(gaps@) =~= (if from.ms < to_exclusive.ms {
            seq![(from.ms, to_exclusive.ms)]
        } else {
            seq![]
        }));
        CacheSlice { records: Vec::new(), gaps }
    }

    pub fn is_complete(&self) -> (r: bool)
        ensures
            r == (self.gaps@.len() == 0),
    {
        self.gaps.len() == 0
    }
}

/// One time bucket as it is stored.
#[derive(Debug)]
pub struct StoredBucket<T> {
    pub schema: u64,
    pub dataset_key: String,
    pub bucket_start: u64,
    pub records: Vec<T>,
}

/// Whether every record is valid and belongs to the bucket that starts at `start`.
pub open spec fn records_fit<T: CacheRecord>(
    records: Seq<T>,
    kind: CacheKind,
    start: u64,
) -> bool {
    forall|i: int|
        0 <= i < records.len() ==> (#[trigger] records[i]).valid() && buckets::bucket_of(
            kind,
            records[i].moment() as int,
        ) == start
}

impl<T: CacheRecord> StoredBucket<T> {
    /// Whether the bucket is what the dataset expects at `start`.
    pub open spec fn usable(&self, kind: CacheKind, dataset_key: Seq<char>, start: u64) -> bool {
        &&& self.schema == CACHE_SCHEMA
        &&& self.dataset_key@ == dataset_key
        &&& self.bucket_start == start
        &&& self.records@.len() <= MAX_RECORDS_PER_BUCKET
        &&& records_fit(self.records@, kind, start)
    }

    pub fn is_usable(&self, kind: CacheKind, dataset_key: &str, start: u64) -> (r: bool)
        ensures
            r == self.usable(kind, dataset_key@, start),
    {
        let wanted: String = dataset_key.to_owned();
        if self.schema != CACHE_SCHEMA || self.dataset_key != wanted || self.bucket_start != start
            || self.records.len() > MAX_RECORDS_PER_BUCKET {
            return false;
        }
        let mut i: usize = 0;
        while i < self.records.len()
            invariant
                i <= self.records@.len(),
                records_fit(self.records@.take(i as int), kind, start),
            decreases self.records@.len() - i,
        {
            let record: &T = &self.records[i];
            if !record.is_semantically_valid() || bucket_for(kind, record.timestamp().as_u64())
                != start {
                assert(!records_fit(self.records@, kind, start)) by {
                    assert(!(self.records@[i as int].valid() && buckets::bucket_of(
                        kind,
                        self.records@[i as int].moment() as int,
                    ) == start));
                }
                return false;
            }
            assert forall|k: int| 0 <= k < i + 1 implies (#[trigger] self.records@.take(
                i + 1,
            )[k]).valid() && buckets::bucket_of(
                kind,
                self.records@.take(i + 1)[k].moment() as int,
            ) == start by {
                if k < i {
                    assert(self.records@.take(i as int)[k] == self.records@.take(i + 1)[k]);
                }
            }
            i = i + 1;
        }
        assert(self.records@.take(self.records@.len() as int) =~= self.records@);
        true
    }
}

/// Why a part of the store must be dropped.
#[derive(Clone, Copy, Debug, PartialEq, Eq, Structural)]
pub enum InvalidReason {
    Coverage,
    MissingBucket,
    InvalidBucket,
}

impl InvalidReason {
    pub open spec fn wording(self) -> Seq<char> {
        match self {
            InvalidReason::Coverage => "invalid coverage record"@,
            InvalidReason::MissingBucket => "missing covered bucket"@,
            InvalidReason::InvalidBucket => "invalid data bucket"@,
        }
    }

    pub fn label(self) -> (r: &'static str)
        ensures
            r@ == self.wording(),
    {
        match self {
            InvalidReason::Coverage => "invalid coverage record",
            InvalidReason::MissingBucket => "missing covered bucket",
            InvalidReason::InvalidBucket => "invalid data bucket",
        }
    }
}

/// What to fetch for a read: the start of each bucket and whether it must be there.
#[derive(Debug)]
pub struct BucketPlan {
    pub from: UnixMs,
    pub to_exclusive: UnixMs,
    pub record_from: UnixMs,
    pub gaps: Vec<(u64, u64)>,
    pub buckets: Vec<(u64, bool)>,
}

/// What a read does first.
#[derive(Debug)]
pub enum ReadPlan {
    /// Nothing of the request is stored.
    Miss,
    /// The coverage record cannot be used and is to be dropped; nothing is stored.
    DropCoverage,
    /// These buckets hold the stored part of the request.
    Fetch(BucketPlan),
}

/// The buckets that the covered parts of a request touch.
pub open spec fn required_starts(kind: CacheKind, parts: Seq<(u64, u64)>) -> Set<u64> {
    Set::new(
        |start: u64|
            exists|i: int|
                0 <= i < parts.len() && buckets::touches(
                    kind,
                    start as int,
                    (#[trigger] parts[i]).0 as int,
                    parts[i].1 as int,
                ),
    )
}

/// `list` holds the members of `starts` in ascending order, each marked with `required`.
pub open spec fn lists_starts(list: Seq<(u64, bool)>, starts: Set<u64>, required: bool) -> bool {
    &&& forall|i: int| 0 <= i < list.len() ==> (#[trigger] list[i]).1 == required
    &&& forall|i: int| 0 <= i < list.len() ==> starts.contains((#[trigger] list[i]).0)
    &&& forall|start: u64| #[trigger]
        starts.contains(start) ==> exists|i: int|
            0 <= i < list.len() && (#[trigger] list[i]).0 == start
    &&& forall|i: int, j: int|
        0 <= i < j < list.len() ==> (#[trigger] list[i]).0 < (#[trigger] list[j]).0
}

/// The buckets before the request that may hold records reaching into it.
pub open spec fn optional_starts(
    kind: CacheKind,
    parts: Seq<(u64, u64)>,
    record_from: u64,
    from: u64,
) -> Set<u64> {
    buckets::bucket_starts(kind, record_from as int, from as int).difference(
        required_starts(kind, parts),
    )
}

/// What the plan of a request over usable coverage `covered` is.
pub open spec fn is_bucket_plan(
    plan: BucketPlan,
    kind: CacheKind,
    covered: Seq<(u64, u64)>,
    from: u64,
    to_exclusive: u64,
    record_from: u64,
) -> bool {
    let parts = intervals::clipped(covered, from, to_exclusive);
    &&& plan.from.ms == from
    &&& plan.to_exclusive.ms == to_exclusive
    &&& plan.record_from.ms == record_from
    &&& plan.gaps@ == intervals::request_gaps(covered, from, to_exclusive)
    &&& exists|n: int|
        0 <= n <= plan.buckets@.len() && lists_starts(
            #[trigger] plan.buckets@.take(n),
            required_starts(kind, parts),
            true,
        ) && lists_starts(
            plan.buckets@.skip(n),
            optional_starts(kind, parts, record_from, from),
            false,
        )
}

/// The usable intervals of a stored coverage record.
pub open spec fn usable_coverage(blob: Seq<u8>, dataset_key: Seq<char>) -> Option<
    Seq<(u64, u64)>,
> {
    match coverage::decoded_coverage(blob) {
        Some(model) => if coverage::usable(model, dataset_key) {
            Some(model.2)
        } else {
            None
        },
        None => None,
    }
}

fn marked(starts: &BTreeSet<u64>, required: bool) -> (list: Vec<(u64, bool)>)
    ensures
        lists_starts(list@, starts@, required),
{
    let sorted = ascending(starts);
    let mut list: Vec<(u64, bool)> = Vec::new();
    for i in 0..sorted.len()
        invariant
            list@.len() == i,
            forall|k: int| 0 <= k < i ==> #[trigger] list@[k] == (sorted@[k], required),
    {
        list.push((sorted[i], required));
    }
    proof {
        assert forall|i: int| 0 <= i < list@.len() implies starts@.contains(
            (#[trigger] list@[i]).0,
        ) by {
            assert(sorted@.contains(sorted@[i]));
        }
        assert forall|start: u64| #[trigger] starts@.contains(start) implies exists|i: int|
            0 <= i < list@.len() && (#[trigger] list@[i]).0 == start by {
            assert(sorted@.contains(start));
            let i = choose|i: int| 0 <= i < sorted@.len() && sorted@[i] == start;
            assert(list@[i].0 == start);
        }
    }
    list
}

/// Plans a read of `[from, to_exclusive)` from the stored coverage record. Records from
/// `record_from` on belong to the slice too: a candle may begin before the request and
/// reach into it.
pub fn plan_read(
    kind: CacheKind,
    dataset_key: &str,
    coverage_blob: Option<Vec<u8>>,
    from: UnixMs,
    to_exclusive: UnixMs,
    record_from: UnixMs,
) -> (plan: ReadPlan)
    ensures
        if from.ms >= to_exclusive.ms || coverage_blob is None {
            plan is Miss
        } else {
            match usable_coverage(coverage_blob->0@, dataset_key@) {
                None => plan is DropCoverage,
                Some(covered) => if intervals::clipped(
                    covered,
                    from.ms,
                    to_exclusive.ms,
                ).len() == 0 {
                    plan is Miss
                } else {
                    plan matches ReadPlan::Fetch(buckets) && is_bucket_plan(
                        buckets,
                        kind,
                        covered,
                        from.ms,
                        to_exclusive.ms,
                        record_from.ms,
                    )
                },
            }
        },
{
    if from.ms >= to_exclusive.ms {
        return ReadPlan::Miss;
    }
    let blob: Vec<u8> = match coverage_blob {
        Some(blob) => blob,
        None => {
            return ReadPlan::Miss;
        },
    };
    let covered: Vec<(u64, u64)> = match decode_checked(blob.as_slice()) {
        Ok(record) => match usable_intervals(record, dataset_key) {
            Some(covered) => covered,
            None => {
                return ReadPlan::DropCoverage;
            },
        },
        Err(_) => {
            return ReadPlan::DropCoverage;
        },
    };
    let parts = coverage_intersections(&covered, from.ms, to_exclusive.ms);
    let gaps = coverage_gaps(&covered, from.ms, to_exclusive.ms);
    if parts.len() == 0 {
        return ReadPlan::Miss;
    }
    let mut required: BTreeSet<u64> = BTreeSet::new();
    let mut i: usize = 0;
    while i < parts.len()
        invariant
            i <= parts@.len(),
            forall|start: u64| #[trigger]
                required@.contains(start) == required_starts(kind, parts@.take(i as int)).contains(
                    start,
                ),
        decreases parts@.len() - i,
    {
        let (part_from, part_to) = parts[i];
        let ghost before = required@;
        add_bucket_starts(kind, &mut required, part_from, part_to);
        proof {
            let shorter = parts@.take(i as int);
            let longer = parts@.take(i + 1);
            assert forall|start: u64| #[trigger]
                required@.contains(start) == required_starts(kind, longer).contains(start) by {
                if before.contains(start) {
                    let k = choose|k: int|
                        0 <= k < shorter.len() && buckets::touches(
                            kind,
                            start as int,
                            (#[trigger] shorter[k]).0 as int,
                            shorter[k].1 as int,
                        );
                    assert(longer[k] == shorter[k]);
                }
                if buckets::bucket_starts(kind, part_from as int, part_to as int).contains(start) {
                    assert(longer[i as int] == (part_from, part_to));
                }
                if required_starts(kind, longer).contains(start) {
                    let k = choose|k: int|
                        0 <= k < longer.len() && buckets::touches(
                            kind,
                            start as int,
                            (#[trigger] longer[k]).0 as int,
                            longer[k].1 as int,
                        );
                    if k < i {
                        assert(shorter[k] == longer[k]);
                    }
                }
            }
        }
        i = i + 1;
    }
    assert(parts@.take(parts@.len() as int) =~= parts@);
    assert(required@ =~= required_starts(kind, parts@));
    let mut list = marked(&required, true);
    let mut optional: BTreeSet<u64> = BTreeSet::new();
    let mut before_request: BTreeSet<u64> = BTreeSet::new();
    if record_from.ms < from.ms {
        add_bucket_starts(kind, &mut before_request, record_from.ms, from.ms);
    }
    assert(before_request@ =~= buckets::bucket_starts(kind, record_from.ms as int, from.ms as int));
    let candidates = ascending(&before_request);
    for k in 0..candidates.len()
        invariant
            forall|start: u64| #[trigger]
                optional@.contains(start) == (!required@.contains(start) && exists|m: int|
                    0 <= m < k && #[trigger] candidates@[m] == start),
    {
        let start: u64 = candidates[k];
        if !required.contains(&start) {
            optional.insert(start);
        }
    }
    proof {
        assert forall|start: u64| #[trigger]
            optional@.contains(start) == optional_starts(
                kind,
                parts@,
                record_from.ms,
                from.ms,
            ).contains(start) by {
            assert(before_request@.contains(start) == candidates@.contains(start));
        }
        assert(optional@ =~= optional_starts(kind, parts@, record_from.ms, from.ms));
    }
    let mut tail = marked(&optional, false);
    let ghost head_list = list@;
    let ghost tail_list = tail@;
    list.append(&mut tail);
    let fetch = BucketPlan { from, to_exclusive, record_from, gaps, buckets: list };
    proof {
        let n = head_list.len() as int;
        assert(fetch.buckets@.take(n) =~= head_list);
        assert(fetch.buckets@.skip(n) =~= tail_list);
        assert(is_bucket_plan(
            fetch,
            kind,
            covered@,
            from.ms,
            to_exclusive.ms,
            record_from.ms,
        ));
    }
    ReadPlan::Fetch(fetch)
}

/// A bucket as the store returned it.
#[derive(Debug)]
pub enum FetchedBucket<T> {
    Missing,
    Unreadable,
    Read(StoredBucket<T>),
}

/// What is wrong with one fetched bucket, if anything.
pub open spec fn bucket_problem<T: CacheRecord>(
    fetched: FetchedBucket<T>,
    spec_of: (u64, bool),
    kind: CacheKind,
    dataset_key: Seq<char>,
) -> Option<InvalidReason> {
    match fetched {
        FetchedBucket::Missing => if spec_of.1 {
            Some(InvalidReason::MissingBucket)
        } else {
            None
        },
        FetchedBucket::Unreadable => Some(InvalidReason::InvalidBucket),
        FetchedBucket::Read(bucket) => if bucket.usable(kind, dataset_key, spec_of.0) {
            None
        } else {
            Some(InvalidReason::InvalidBucket)
        },
    }
}

/// The first fetched bucket that is wrong, and how.
pub open spec fn first_problem<T: CacheRecord>(
    fetched: Seq<FetchedBucket<T>>,
    list: Seq<(u64, bool)>,
    kind: CacheKind,
    dataset_key: Seq<char>,
) -> Option<(u64, InvalidReason)>
    decreases fetched.len(),
{
    if fetched.len() == 0 {
        None
    } else {
        match first_problem(fetched.drop_last(), list, kind, dataset_key) {
            Some(problem) => Some(problem),
            None => {
                let last = fetched.len() - 1;
                match bucket_problem(fetched[last], list[last], kind, dataset_key) {
                    Some(reason) => Some((list[last].0, reason)),
                    None => None,
                }
            },
        }
    }
}

/// The records of all fetched buckets, one bucket after the other.
pub open spec fn gathered<T>(fetched: Seq<FetchedBucket<T>>) -> Seq<T>
    decreases fetched.len(),
{
    if fetched.len() == 0 {
        seq![]
    } else {
        let head = gathered(fetched.drop_last());
        match fetched.last() {
            FetchedBucket::Read(bucket) => head + bucket.records@,
            _ => head,
        }
    }
}

/// The records with a moment in `[from, to_exclusive)`, in their order.
pub open spec fn within<T: Timed>(records: Seq<T>, from: u64, to_exclusive: u64) -> Seq<T>
    decreases records.len(),
{
    if records.len() == 0 {
        seq![]
    } else {
        let head = within(records.drop_last(), from, to_exclusive);
        if from <= records.last().moment() < to_exclusive {
            head.push(records.last())
        } else {
            head
        }
    }
}

/// How a read ends.
#[derive(Debug)]
pub enum ReadOutcome<T> {
    /// The stored part of the request.
    Slice(CacheSlice<T>),
    /// The bucket that starts here, and the coverage record, are to be dropped; nothing
    /// is stored.
    Drop(u64, InvalidReason),
}

/// How a read ends with the buckets that were fetched for its plan: at the first bucket that
/// is wrong, or with the normal form of the records of all of them that lie in the request,
/// beside the gaps of the plan.
pub open spec fn is_read_outcome<T: CacheRecord>(
    outcome: ReadOutcome<T>,
    fetched: Seq<FetchedBucket<T>>,
    plan: BucketPlan,
    kind: CacheKind,
    dataset_key: Seq<char>,
) -> bool {
    match first_problem(fetched, plan.buckets@, kind, dataset_key) {
        Some((start, reason)) => outcome == ReadOutcome::<T>::Drop(start, reason),
        None => outcome matches ReadOutcome::Slice(slice) && gap_pairs(slice.gaps@) == plan.gaps@
            && T::is_normal_form(
            within(gathered(fetched), plan.record_from.ms, plan.to_exclusive.ms),
            slice.records@,
        ),
    }
}

fn keep_within<T: Timed>(records: Vec<T>, from: u64, to_exclusive: u64) -> (kept: Vec<T>)
    ensures
        kept@ == within(records@, from, to_exclusive),
{
    let ghost source = records@;
    let mut kept: Vec<T> = Vec::new();
    for record in it: records
        invariant
            it.seq() == source,
            kept@ == within(source.take(it.index()), from, to_exclusive),
    {
        proof {
            let index = it.index();
            assert(source.take(index + 1).drop_last() =~= source.take(index));
            assert(source.take(index + 1).last() == source[index]);
        }
        let moment: u64 = record.timestamp().as_u64();
        if from <= moment && moment < to_exclusive {
            kept.push(record);
        }
    }
    assert(source.take(source.len() as int) =~= source);
    kept
}

fn as_gaps(pairs: &Vec<(u64, u64)>) -> (gaps: Vec<(UnixMs, UnixMs)>)
    ensures
        gap_pairs(gaps@) == pairs@,
{
    let mut gaps: Vec<(UnixMs, UnixMs)> = Vec::new();
    for i in 0..pairs.len()
        invariant
            gaps@.len() == i,
            forall|k: int|
                0 <= k < i ==> (#[trigger] gaps@[k]).0.ms == pairs@[k].0 && gaps@[k].1.ms
                    == pairs@[k].1,
    {
        let (from, to) = pairs[i];
        gaps.push((UnixMs::new(from), UnixMs::new(to)));
    }
    assert(gap_pairs(gaps@) =~= pairs@);
    gaps
}

/// Ends a read with the buckets that were fetched for its plan. The first bucket that is
/// missing though covered, unreadable, or not what the dataset expects there, makes the
/// stored data of the request unusable.
pub fn finish_read<T: CacheRecord>(
    kind: CacheKind,
    dataset_key: &str,
    plan: &BucketPlan,
    fetched: Vec<FetchedBucket<T>>,
) -> (outcome: ReadOutcome<T>)
    requires
        fetched@.len() == plan.buckets@.len(),
    ensures
        is_read_outcome(outcome, fetched@, *plan, kind, dataset_key@),
{
    let ghost all = fetched@;
    let mut records: Vec<T> = Vec::new();
    let mut index: usize = 0;
    let count: usize = plan.buckets.len();
    for item in it: fetched
        invariant
            count == plan.buckets@.len(),
            it.seq() == all,
            index == it.index(),
            all.len() == plan.buckets@.len(),
            index <= all.len(),
            first_problem(all.take(index as int), plan.buckets@, kind, dataset_key@) is None,
            records@ == gathered(all.take(index as int)),
    {
        let (start, required) = plan.buckets[index];
        proof {
            assert(all.take(index + 1).drop_last() =~= all.take(index as int));
            assert(all.take(index + 1).last() == item);
        }
        match item {
            FetchedBucket::Missing => {
                if required {
                    proof {
                        lemma_problem_found(
                            all,
                            plan.buckets@,
                            kind,
                            dataset_key@,
                            index as int,
                            all.len() as int,
                        );
                    }
                    return ReadOutcome::Drop(start, InvalidReason::MissingBucket);
                }
            },
            FetchedBucket::Unreadable => {
                proof {
                    lemma_problem_found(
                        all,
                        plan.buckets@,
                        kind,
                        dataset_key@,
                        index as int,
                        all.len() as int,
                    );
                }
                return ReadOutcome::Drop(start, InvalidReason::InvalidBucket);
            },
            FetchedBucket::Read(bucket) => {
                if !bucket.is_usable(kind, dataset_key, start) {
                    proof {
                        lemma_problem_found(
                            all,
                            plan.buckets@,
                            kind,
                            dataset_key@,
                            index as int,
                            all.len() as int,
                        );
                    }
                    return ReadOutcome::Drop(start, InvalidReason::InvalidBucket);
                }
                let mut found: Vec<T> = bucket.records;
                records.append(&mut found);
            },
        }
        index = index + 1;
    }
    assert(all.take(all.len() as int) =~= all);
    let kept = keep_within(records, plan.record_from.ms, plan.to_exclusive.ms);
    let normal = T::normalize(kept);
    let gaps = as_gaps(&plan.gaps);
    ReadOutcome::Slice(CacheSlice { records: normal, gaps })
}

/// Once a bucket is wrong and none before it, later buckets do not matter.
proof fn lemma_problem_found<T: CacheRecord>(
    fetched: Seq<FetchedBucket<T>>,
    list: Seq<(u64, bool)>,
    kind: CacheKind,
    dataset_key: Seq<char>,
    at: int,
    n: int,
)
    requires
        0 <= at < n <= fetched.len(),
        first_problem(fetched.take(at), list, kind, dataset_key) is None,
        bucket_problem(fetched[at], list[at], kind, dataset_key) is Some,
    ensures
        first_problem(fetched.take(n), list, kind, dataset_key) == Some(
            (list[at].0, bucket_problem(fetched[at], list[at], kind, dataset_key)->0),
        ),
        fetched.take(fetched.len() as int) == fetched,
    decreases n,
{
    assert(fetched.take(n).drop_last() =~= fetched.take(n - 1));
    assert(fetched.take(n).last() == fetched[n - 1]);
    if n - 1 > at {
        lemma_problem_found(fetched, list, kind, dataset_key, at, n - 1);
    }
    assert(fetched.take(fetched.len() as int) =~= fetched);
}

} // verus!
