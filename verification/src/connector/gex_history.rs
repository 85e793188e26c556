//! The cached history of gamma-exposure snapshots, of the remote proxy series and of
//! maker trades.
//!
//! The figures of these records are floating-point numbers that nothing here computes
//! with. A record is therefore held by what orders and admits it, and by the slot at
//! which its figures are kept.
use vstd::prelude::*;
use crate::connector::buckets::{CACHE_SCHEMA, HOURLY_BUCKET_MS};
use crate::connector::keys;
use crate::connector::keys::gex_key_bucket_start;
use crate::connector::records;
use crate::connector::records::{keep_newest, keep_oldest, Timed};
use crate::lists;
use crate::lists::keep_last;
use crate::order;
use crate::order::{ranked_order, select_in_order, stable_order, SortKey, SortRank};
use crate::text;
use crate::text::char_list;
use crate::units;
use crate::units::{saturating_add_u64, saturating_sub_u64, UnixMs};

verus! {

/// A snapshot: when it was observed, whether its figures are valid, and where they are.
#[derive(Clone, Copy, Debug, PartialEq, Eq, Structural)]
pub struct SnapshotRef {
    pub observed_at: UnixMs,
    pub semantically_valid: bool,
    pub slot: usize,
}

impl Timed for SnapshotRef {
    open spec fn moment(&self) -> u64 {
        self.observed_at.ms
    }

    fn timestamp(&self) -> (r: UnixMs) {
        self.observed_at
    }
}

/// One hourly bucket of snapshots.
#[derive(Debug)]
pub struct SnapshotBucket {
    pub schema: u64,
    pub dataset_key: String,
    pub bucket_start: u64,
    pub records: Vec<SnapshotRef>,
}

/// A stored entry: its key, and its bucket where the blob could be decoded.
#[derive(Debug)]
pub struct SnapshotEntry {
    pub key: String,
    pub bucket: Option<SnapshotBucket>,
}

/// The snapshots of a request and how they were found.
#[derive(Debug)]
pub struct GexHistoryCacheRead {
    pub snapshots: Vec<SnapshotRef>,
    pub buckets_requested: u64,
    pub buckets_found: u64,
    pub decoded: u64,
    pub valid: u64,
    pub discarded: u64,
    pub deduplicated: u64,
    pub corrupt_buckets: u64,
}

/// The tally of a read over the entries seen so far.
pub struct ReadTally {
    pub found: nat,
    pub decoded: nat,
    pub discarded: nat,
    pub corrupt: nat,
    pub snapshots: Seq<SnapshotRef>,
}

/// Whether the key of an entry belongs to the dataset and its bucket may hold part of
/// `[from, to]`.
pub open spec fn is_requested(dataset: Seq<char>, key: Seq<char>, from: u64, to: u64) -> bool {
    keys::key_bucket(dataset, key) matches Some(start) && start <= to && units::sat_add(
        start,
        HOURLY_BUCKET_MS,
    ) >= from
}

pub open spec fn is_admitted(snapshot: SnapshotRef, from: u64, to: u64) -> bool {
    from <= snapshot.observed_at.ms <= to && snapshot.semantically_valid
}

/// The admitted snapshots of a list, in order.
pub open spec fn admitted(list: Seq<SnapshotRef>, from: u64, to: u64) -> Seq<SnapshotRef>
    decreases list.len(),
{
    if list.len() == 0 {
        seq![]
    } else {
        let head = admitted(list.drop_last(), from, to);
        if is_admitted(list.last(), from, to) {
            head.push(list.last())
        } else {
            head
        }
    }
}

/// What one more entry adds to a tally.
pub open spec fn tally_entry(
    tally: ReadTally,
    entry: SnapshotEntry,
    dataset: Seq<char>,
    from: u64,
    to: u64,
) -> ReadTally {
    if !is_requested(dataset, entry.key@, from, to) {
        tally
    } else {
        let found = ReadTally { found: tally.found + 1, ..tally };
        match entry.bucket {
            None => ReadTally { corrupt: tally.corrupt + 1, ..found },
            Some(bucket) => {
                let list = bucket.records@;
                if bucket.schema != CACHE_SCHEMA || bucket.dataset_key@ != dataset
                    || Some(bucket.bucket_start) != keys::key_bucket(dataset, entry.key@) {
                    ReadTally { discarded: tally.discarded + list.len(), ..found }
                } else {
                    let kept = admitted(list, from, to);
                    ReadTally {
                        decoded: tally.decoded + list.len(),
                        discarded: (tally.discarded + list.len() - kept.len()) as nat,
                        snapshots: tally.snapshots + kept,
                        ..found
                    }
                }
            },
        }
    }
}

pub open spec fn tally(
    entries: Seq<SnapshotEntry>,
    dataset: Seq<char>,
    from: u64,
    to: u64,
) -> ReadTally
    decreases entries.len(),
{
    if entries.len() == 0 {
        ReadTally { found: 0, decoded: 0, discarded: 0, corrupt: 0, snapshots: seq![] }
    } else {
        tally_entry(
            tally(entries.drop_last(), dataset, from, to),
            entries.last(),
            dataset,
            from,
            to,
        )
    }
}

/// The number of all records in the entries.
pub open spec fn record_count(entries: Seq<SnapshotEntry>) -> nat
    decreases entries.len(),
{
    if entries.len() == 0 {
        0
    } else {
        record_count(entries.drop_last()) + (match entries.last().bucket {
            Some(bucket) => bucket.records@.len(),
            None => 0,
        })
    }
}

proof fn lemma_admitted_len(list: Seq<SnapshotRef>, from: u64, to: u64)
    ensures
        admitted(list, from, to).len() <= list.len(),
    decreases list.len(),
{
    if list.len() > 0 {
        lemma_admitted_len(list.drop_last(), from, to);
    }
}

proof fn lemma_tally_bounds(entries: Seq<SnapshotEntry>, dataset: Seq<char>, from: u64, to: u64)
    ensures
        tally(entries, dataset, from, to).found <= entries.len(),
        tally(entries, dataset, from, to).corrupt <= entries.len(),
        tally(entries, dataset, from, to).discarded + tally(
            entries,
            dataset,
            from,
            to,
        ).snapshots.len() <= record_count(entries),
        tally(entries, dataset, from, to).decoded <= record_count(entries),
    decreases entries.len(),
{
    if entries.len() > 0 {
        lemma_tally_bounds(entries.drop_last(), dataset, from, to);
        match entries.last().bucket {
            Some(bucket) => {
                lemma_admitted_len(bucket.records@, from, to);
            },
            None => {},
        }
    }
}

/// Later entries never take records away from the count.
proof fn lemma_count_grows(entries: Seq<SnapshotEntry>, n: int)
    requires
        0 <= n <= entries.len(),
    ensures
        record_count(entries.take(n)) <= record_count(entries),
    decreases entries.len(),
{
    if n == entries.len() {
        assert(entries.take(n) =~= entries);
    } else {
        assert(entries.take(n) =~= entries.drop_last().take(n));
        lemma_count_grows(entries.drop_last(), n);
    }
}

/// Reads the snapshots observed in `[from, to]` from the stored entries of a dataset.
/// Entries of other datasets and buckets outside the request are passed over, buckets
/// that cannot be decoded are counted, and of snapshots with one moment the first stays.
pub fn read_gex_history_detailed(
    dataset_key: &str,
    from: UnixMs,
    to: UnixMs,
    entries: &Vec<SnapshotEntry>,
) -> (report: GexHistoryCacheRead)
    requires
        record_count(entries@) <= u64::MAX,
    ensures
        report.buckets_requested == units::sat_sub(to.ms, from.ms) as int / (
        HOURLY_BUCKET_MS as int) + 1,
        ({
            let t = tally(entries@, dataset_key@, from.ms, to.ms);
            &&& report.buckets_found == t.found
            &&& report.decoded == t.decoded
            &&& report.discarded == t.discarded
            &&& report.corrupt_buckets == t.corrupt
            &&& report.valid == t.snapshots.len()
            &&& records::oldest_per_moment(t.snapshots, report.snapshots@)
            &&& report.deduplicated == t.snapshots.len() - report.snapshots@.len()
        }),
{
    let buckets_requested: u64 = saturating_sub_u64(to.ms, from.ms) / HOURLY_BUCKET_MS + 1;
    let wanted: String = dataset_key.to_owned();
    let mut buckets_found: u64 = 0;
    let mut decoded: u64 = 0;
    let mut discarded: u64 = 0;
    let mut corrupt: u64 = 0;
    let mut snapshots: Vec<SnapshotRef> = Vec::new();
    let count: usize = entries.len();
    let mut i: usize = 0;
    while i < count
        invariant
            i <= count,
            count == entries@.len(),
            wanted@ == dataset_key@,
            record_count(entries@) <= u64::MAX,
            ({
                let t = tally(entries@.take(i as int), dataset_key@, from.ms, to.ms);
                &&& buckets_found == t.found
                &&& decoded == t.decoded
                &&& discarded == t.discarded
                &&& corrupt == t.corrupt
                &&& snapshots@ == t.snapshots
            }),
        decreases count - i,
    {
        let entry: &SnapshotEntry = &entries[i];
        proof {
            assert(entries@.take(i + 1).drop_last() =~= entries@.take(i as int));
            assert(entries@.take(i + 1).last() == entries@[i as int]);
            lemma_tally_bounds(entries@.take(i + 1), dataset_key@, from.ms, to.ms);
            lemma_count_grows(entries@, i + 1);
        }
        match gex_key_bucket_start(dataset_key, entry.key.as_str()) {
            None => {},
            Some(start) => {
                if start <= to.ms && saturating_add_u64(start, HOURLY_BUCKET_MS) >= from.ms {
                    buckets_found = buckets_found + 1;
                    match &entry.bucket {
                        None => {
                            corrupt = corrupt + 1;
                        },
                        Some(bucket) => {
                            let size: usize = bucket.records.len();
                            if bucket.schema != CACHE_SCHEMA || bucket.dataset_key != wanted
                                || bucket.bucket_start != start {
                                discarded = discarded + size as u64;
                            } else {
                                decoded = decoded + size as u64;
                                let mut kept = select_admitted(&bucket.records, from.ms, to.ms);
                                proof {
                                    lemma_admitted_len(bucket.records@, from.ms, to.ms);
                                }
                                discarded = discarded + (size - kept.len()) as u64;
                                snapshots.append(&mut kept);
                            }
                        },
                    }
                }
            },
        }
        i = i + 1;
    }
    assert(entries@.take(entries@.len() as int) =~= entries@);
    let valid: u64 = snapshots.len() as u64;
    let kept = keep_oldest(snapshots);
    let deduplicated: u64 = valid - kept.len() as u64;
    GexHistoryCacheRead {
        snapshots: kept,
        buckets_requested,
        buckets_found,
        decoded,
        valid,
        discarded,
        deduplicated,
        corrupt_buckets: corrupt,
    }
}

fn select_admitted(list: &Vec<SnapshotRef>, from: u64, to: u64) -> (kept: Vec<SnapshotRef>)
    ensures
        kept@ == admitted(list@, from, to),
{
    let mut kept: Vec<SnapshotRef> = Vec::new();
    let mut i: usize = 0;
    while i < list.len()
        invariant
            i <= list@.len(),
            kept@ == admitted(list@.take(i as int), from, to),
        decreases list@.len() - i,
    {
        let snapshot: SnapshotRef = list[i];
        assert(list@.take(i + 1).drop_last() =~= list@.take(i as int));
        if from <= snapshot.observed_at.ms && snapshot.observed_at.ms <= to
            && snapshot.semantically_valid {
            kept.push(snapshot);
        }
        i = i + 1;
    }
    assert(list@.take(list@.len() as int) =~= list@);
    kept
}

/// The valid snapshots of a list, in order.
pub open spec fn valid_only(list: Seq<SnapshotRef>) -> Seq<SnapshotRef> {
    admitted(list, 0, u64::MAX)
}

/// The snapshots that an existing bucket contributes to a store.
pub open spec fn held_snapshots(existing: Option<SnapshotBucket>, dataset: Seq<char>) -> Seq<
    SnapshotRef,
> {
    match existing {
        Some(bucket) => if bucket.schema == CACHE_SCHEMA && bucket.dataset_key@ == dataset {
            bucket.records@
        } else {
            seq![]
        },
        None => seq![],
    }
}

/// The start of the hourly bucket of a snapshot.
pub fn gex_bucket_start(observed_at: UnixMs) -> (r: u64)
    ensures
        r == observed_at.ms as int / (HOURLY_BUCKET_MS as int) * (HOURLY_BUCKET_MS as int),
{
    assert(observed_at.ms as int / 3_600_000 * 3_600_000 <= observed_at.ms);
    observed_at.ms / HOURLY_BUCKET_MS * HOURLY_BUCKET_MS
}

/// The bucket of a snapshot after it was added: nothing is written for an invalid
/// snapshot; of snapshots with one moment the one stored first stays.
pub fn store_gex_snapshot(
    dataset_key: &str,
    existing: Option<SnapshotBucket>,
    snapshot: SnapshotRef,
) -> (r: Option<SnapshotBucket>)
    ensures
        match r {
            None => !snapshot.semantically_valid,
            Some(bucket) => snapshot.semantically_valid && bucket.schema == CACHE_SCHEMA
                && bucket.dataset_key@ == dataset_key@ && bucket.bucket_start
                == snapshot.observed_at.ms as int / (HOURLY_BUCKET_MS as int) * (
            HOURLY_BUCKET_MS as int) && records::oldest_per_moment(
                valid_only(held_snapshots(existing, dataset_key@).push(snapshot)),
                bucket.records@,
            ),
        },
{
    if !snapshot.semantically_valid {
        return None;
    }
    let bucket_start: u64 = gex_bucket_start(snapshot.observed_at);
    let wanted: String = dataset_key.to_owned();
    let ghost held = held_snapshots(existing, dataset_key@);
    let mut list: Vec<SnapshotRef> = match existing {
        Some(bucket) => if bucket.schema == CACHE_SCHEMA && bucket.dataset_key == wanted {
            bucket.records
        } else {
            Vec::new()
        },
        None => Vec::new(),
    };
    assert(list@ =~= held);
    list.push(snapshot);
    let valid = select_admitted(&list, 0, u64::MAX);
    let records = keep_oldest(valid);
    Some(SnapshotBucket { schema: CACHE_SCHEMA, dataset_key: wanted, bucket_start, records })
}

/// Whether a stored key survives the pruning that follows a store at `observed_at`: keys
/// of other datasets and keys without a bucket start do, others while their hour reaches
/// into the last day.
pub open spec fn survives_pruning(dataset: Seq<char>, key: Seq<char>, observed_at: u64) -> bool {
    match keys::key_bucket(dataset, key) {
        Some(start) => start + HOURLY_BUCKET_MS >= units::sat_sub(observed_at, 86_400_000),
        None => true,
    }
}

pub fn keeps_stored_key(dataset_key: &str, key: &str, observed_at: UnixMs) -> (r: bool)
    ensures
        r == survives_pruning(dataset_key@, key@, observed_at.ms),
{
    let cutoff: u64 = saturating_sub_u64(observed_at.ms, 86_400_000);
    match gex_key_bucket_start(dataset_key, key) {
        Some(start) => saturating_add_u64(start, HOURLY_BUCKET_MS) >= cutoff,
        None => true,
    }
}

/// A point of the remote proxy series: when it was observed, whether its figures are
/// valid, and where they are.
#[derive(Clone, Copy, Debug, PartialEq, Eq, Structural)]
pub struct ProxyRef {
    pub observed_at: i64,
    pub semantically_valid: bool,
    pub slot: usize,
}

impl Timed for ProxyRef {
    /// The moments of a signed clock, moved up so that they ascend from zero.
    open spec fn moment(&self) -> u64 {
        (self.observed_at + 0x8000_0000_0000_0000) as u64
    }

    fn timestamp(&self) -> (r: UnixMs) {
        UnixMs::new((self.observed_at as i128 + 0x8000_0000_0000_0000) as u64)
    }
}

pub const PROXY_RETENTION_MS: i64 = 87_000_000;

pub const MAX_PROXY_RECORDS: usize = 320;

/// `now_ms - ms`, not below the smallest value.
pub open spec fn sat_sub_i64(now_ms: i64, ms: i64) -> i64 {
    if now_ms - ms < i64::MIN {
        i64::MIN
    } else if now_ms - ms > i64::MAX {
        i64::MAX
    } else {
        (now_ms - ms) as i64
    }
}

pub fn saturating_sub_i64(now_ms: i64, ms: i64) -> (r: i64)
    ensures
        r == sat_sub_i64(now_ms, ms),
{
    let difference: i128 = now_ms as i128 - ms as i128;
    if difference < i64::MIN as i128 {
        i64::MIN
    } else if difference > i64::MAX as i128 {
        i64::MAX
    } else {
        difference as i64
    }
}

/// The valid points that are not older than the cutoff, in order.
pub open spec fn recent_points(list: Seq<ProxyRef>, cutoff: i64) -> Seq<ProxyRef>
    decreases list.len(),
{
    if list.len() == 0 {
        seq![]
    } else {
        let head = recent_points(list.drop_last(), cutoff);
        if list.last().semantically_valid && list.last().observed_at >= cutoff {
            head.push(list.last())
        } else {
            head
        }
    }
}

pub fn retain_recent(list: &Vec<ProxyRef>, cutoff: i64) -> (kept: Vec<ProxyRef>)
    ensures
        kept@ == recent_points(list@, cutoff),
{
    let mut kept: Vec<ProxyRef> = Vec::new();
    let mut i: usize = 0;
    while i < list.len()
        invariant
            i <= list@.len(),
            kept@ == recent_points(list@.take(i as int), cutoff),
        decreases list@.len() - i,
    {
        let point: ProxyRef = list[i];
        assert(list@.take(i + 1).drop_last() =~= list@.take(i as int));
        if point.semantically_valid && point.observed_at >= cutoff {
            kept.push(point);
        }
        i = i + 1;
    }
    assert(list@.take(list@.len() as int) =~= list@);
    kept
}

/// The proxy series as it is cached: valid points of the last day and ten minutes, the
/// newest of each moment, in ascending order, at most the last 320.
pub fn normalize_gex_proxy_history(points: Vec<ProxyRef>, now_ms: i64) -> (r: Vec<ProxyRef>)
    ensures
        is_cached_series(points@, now_ms, r@),
        r@.len() <= MAX_PROXY_RECORDS,
{
    let cutoff: i64 = saturating_sub_i64(now_ms, PROXY_RETENTION_MS);
    let recent = retain_recent(&points, cutoff);
    let all = keep_newest(recent);
    keep_last(all, MAX_PROXY_RECORDS)
}

/// A maker trade: its id, when it happened, whether its figures are valid, and where they
/// are.
#[derive(Debug)]
pub struct MakerTradeRef {
    pub trade_id: String,
    pub timestamp: UnixMs,
    pub semantically_valid: bool,
    pub slot: usize,
}

pub const MAKER_RETENTION_MS: u64 = 87_000_000;

pub const MAX_MAKER_TRADES: usize = 50_000;

/// The characters of an id, as a sort key.
struct IdKey {
    chars: Vec<char>,
}

impl SortRank for IdKey {
    closed spec fn before(&self, other: &Self) -> bool {
        text::lex_lt(self.chars@, other.chars@)
    }

    fn is_before(&self, other: &Self) -> (r: bool) {
        text::is_lex_lt(&self.chars, &other.chars)
    }

    proof fn order_laws(a: &Self, b: &Self, c: &Self) {
        text::lex_order_laws(a.chars@, b.chars@, c.chars@);
    }
}

pub open spec fn is_recent_trade(trade: MakerTradeRef, now: u64) -> bool {
    &&& trade.semantically_valid
    &&& units::sat_sub(now, MAKER_RETENTION_MS) <= trade.timestamp.ms <= now
}

/// The valid trades of the retention window, in order.
pub open spec fn recent_trades(list: Seq<MakerTradeRef>, now: u64) -> Seq<MakerTradeRef>
    decreases list.len(),
{
    if list.len() == 0 {
        seq![]
    } else {
        let head = recent_trades(list.drop_last(), now);
        if is_recent_trade(list.last(), now) {
            head.push(list.last())
        } else {
            head
        }
    }
}

/// No later trade of the list has the id of the trade at `i`.
pub open spec fn is_latest_of_id(list: Seq<MakerTradeRef>, i: int) -> bool {
    forall|j: int| i < j < list.len() ==> (#[trigger] list[j]).trade_id@ != list[i].trade_id@
}

/// Trades are ordered by time, trades of one moment by id.
pub open spec fn maker_before(a: MakerTradeRef, b: MakerTradeRef) -> bool {
    a.timestamp.ms < b.timestamp.ms || (a.timestamp.ms == b.timestamp.ms && text::lex_lt(
        a.trade_id@,
        b.trade_id@,
    ))
}

/// The latest trade of each id, ordered by time and id.
pub open spec fn latest_per_id(source: Seq<MakerTradeRef>, out: Seq<MakerTradeRef>) -> bool {
    records::is_selection(
        source,
        out,
        |i: int| is_latest_of_id(source, i),
        |i: int, j: int| maker_before(source[i], source[j]),
    )
}

fn retain_recent_trades(list: Vec<MakerTradeRef>, now: u64) -> (kept: Vec<MakerTradeRef>)
    ensures
        kept@ == recent_trades(list@, now),
{
    let ghost source = list@;
    let cutoff: u64 = saturating_sub_u64(now, MAKER_RETENTION_MS);
    let mut kept: Vec<MakerTradeRef> = Vec::new();
    for trade in it: list
        invariant
            it.seq() == source,
            cutoff == units::sat_sub(now, MAKER_RETENTION_MS),
            kept@ == recent_trades(source.take(it.index()), now),
    {
        proof {
            assert(source.take(it.index() + 1).drop_last() =~= source.take(it.index()));
            assert(source.take(it.index() + 1).last() == source[it.index()]);
        }
        if trade.semantically_valid && trade.timestamp.ms >= cutoff && trade.timestamp.ms <= now {
            kept.push(trade);
        }
    }
    assert(source.take(source.len() as int) =~= source);
    kept
}

/// The positions of the latest trade of each id, in ascending order of id.
fn latest_positions(list: &Vec<MakerTradeRef>) -> (at: Vec<usize>)
    ensures
        forall|k: int|
            0 <= k < at@.len() ==> (#[trigger] at@[k]) < list@.len() && is_latest_of_id(
                list@,
                at@[k] as int,
            ),
        forall|a: int, b: int|
            0 <= a < b < at@.len() ==> text::lex_lt(
                list@[(#[trigger] at@[a]) as int].trade_id@,
                list@[(#[trigger] at@[b]) as int].trade_id@,
            ),
        forall|i: int|
            0 <= i < list@.len() && #[trigger] is_latest_of_id(list@, i) ==> at@.contains(
                i as usize,
            ),
{
    let mut keys: Vec<IdKey> = Vec::new();
    for i in 0..list.len()
        invariant
            keys@.len() == i,
            forall|k: int|
                0 <= k < i ==> (#[trigger] keys@[k]).chars@ == list@[k].trade_id@,
    {
        keys.push(IdKey { chars: char_list(list[i].trade_id.as_str()) });
    }
    let sorted = ranked_order(&keys);
    let mut at: Vec<usize> = Vec::new();
    let mut k: usize = 0;
    let count: usize = list.len();
    while k < sorted.len()
        invariant
            k <= sorted@.len(),
            count == list@.len(),
            keys@.len() == list@.len(),
            forall|i: int|
                0 <= i < keys@.len() ==> (#[trigger] keys@[i]).chars@ == list@[i].trade_id@,
            order::is_ranked_order(keys@, 0, keys@.len() as int, sorted@),
            forall|i: int|
                0 <= i < at@.len() ==> (#[trigger] at@[i]) < list@.len() && is_latest_of_id(
                    list@,
                    at@[i] as int,
                ),
            forall|a: int, b: int|
                0 <= a < b < at@.len() ==> text::lex_lt(
                    list@[(#[trigger] at@[a]) as int].trade_id@,
                    list@[(#[trigger] at@[b]) as int].trade_id@,
                ),
            forall|i: int, m: int|
                0 <= i < at@.len() && k <= m < sorted@.len() ==> text::lex_lt(
                    list@[(#[trigger] at@[i]) as int].trade_id@,
                    list@[(#[trigger] sorted@[m]) as int].trade_id@,
                ),
            forall|m: int|
                0 <= m < k && is_latest_of_id(list@, (#[trigger] sorted@[m]) as int)
                    ==> at@.contains(sorted@[m]),
        decreases sorted@.len() - k,
    {
        let here: usize = sorted[k];
        let ghost before = at@;
        let last_of_id: bool = k + 1 >= sorted.len() || keys[here].is_before(&keys[sorted[k + 1]]);
        proof {
            lemma_last_of_run(list@, keys@, sorted@, k as int, last_of_id);
        }
        if last_of_id {
            at.push(here);
        }
        proof {
            assert forall|m: int|
                0 <= m < k + 1 && is_latest_of_id(list@, (#[trigger] sorted@[m]) as int) implies
                at@.contains(sorted@[m]) by {
                if m < k {
                    assert(before.contains(sorted@[m]));
                    let w = choose|w: int| 0 <= w < before.len() && before[w] == sorted@[m];
                    assert(at@[w] == sorted@[m]);
                } else {
                    assert(at@[before.len() as int] == here);
                }
            }
        }
        k = k + 1;
    }
    proof {
        assert forall|i: int| 0 <= i < list@.len() && #[trigger] is_latest_of_id(list@, i) implies
            at@.contains(i as usize) by {
            assert(sorted@.contains(i as usize));
            let m = choose|m: int| 0 <= m < sorted@.len() && sorted@[m] == i;
            assert(at@.contains(sorted@[m]));
        }
    }
    at
}

/// In the order of ids a trade is the latest of its id exactly when the next one has a
/// larger id, and then all that follow have.
proof fn lemma_last_of_run(
    list: Seq<MakerTradeRef>,
    keys: Seq<IdKey>,
    sorted: Seq<usize>,
    k: int,
    last_of_id: bool,
)
    requires
        keys.len() == list.len(),
        list.len() <= usize::MAX,
        forall|i: int| 0 <= i < keys.len() ==> (#[trigger] keys[i]).chars@ == list[i].trade_id@,
        order::is_ranked_order(keys, 0, keys.len() as int, sorted),
        0 <= k < sorted.len(),
        last_of_id == (k + 1 >= sorted.len() || text::lex_lt(
            list[sorted[k] as int].trade_id@,
            list[sorted[k + 1] as int].trade_id@,
        )),
    ensures
        is_latest_of_id(list, sorted[k] as int) == last_of_id,
        last_of_id ==> forall|m: int|
            k < m < sorted.len() ==> text::lex_lt(
                list[sorted[k] as int].trade_id@,
                list[(#[trigger] sorted[m]) as int].trade_id@,
            ),
{
    let here = sorted[k] as int;
    let id = list[here].trade_id@;
    assert(keys[here].chars@ == id);
    if last_of_id {
        assert forall|m: int| k < m < sorted.len() implies text::lex_lt(
            id,
            list[(#[trigger] sorted[m]) as int].trade_id@,
        ) by {
            if m > k + 1 {
                let next = sorted[k + 1] as int;
                let far = sorted[m] as int;
                assert(order::rank_precedes(keys, sorted[k + 1] as int, sorted[m] as int));
                assert(keys[next].chars@ == list[next].trade_id@);
                assert(keys[far].chars@ == list[far].trade_id@);
                text::lex_order_laws(id, list[far].trade_id@, list[next].trade_id@);
                text::lex_order_laws(
                    list[far].trade_id@,
                    list[next].trade_id@,
                    list[next].trade_id@,
                );
            }
        }
        assert forall|j: int| here < j < list.len() implies (#[trigger] list[j]).trade_id@
            != id by {
            if list[j].trade_id@ == id {
                assert(sorted.contains(j as usize));
                let m = choose|m: int| 0 <= m < sorted.len() && sorted[m] == j;
                text::lex_order_laws(id, id, id);
                if m < k {
                    assert(order::rank_precedes(keys, sorted[m] as int, sorted[k] as int));
                    assert(keys[j].chars@ == id);
                    assert(false);
                }
                assert(text::lex_lt(id, list[sorted[m] as int].trade_id@));
                assert(false);
            }
        }
    } else {
        let next = sorted[k + 1] as int;
        assert(order::rank_precedes(keys, sorted[k] as int, sorted[k + 1] as int));
        assert(keys[next].chars@ == list[next].trade_id@);
        text::lex_order_laws(id, list[next].trade_id@, id);
        assert(list[next].trade_id@ == id);
        assert(here < next);
        assert(!is_latest_of_id(list, here));
    }
}

/// The latest trade of each id, ordered by time and id.
pub fn keep_latest_per_id(recent: Vec<MakerTradeRef>) -> (all: Vec<MakerTradeRef>)
    ensures
        latest_per_id(recent@, all@),
{
    let ghost source = recent@;
    let total: usize = recent.len();
    let by_id = latest_positions(&recent);
    let listed: usize = by_id.len();
    let mut keys: Vec<SortKey> = Vec::new();
    for i in 0..listed
        invariant
            recent@ == source,
            listed == by_id@.len(),
            keys@.len() == i,
            forall|k: int| 0 <= k < by_id@.len() ==> (#[trigger] by_id@[k]) < source.len(),
            forall|k: int|
                0 <= k < i ==> #[trigger] keys@[k] == (
                    source[by_id@[k] as int].timestamp.ms,
                    0u128,
                ),
    {
        keys.push((recent[by_id[i]].timestamp.ms, 0));
    }
    let sorted = stable_order(&keys);
    let mut at: Vec<usize> = Vec::new();
    for i in 0..sorted.len()
        invariant
            at@.len() == i,
            sorted@.len() == by_id@.len(),
            forall|k: int| 0 <= k < sorted@.len() ==> (#[trigger] sorted@[k]) < by_id@.len(),
            forall|k: int| 0 <= k < i ==> #[trigger] at@[k] == by_id@[sorted@[k] as int],
    {
        at.push(by_id[sorted[i]]);
    }
    proof {
        let keep = |i: int| is_latest_of_id(source, i);
        let before = |i: int, j: int| maker_before(source[i], source[j]);
        assert forall|a: int, b: int| 0 <= a < b < at@.len() implies before(
            (#[trigger] at@[a]) as int,
            (#[trigger] at@[b]) as int,
        ) by {
            let x = sorted@[a] as int;
            let y = sorted@[b] as int;
            assert(order::precedes(keys@, sorted@[a] as int, sorted@[b] as int));
            assert(at@[a] == by_id@[x]);
            assert(at@[b] == by_id@[y]);
            assert(keys@[x] == (source[by_id@[x] as int].timestamp.ms, 0u128));
            assert(keys@[y] == (source[by_id@[y] as int].timestamp.ms, 0u128));
            if keys@[x] == keys@[y] {
                assert(text::lex_lt(
                    source[by_id@[x] as int].trade_id@,
                    source[by_id@[y] as int].trade_id@,
                ));
            }
        }
        assert forall|k: int| 0 <= k < at@.len() implies (#[trigger] at@[k]) < source.len() && keep(
            at@[k] as int,
        ) by {
            assert(at@[k] == by_id@[sorted@[k] as int]);
        }
        assert forall|i: int| 0 <= i < source.len() && #[trigger] keep(i) implies exists|k: int|
            0 <= k < at@.len() && at@[k] == i by {
            assert(by_id@.contains(i as usize));
            let w = choose|w: int| 0 <= w < by_id@.len() && by_id@[w] == i;
            assert(sorted@.contains(w as usize));
            let m = choose|m: int| 0 <= m < sorted@.len() && sorted@[m] == w;
            assert(at@[m] == i);
        }
        assert forall|a: int, b: int| 0 <= a < b < at@.len() implies at@[a] != at@[b] by {
            assert(before(at@[a] as int, at@[b] as int));
            text::lex_order_laws(
                source[at@[a] as int].trade_id@,
                source[at@[b] as int].trade_id@,
                source[at@[b] as int].trade_id@,
            );
        }
    }
    let all = select_in_order(recent, &at);
    proof {
        let keep = |i: int| is_latest_of_id(source, i);
        let before = |i: int, j: int| maker_before(source[i], source[j]);
        assert(records::is_selection_at(source, all@, keep, before, at@));
        assert(latest_per_id(source, all@));
    }
    all
}

/// The maker trades as they are cached: valid trades of the last day and ten minutes, the
/// latest of each id, ordered by time and id, at most the last 50 000.
pub fn normalize_derive_maker_trades(trades: Vec<MakerTradeRef>, now: UnixMs) -> (r: Vec<
    MakerTradeRef,
>)
    ensures
        is_cached_flow(trades@, now.ms, r@),
        r@.len() <= MAX_MAKER_TRADES,
{
    let recent = retain_recent_trades(trades, now.ms);
    let all = keep_latest_per_id(recent);
    keep_last(all, MAX_MAKER_TRADES)
}

/// The cached form of the proxy series: valid points within the retention, the newest of
/// each moment, and of those the last ones.
pub open spec fn is_cached_series(points: Seq<ProxyRef>, now_ms: i64, r: Seq<ProxyRef>) -> bool {
    exists|all: Seq<ProxyRef>| #[trigger]
        records::newest_per_moment(
            recent_points(points, sat_sub_i64(now_ms, PROXY_RETENTION_MS)),
            all,
        ) && r == lists::last_of(all, MAX_PROXY_RECORDS as nat)
}

/// The cached form of maker trades.
pub open spec fn is_cached_flow(
    trades: Seq<MakerTradeRef>,
    now: u64,
    r: Seq<MakerTradeRef>,
) -> bool {
    exists|all: Seq<MakerTradeRef>| #[trigger]
        latest_per_id(recent_trades(trades, now), all) && r
            == lists::last_of(all, MAX_MAKER_TRADES as nat)
}

/// A stored series: its schema, its dataset, and its records.
#[derive(Debug)]
pub struct StoredSeries<T> {
    pub schema: u64,
    pub dataset_key: String,
    pub bucket_start: u64,
    pub records: Vec<T>,
}

impl<T> StoredSeries<T> {
    /// Whether the series is of the current schema and of the dataset.
    pub open spec fn fits(self, dataset_key: Seq<char>) -> bool {
        self.schema == CACHE_SCHEMA && self.dataset_key@ == dataset_key
    }
}

/// The records of a stored series that is of the current schema and of the dataset.
fn kept_records<T>(stored: Option<StoredSeries<T>>, dataset_key: &str) -> (r: Option<Vec<T>>)
    ensures
        r == (match stored {
            Some(series) => if series.fits(dataset_key@) {
                Some(series.records)
            } else {
                None
            },
            None => None,
        }),
{
    let wanted: String = dataset_key.to_owned();
    match stored {
        Some(series) => if series.schema == CACHE_SCHEMA && series.dataset_key == wanted {
            Some(series.records)
        } else {
            None
        },
        None => None,
    }
}

/// The points of a stored series that are still to be used; none where the series could not
/// be read, or is of another schema or dataset.
pub fn read_gex_proxy_history(
    dataset_key: &str,
    stored: Option<StoredSeries<ProxyRef>>,
    now_ms: i64,
) -> (r: Vec<ProxyRef>)
    ensures
        match stored {
            Some(series) => if series.fits(dataset_key@) {
                is_cached_series(series.records@, now_ms, r@)
            } else {
                r@.len() == 0
            },
            None => r@.len() == 0,
        },
{
    match kept_records(stored, dataset_key) {
        Some(records) => normalize_gex_proxy_history(records, now_ms),
        None => Vec::new(),
    }
}

/// The series to store for points; nothing is stored where none of them is still to be used.
pub fn store_gex_proxy_history(dataset_key: &str, points: Vec<ProxyRef>, now_ms: i64) -> (r: Option<
    StoredSeries<ProxyRef>,
>)
    ensures
        match r {
            Some(series) => series.fits(dataset_key@) && series.bucket_start == 0
                && series.records@.len() > 0 && is_cached_series(
                points@,
                now_ms,
                series.records@,
            ),
            None => is_cached_series(points@, now_ms, seq![]),
        },
{
    let records = normalize_gex_proxy_history(points, now_ms);
    if records.len() == 0 {
        assert(records@ =~= seq![]);
        return None;
    }
    Some(
        StoredSeries {
            schema: CACHE_SCHEMA,
            dataset_key: dataset_key.to_owned(),
            bucket_start: 0,
            records,
        },
    )
}

/// The maker trades of a stored series that are still to be used; none where the series
/// could not be read, or is of another schema or dataset.
pub fn read_derive_maker_trades(
    dataset_key: &str,
    stored: Option<StoredSeries<MakerTradeRef>>,
    now: UnixMs,
) -> (r: Vec<MakerTradeRef>)
    ensures
        match stored {
            Some(series) => if series.fits(dataset_key@) {
                is_cached_flow(series.records@, now.ms, r@)
            } else {
                r@.len() == 0
            },
            None => r@.len() == 0,
        },
{
    match kept_records(stored, dataset_key) {
        Some(records) => normalize_derive_maker_trades(records, now),
        None => Vec::new(),
    }
}

/// The series to store for maker trades, also where none of them is still to be used.
pub fn store_derive_maker_trades(dataset_key: &str, trades: Vec<MakerTradeRef>, now: UnixMs) -> (r:
    StoredSeries<MakerTradeRef>)
    ensures
        r.fits(dataset_key@),
        r.bucket_start == 0,
        is_cached_flow(trades@, now.ms, r.records@),
{
    StoredSeries {
        schema: CACHE_SCHEMA,
        dataset_key: dataset_key.to_owned(),
        bucket_start: 0,
        records: normalize_derive_maker_trades(trades, now),
    }
}

} // verus!
