//! The persistent cache: coverage, framing and stored records.
use std::collections::BTreeMap;

use flowsurface::connector::bubble_merge::merge_bubble_summaries;
use flowsurface::connector::buckets::{
    add_bucket_starts, bucket_for, CacheKind, CACHE_SCHEMA, HOURLY_BUCKET_MS, TRADE_BUCKET_MS,
};
use flowsurface::connector::cache_store::{merge_bucket, plan_store, BucketTooLarge, SkipReason};
use flowsurface::connector::coverage::{
    decode_checked, encode_checked, extended_coverage, StoredCoverage,
};
use flowsurface::connector::frame::{checked_payload, crc32, frame_payload, BlobError};
use flowsurface::connector::gex_history::{
    gex_bucket_start, keeps_stored_key, normalize_derive_maker_trades,
    normalize_gex_proxy_history, read_derive_maker_trades, read_gex_history_detailed,
    read_gex_proxy_history, store_derive_maker_trades, store_gex_proxy_history,
    store_gex_snapshot, MakerTradeRef, ProxyRef, SnapshotBucket, SnapshotEntry, SnapshotRef,
    StoredSeries,
};
use flowsurface::connector::intervals::{
    coverage_gaps, coverage_intersections, merge_intervals, valid_intervals,
};
use flowsurface::connector::keys::{
    belongs_to_dataset, bucket_key, gex_bucket_key, gex_key_bucket_start, kline_dataset_key,
    open_interest_dataset_key, trade_dataset_key,
};
use flowsurface::connector::kline_integrity::reopen_holes;
use flowsurface::connector::persistent_cache::{
    finish_read, plan_read, CacheSlice, FetchedBucket, InvalidReason, ReadOutcome, ReadPlan,
    StoredBucket,
};
use flowsurface::connector::records::{
    BubbleCandidate, BubbleVolumeSummary, CacheRecord, Kline, Trade,
};
use flowsurface::units::{Bits32, Price, Qty, Timeframe, UnixMs, Volume};

const TICKER: &str = "BTCUSDT:binance";
const SCALE: i64 = 100_000_000_000;

fn at(ms: u64) -> UnixMs {
    UnixMs::new(ms)
}

fn bubble_candidate(
    qty: i64,
    first_time: u64,
    last_time: u64,
    trade_count: usize,
) -> BubbleCandidate {
    let score = Bits32 { bits: (qty as f32).to_bits() };
    let qty = Qty::from_units(qty);
    BubbleCandidate {
        id: first_time,
        candle_time: at(60_000),
        first_time: at(first_time),
        last_time: at(last_time),
        weighted_time: at((first_time + last_time) / 2),
        vwap_price: Price::from_units(100 * SCALE),
        total_qty: qty,
        buy_qty: qty,
        sell_qty: Qty::from_units(0),
        delta_qty: qty,
        trade_count,
        largest_trade_qty: qty,
        percentile_rank: Bits32 { bits: 0 },
        importance_score: score,
    }
}

#[test]
fn open_interest_cache_is_separated_by_source_timeframe() {
    assert_ne!(
        open_interest_dataset_key(TICKER, Timeframe::M1),
        open_interest_dataset_key(TICKER, Timeframe::M5)
    );
}

#[test]
fn merges_coverage_and_finds_only_real_gaps() {
    let coverage = merge_intervals(vec![(100, 200), (150, 250), (300, 400)]);
    assert_eq!(coverage, vec![(100, 250), (300, 400)]);
    assert_eq!(
        coverage_gaps(&coverage, 50, 450),
        vec![(50, 100), (250, 300), (400, 450)]
    );
}

#[test]
fn checked_blob_detects_corruption() {
    let coverage = StoredCoverage {
        schema: CACHE_SCHEMA,
        dataset_key: "test".to_string(),
        intervals: vec![(1, 2)],
    };
    let mut encoded = encode_checked(&coverage).unwrap();
    let last = encoded.len() - 1;
    encoded[last] ^= 0xff;
    assert!(decode_checked(&encoded).is_err());
}

#[test]
fn overlapping_bubble_summaries_are_not_added_twice() {
    let duplicate = bubble_candidate(10, 61_000, 62_000, 4);
    let merged = merge_bubble_summaries(
        &vec![
            BubbleVolumeSummary::new(at(60_000), vec![duplicate]),
            BubbleVolumeSummary::new(at(60_000), vec![duplicate]),
        ],
        3,
    );

    assert_eq!(merged.len(), 1);
    assert_eq!(merged[0].candidates.len(), 1);
    assert_eq!(merged[0].candidates[0].total_qty, Qty::from_units(10));
    assert_eq!(merged[0].candidates[0].trade_count, 4);
}

#[test]
fn different_cluster_ids_are_preserved_without_summing() {
    let merged = merge_bubble_summaries(
        &vec![
            BubbleVolumeSummary::new(at(60_000), vec![bubble_candidate(10, 61_000, 62_000, 4)]),
            BubbleVolumeSummary::new(at(60_000), vec![bubble_candidate(5, 62_001, 63_000, 2)]),
        ],
        3,
    );

    assert_eq!(merged[0].candidates.len(), 2);
    let total: i64 = merged[0].candidates.iter().map(|c| c.total_qty.units).sum();
    assert_eq!(total, 15);
}

#[test]
fn a_coverage_record_is_read_back_as_it_was_written() {
    let coverage = StoredCoverage {
        schema: CACHE_SCHEMA,
        dataset_key: "kline|BTCUSDT".to_string(),
        intervals: vec![(1, 2), (5, u64::MAX)],
    };
    let encoded = encode_checked(&coverage).unwrap();
    let decoded = decode_checked(&encoded).unwrap();
    assert_eq!(decoded.schema, coverage.schema);
    assert_eq!(decoded.dataset_key, coverage.dataset_key);
    assert_eq!(decoded.intervals, coverage.intervals);
}

#[test]
fn every_kind_of_damage_has_its_error() {
    let framed = frame_payload(b"payload").unwrap();
    assert_eq!(checked_payload(&framed).unwrap(), b"payload".to_vec());
    assert!(matches!(checked_payload(&framed[..10]), Err(BlobError::Header)));
    let mut magic = framed.clone();
    magic[0] ^= 1;
    assert!(matches!(checked_payload(&magic), Err(BlobError::Header)));
    let mut longer = framed.clone();
    longer.push(0);
    assert!(matches!(checked_payload(&longer), Err(BlobError::Length)));
    let mut flipped = framed.clone();
    let last = flipped.len() - 1;
    flipped[last] ^= 1;
    assert!(matches!(checked_payload(&flipped), Err(BlobError::Checksum)));
    assert!(!BlobError::Checksum.describe().is_empty());
    assert_eq!(crc32(b"123456789"), 0xcbf4_3926);
    let garbage = frame_payload(&[0xff; 3]).unwrap();
    assert!(matches!(decode_checked(&garbage), Err(BlobError::Codec(_))));
    let coverage = StoredCoverage {
        schema: CACHE_SCHEMA,
        dataset_key: "a".to_string(),
        intervals: vec![],
    };
    let encoded = encode_checked(&coverage).unwrap();
    let mut payload = checked_payload(&encoded).unwrap();
    payload.push(0);
    let trailing = frame_payload(&payload).unwrap();
    assert!(matches!(decode_checked(&trailing), Err(BlobError::Trailing)));
}

#[test]
fn a_key_that_cannot_be_held_is_refused() {
    let refused = |payload: &[u8]| {
        let blob = frame_payload(payload).unwrap();
        matches!(decode_checked(&blob), Err(BlobError::Length))
    };
    assert!(refused(&[0, 253, 255, 255, 255, 255, 255, 255, 255, 255]));
    assert!(refused(&[0, 253, 0, 0, 0, 0, 0, 0, 0, 128]));
    assert!(refused(&[251, 44, 1, 252, 0, 0, 0, 64]));
    assert!(refused(&[0, 252, 1, 0, 0, 32]));
    for payload in [&[0, 2, b'a'][..], &[0, 251, 255, 255], &[0, 1, b'a'], &[0, 253, 255]] {
        let blob = frame_payload(payload).unwrap();
        assert!(matches!(decode_checked(&blob), Err(BlobError::Codec(_))));
    }
    let long = StoredCoverage {
        schema: CACHE_SCHEMA,
        dataset_key: "k".repeat(70_000),
        intervals: vec![(300, 70_000), (80_000, u64::MAX)],
    };
    let decoded = decode_checked(&encode_checked(&long).unwrap()).unwrap();
    assert_eq!(decoded, long);
    let replaced = extended_coverage(
        Some(frame_payload(&[0, 253, 255, 255, 255, 255, 255, 255, 255, 255]).unwrap()),
        "a",
        1,
        2,
    );
    assert_eq!(replaced.intervals, vec![(1, 2)]);
}

#[test]
fn bucket_keys_sort_as_their_moments() {
    assert_eq!(bucket_key("d", 60_000), "d|bucket=00000000000000060000");
    assert!(bucket_key("d", 60_000) < bucket_key("d", 3_600_000));
    assert!(bucket_key("d", 99) < bucket_key("d", u64::MAX));
    assert!(gex_bucket_key("d", 99) < gex_bucket_key("d", 100));
}

#[test]
fn a_series_of_another_dataset_or_schema_is_not_read() {
    let now = 10 * 86_400_000;
    let point = |observed_at: i64, slot: usize| ProxyRef {
        observed_at,
        semantically_valid: true,
        slot,
    };
    let series = |schema: u64, dataset_key: &str| StoredSeries {
        schema,
        dataset_key: dataset_key.to_string(),
        bucket_start: 0,
        records: vec![point(now, 0), point(now - 5, 1)],
    };
    let read = |stored| read_gex_proxy_history("a", stored, now).len();
    assert_eq!(read(Some(series(CACHE_SCHEMA, "a"))), 2);
    assert_eq!(read(Some(series(CACHE_SCHEMA, "b"))), 0);
    assert_eq!(read(Some(series(CACHE_SCHEMA + 1, "a"))), 0);
    assert_eq!(read(None), 0);
    let stored = store_gex_proxy_history("a", vec![point(now, 0)], now).unwrap();
    assert_eq!((stored.schema, stored.dataset_key.as_str()), (CACHE_SCHEMA, "a"));
    assert!(store_gex_proxy_history("a", vec![point(0, 0)], now).is_none());
    let moment = UnixMs::new(now as u64);
    let flow = store_derive_maker_trades("a", vec![], moment);
    assert!(flow.records.is_empty());
    assert!(read_derive_maker_trades("a", Some(flow), moment).is_empty());
}

#[test]
fn intervals_are_valid_when_apart_and_ascending() {
    assert!(valid_intervals(&vec![(1, 2), (3, 4)]));
    assert!(!valid_intervals(&vec![(3, 4), (1, 2)]));
    assert!(!valid_intervals(&vec![(2, 2)]));
    assert_eq!(
        coverage_intersections(&vec![(0, 10), (20, 30)], 5, 25),
        vec![(5, 10), (20, 25)]
    );
}

#[test]
fn keys_name_dataset_and_bucket() {
    let dataset = trade_dataset_key(TICKER);
    assert_ne!(dataset, kline_dataset_key(TICKER, Timeframe::M1));
    let key = bucket_key(&dataset, 60_000);
    assert_ne!(key, bucket_key(&dataset, 120_000));
    assert!(belongs_to_dataset(&dataset, &key));
    assert!(!belongs_to_dataset("other", &key));
    let gex = gex_bucket_key("series", 7_200_000);
    assert_eq!(gex_key_bucket_start("series", &gex), Some(7_200_000));
    assert_eq!(gex_key_bucket_start("other", &gex), None);
}

#[test]
fn buckets_are_hours_but_minutes_for_trades() {
    assert_eq!(CacheKind::Trade.bucket_ms(), TRADE_BUCKET_MS);
    assert_eq!(CacheKind::Kline.bucket_ms(), HOURLY_BUCKET_MS);
    assert_eq!(CacheKind::OpenInterest.label(), "open_interest");
    assert_eq!(bucket_for(CacheKind::Trade, 119_999), 60_000);
    let mut starts = std::collections::BTreeSet::new();
    add_bucket_starts(CacheKind::Trade, &mut starts, 59_999, 120_001);
    assert_eq!(starts.into_iter().collect::<Vec<_>>(), vec![0, 60_000, 120_000]);
}

fn trade(id: u64, time: u64) -> Trade {
    Trade {
        id: Some(id),
        time: at(time),
        is_sell: false,
        price: Price::from_units(100 * SCALE),
        qty: Qty::from_units(5),
    }
}

/// A store in memory: coverage records by dataset, buckets by key.
struct Store {
    coverage: Option<Vec<u8>>,
    buckets: BTreeMap<u64, StoredBucket<Trade>>,
}

impl Store {
    fn write(&mut self, from: u64, to: u64, records: Vec<Trade>) -> Result<(), SkipReason> {
        let groups = plan_store(CacheKind::Trade, at(from), at(to), records)?;
        for (start, new_records) in groups {
            let existing = self.buckets.remove(&start);
            let merged =
                merge_bucket(CacheKind::Trade, "trades", start, existing, new_records).unwrap();
            self.buckets.insert(start, merged);
        }
        let coverage = extended_coverage(self.coverage.take(), "trades", from, to);
        self.coverage = Some(encode_checked(&coverage).unwrap());
        Ok(())
    }

    fn read(&self, from: u64, to: u64) -> ReadOutcome<Trade> {
        let blob = self.coverage.clone();
        match plan_read(CacheKind::Trade, "trades", blob, at(from), at(to), at(from)) {
            ReadPlan::Miss => ReadOutcome::Slice(CacheSlice::miss(at(from), at(to))),
            ReadPlan::DropCoverage => ReadOutcome::Drop(0, InvalidReason::Coverage),
            ReadPlan::Fetch(plan) => {
                let fetched = plan
                    .buckets
                    .iter()
                    .map(|(start, _)| match self.buckets.get(start) {
                        Some(bucket) => FetchedBucket::Read(StoredBucket {
                            schema: bucket.schema,
                            dataset_key: bucket.dataset_key.clone(),
                            bucket_start: bucket.bucket_start,
                            records: bucket.records.clone(),
                        }),
                        None => FetchedBucket::Missing,
                    })
                    .collect();
                finish_read(CacheKind::Trade, "trades", &plan, fetched)
            }
        }
    }
}

fn store() -> Store {
    Store { coverage: None, buckets: BTreeMap::new() }
}

#[test]
fn stored_trades_are_read_back_with_the_gaps_that_remain() {
    let mut store = store();
    store.write(0, 120_000, vec![trade(2, 61_000), trade(1, 1_000), trade(2, 61_000)]).unwrap();
    let ReadOutcome::Slice(slice) = store.read(0, 180_000) else {
        panic!("expected a slice");
    };
    let ids: Vec<_> = slice.records.iter().map(|trade| trade.id).collect();
    assert_eq!(ids, vec![Some(1), Some(2)]);
    assert_eq!(slice.gaps, vec![(at(120_000), at(180_000))]);
    assert!(!slice.is_complete());
    let ReadOutcome::Slice(part) = store.read(60_000, 120_000) else {
        panic!("expected a slice");
    };
    assert_eq!(part.records.len(), 1);
    assert!(part.is_complete());
}

#[test]
fn storing_again_changes_nothing() {
    let mut store = store();
    let records = vec![trade(1, 1_000), trade(2, 2_000)];
    store.write(0, 60_000, records.clone()).unwrap();
    let before = store.buckets[&0].records.clone();
    store.write(0, 60_000, records).unwrap();
    assert_eq!(store.buckets[&0].records, before);
}

#[test]
fn damaged_parts_of_the_store_are_dropped() {
    let mut damaged = store();
    damaged.write(0, 60_000, vec![trade(1, 1_000)]).unwrap();
    damaged.buckets.get_mut(&0).unwrap().schema = CACHE_SCHEMA + 1;
    assert!(matches!(
        damaged.read(0, 60_000),
        ReadOutcome::Drop(0, InvalidReason::InvalidBucket)
    ));
    damaged.buckets.clear();
    assert!(matches!(
        damaged.read(0, 60_000),
        ReadOutcome::Drop(0, InvalidReason::MissingBucket)
    ));
    assert_eq!(InvalidReason::MissingBucket.label(), "missing covered bucket");
    damaged.coverage = Some(b"garbage".to_vec());
    assert!(matches!(
        damaged.read(0, 60_000),
        ReadOutcome::Drop(_, InvalidReason::Coverage)
    ));
    let ReadOutcome::Slice(empty) = store().read(0, 60_000) else {
        panic!("expected a slice");
    };
    assert_eq!(empty.gaps, vec![(at(0), at(60_000))]);
}

#[test]
fn what_cannot_be_trusted_is_not_stored() {
    let mut store = store();
    assert_eq!(store.write(5, 5, vec![trade(1, 5)]), Err(SkipReason::EmptyRange));
    assert_eq!(store.write(0, 9, vec![]), Err(SkipReason::EmptyUnverified));
    let mut invalid = trade(1, 5);
    invalid.price = Price::from_units(0);
    assert!(!invalid.is_semantically_valid());
    assert_eq!(store.write(0, 9, vec![invalid]), Err(SkipReason::InvalidSourceRecord));
    assert_eq!(
        BucketTooLarge { bucket_start: 60_000 }.describe(),
        "bucket 60000 exceeds 5000000 records"
    );
}

fn ids(outcome: ReadOutcome<Trade>) -> Vec<(u64, u64)> {
    let ReadOutcome::Slice(slice) = outcome else {
        panic!("expected a slice");
    };
    slice.records.iter().map(|trade| (trade.id.unwrap(), trade.time.as_u64())).collect()
}

#[test]
fn any_prefix_or_suffix_of_what_was_stored_is_reused() {
    let mut store = store();
    let trades = vec![trade(1, 1_000), trade(2, 59_000), trade(3, 61_000), trade(4, 179_000)];
    store.write(0, 180_000, trades).unwrap();
    assert_eq!(ids(store.read(0, 60_000)), vec![(1, 1_000), (2, 59_000)]);
    assert_eq!(ids(store.read(0, 2_000)), vec![(1, 1_000)]);
    assert_eq!(ids(store.read(59_000, 180_000)), vec![(2, 59_000), (3, 61_000), (4, 179_000)]);
    assert_eq!(ids(store.read(100_000, 400_000)), vec![(4, 179_000)]);
    store.write(300_000, 360_000, vec![trade(9, 301_000)]).unwrap();
    let ReadOutcome::Slice(slice) = store.read(170_000, 400_000) else {
        panic!("expected a slice");
    };
    assert_eq!(slice.records.len(), 2);
    assert_eq!(slice.gaps, vec![(at(180_000), at(300_000)), (at(360_000), at(400_000))]);
}

#[test]
fn held_trades_outlast_a_second_store() {
    let mut store = store();
    store.write(0, 60_000, vec![trade(1, 1_000), trade(2, 30_000)]).unwrap();
    let mut again = trade(2, 30_000);
    again.qty = Qty::from_units(99);
    store.write(0, 120_000, vec![again, trade(3, 50_000), trade(4, 70_000)]).unwrap();
    let ReadOutcome::Slice(slice) = store.read(0, 120_000) else {
        panic!("expected a slice");
    };
    assert!(slice.is_complete());
    assert_eq!(slice.records[1].qty, Qty::from_units(5));
    assert_eq!(
        ids(store.read(0, 120_000)),
        vec![(1, 1_000), (2, 30_000), (3, 50_000), (4, 70_000)]
    );
}

#[test]
fn of_a_repeated_id_the_first_by_time_is_read_back() {
    let mut store = store();
    store.write(0, 120_000, vec![trade(7, 30_000), trade(8, 70_000)]).unwrap();
    store.write(0, 120_000, vec![trade(7, 10_000), trade(8, 20_000)]).unwrap();
    assert_eq!(ids(store.read(0, 120_000)), vec![(7, 10_000), (8, 20_000)]);
    assert_eq!(ids(store.read(60_000, 120_000)), vec![(8, 70_000)]);
    assert_eq!(ids(store.read(15_000, 60_000)), vec![(8, 20_000)]);
}

fn kline(time: u64, volume: i64) -> Kline {
    let price = Price::from_units(100 * SCALE);
    Kline {
        time: at(time),
        open: price,
        high: price,
        low: price,
        close: price,
        volume: Volume::TotalOnly(Qty::from_units(volume)),
    }
}

#[test]
fn candles_that_reach_into_a_read_come_from_earlier_buckets() {
    let hour = HOURLY_BUCKET_MS;
    let kind = CacheKind::Kline;
    let mut buckets: BTreeMap<u64, StoredBucket<Kline>> = BTreeMap::new();
    let mut coverage: Option<Vec<u8>> = None;
    let first = vec![kline(hour - 60_000, 1), kline(hour, 2), kline(hour + 60_000, 3)];
    for records in [first, vec![kline(hour, 20)]] {
        for (start, new) in plan_store(kind, at(0), at(2 * hour), records).unwrap() {
            let existing = buckets.remove(&start);
            buckets.insert(start, merge_bucket(kind, "k", start, existing, new).unwrap());
        }
        let extended = extended_coverage(coverage.take(), "k", 0, 2 * hour);
        coverage = Some(encode_checked(&extended).unwrap());
    }
    let record_from = at(hour - 60_000);
    let plan = plan_read(kind, "k", coverage, at(hour), at(2 * hour), record_from);
    let ReadPlan::Fetch(plan) = plan else {
        panic!("expected a plan");
    };
    assert_eq!(plan.buckets, vec![(hour, true), (0, false)]);
    let fetched = plan
        .buckets
        .iter()
        .map(|(start, _)| FetchedBucket::Read(buckets.remove(start).unwrap()))
        .collect();
    let ReadOutcome::Slice(slice) = finish_read(kind, "k", &plan, fetched) else {
        panic!("expected a slice");
    };
    assert!(slice.is_complete());
    let expected = vec![kline(hour - 60_000, 1), kline(hour, 20), kline(hour + 60_000, 3)];
    assert_eq!(slice.records, expected);
}

#[test]
fn missing_candles_inside_a_slice_are_reopened() {
    let kline = |time| self::kline(time, 1);
    let slice = CacheSlice { records: vec![kline(0), kline(120_000)], gaps: vec![] };
    let reopened = reopen_holes(slice, 60_000, at(0), at(180_000));
    assert_eq!(reopened.gaps, vec![(at(60_000), at(120_000))]);
}

fn snapshot(observed_at: u64) -> SnapshotRef {
    SnapshotRef { observed_at: at(observed_at), semantically_valid: true, slot: 0 }
}

fn entry(dataset: &str, bucket: SnapshotBucket) -> SnapshotEntry {
    SnapshotEntry { key: gex_bucket_key(dataset, bucket.bucket_start), bucket: Some(bucket) }
}

#[test]
fn gex_history_is_read_across_hourly_buckets() {
    let first = snapshot(1_800_000_000_000);
    let second = snapshot(first.observed_at.as_u64() + HOURLY_BUCKET_MS + 15_000);
    let one = store_gex_snapshot("canonical-series", None, first).unwrap();
    let two = store_gex_snapshot("canonical-series", None, second).unwrap();
    let two = store_gex_snapshot("canonical-series", Some(two), second).unwrap();
    assert_eq!(one.bucket_start, gex_bucket_start(first.observed_at));
    let report = read_gex_history_detailed(
        "canonical-series",
        first.observed_at.saturating_sub(1),
        second.observed_at.saturating_add(1),
        &vec![entry("canonical-series", one), entry("canonical-series", two)],
    );
    assert_eq!(report.buckets_found, 2);
    assert_eq!(report.snapshots.len(), 2);
    assert_eq!(report.snapshots[0].observed_at, first.observed_at);
}

#[test]
fn a_corrupt_gex_bucket_does_not_hide_its_neighbors() {
    let first = snapshot(1_800_000_000_000);
    let third = snapshot(first.observed_at.as_u64() + 2 * HOURLY_BUCKET_MS);
    let corrupt_start = gex_bucket_start(first.observed_at) + HOURLY_BUCKET_MS;
    let entries = vec![
        entry("series", store_gex_snapshot("series", None, first).unwrap()),
        SnapshotEntry { key: gex_bucket_key("series", corrupt_start), bucket: None },
        entry("series", store_gex_snapshot("series", None, third).unwrap()),
    ];
    let report =
        read_gex_history_detailed("series", first.observed_at, third.observed_at, &entries);
    assert_eq!(report.snapshots.len(), 2);
    assert_eq!(report.corrupt_buckets, 1);
    let invalid = SnapshotRef { semantically_valid: false, ..first };
    assert!(store_gex_snapshot("series", None, invalid).is_none());
}

#[test]
fn old_gex_buckets_are_pruned() {
    let now = at(1_800_000_000_000);
    let old = gex_bucket_key("series", now.as_u64() - 26 * HOURLY_BUCKET_MS);
    let recent = gex_bucket_key("series", now.as_u64() - 2 * HOURLY_BUCKET_MS);
    assert!(!keeps_stored_key("series", &old, now));
    assert!(keeps_stored_key("series", &recent, now));
    assert!(keeps_stored_key("other", &old, now));
}

#[test]
fn proxy_history_retains_a_day_and_caps_records() {
    let now: i64 = 1_800_000_000_000;
    let point =
        |observed_at| ProxyRef { observed_at, semantically_valid: true, slot: 0 };
    let mut records: Vec<_> =
        (0..400).map(|index| point(now - (399 - index) * 60_000)).collect();
    records.push(records[300]);
    records.push(point(now - 25 * 60 * 60 * 1_000));
    let kept = normalize_gex_proxy_history(records, now);
    assert_eq!(kept.len(), 320);
    assert!(kept.windows(2).all(|pair| pair[0].observed_at < pair[1].observed_at));
    assert!(kept.iter().all(|point| point.observed_at >= now - (24 * 60 + 10) * 60_000));
}

#[test]
fn maker_trades_keep_the_latest_of_an_id() {
    let now = at(1_800_000_000_000);
    let trade = |id: &str, timestamp: UnixMs| MakerTradeRef {
        trade_id: id.to_string(),
        timestamp,
        semantically_valid: true,
        slot: 0,
    };
    let duplicate = trade("same-id", now.saturating_sub(500));
    let kept = normalize_derive_maker_trades(
        vec![
            trade("same-id", now.saturating_sub(1_000)),
            duplicate,
            trade("expired", now.saturating_sub(24 * 60 * 60 * 1_000 + 10 * 60 * 1_000 + 1)),
        ],
        now,
    );
    assert_eq!(kept.len(), 1);
    assert_eq!(kept[0].trade_id, "same-id");
    assert_eq!(kept[0].timestamp, now.saturating_sub(500));
}

#[test]
fn trades_without_an_id_are_never_taken_for_another() {
    let nameless = Trade { id: None, ..trade(0, 61_000) };
    let mut store = store();
    store.write(60_000, 120_000, vec![nameless, nameless, trade(1, 61_000)]).unwrap();
    let ReadOutcome::Slice(slice) = store.read(60_000, 120_000) else { panic!("no slice") };
    assert_eq!(slice.records.len(), 3);
    assert_eq!(slice.records[2].id, Some(1));
}

#[test]
fn cached_side_series_are_their_own_cached_form() {
    let now: i64 = 1_800_000_000_000;
    let point =
        |observed_at| ProxyRef { observed_at, semantically_valid: true, slot: 0 };
    let stored = normalize_gex_proxy_history(vec![point(now), point(now - 5), point(now)], now);
    assert_eq!(stored.iter().map(|p| p.observed_at).collect::<Vec<_>>(), vec![now - 5, now]);
    assert_eq!(normalize_gex_proxy_history(stored.clone(), now), stored);

    let moment = at(1_800_000_000_000);
    let maker = |id: &str| MakerTradeRef {
        trade_id: id.to_string(),
        timestamp: moment,
        semantically_valid: true,
        slot: 0,
    };
    let stored = normalize_derive_maker_trades(vec![maker("b"), maker("a")], moment);
    assert_eq!(stored[0].trade_id, "a");
    let again = normalize_derive_maker_trades(stored, moment);
    assert_eq!(again.iter().map(|t| t.trade_id.as_str()).collect::<Vec<_>>(), vec!["a", "b"]);
}

#[test]
fn of_two_snapshots_of_one_moment_the_first_is_read_back() {
    let first = snapshot(1_800_000_000_000);
    let second = SnapshotRef { slot: 1, ..first };
    let bucket = store_gex_snapshot("series", None, first).unwrap();
    let bucket = store_gex_snapshot("series", Some(bucket), second).unwrap();
    let report = read_gex_history_detailed(
        "series",
        first.observed_at,
        first.observed_at,
        &vec![entry("series", bucket)],
    );
    assert_eq!(report.snapshots, vec![first]);
}
