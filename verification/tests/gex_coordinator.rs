//! The coordinator of option data: what is fetched when, and what is kept.
use flowsurface::connector::failure::{record_failure, waits};
use flowsurface::connector::gex::{
    DeriveInstrumentsFetchResult, DeriveTradesFetchResult, GexDataCoordinator, GexFetchResult,
    GexHistoryError, LocalGexHistoryProvider, StoredChain, STORED_SCHEMA,
};
use flowsurface::connector::gex_deribit::{
    ChainSnapshot, DerivedLookup, EXPIRED_THRESHOLD_MS, FRESH_THRESHOLD_MS, INSTRUMENT_TTL_MS,
    MARKET_SNAPSHOT_TTL_MS,
};
use flowsurface::connector::gex_derive::{
    InstrumentList, DERIVE_INITIAL_BACKFILL_MS, DERIVE_TRADE_REFRESH_MS,
};
use flowsurface::connector::gex_history::{ProxyRef, SnapshotRef};
use flowsurface::connector::gex_keys::{
    legacy_series_cache_key, proxy_cache_key, series_cache_key, DerivedGexSeriesKey, GexFetchKind,
    OptionsChainKey, OptionsUnderlying,
};
use flowsurface::connector::gex_proxy::{GexFreshness, ProxyResponse, PROXY_REFRESH_MS};
use flowsurface::connector::gex_series::{Histories, MAX_HISTORY_SNAPSHOTS};
use flowsurface::units::UnixMs;

const BTC: OptionsUnderlying = OptionsUnderlying::Btc;
const ETH: OptionsUnderlying = OptionsUnderlying::Eth;

fn now() -> UnixMs {
    UnixMs::new(1_800_000_000_000)
}

fn coordinator() -> GexDataCoordinator {
    GexDataCoordinator::new(false)
}

fn snapshot(observed_at: UnixMs) -> ChainSnapshot {
    ChainSnapshot { contracts: 1, observed_at, slot: 0 }
}

fn btc_chain() -> OptionsChainKey {
    OptionsChainKey::deribit(BTC)
}

fn series(model: &str) -> DerivedGexSeriesKey {
    DerivedGexSeriesKey {
        chain: btc_chain(),
        model: model.to_string(),
        expiry: "SevenDays".to_string(),
        min_oi_bits: 0.0_f64.to_bits(),
        min_gex_bits: 0.0_f64.to_bits(),
        gamma_source: "ProviderNativePreferred".to_string(),
        scenario_resolution: "Auto".to_string(),
    }
}

fn seed_instruments(coordinator: &mut GexDataCoordinator, now: UnixMs) {
    coordinator.complete(
        GexFetchResult::Instruments {
            key: btc_chain(),
            result: Ok(InstrumentList { count: 1, slot: 0 }),
        },
        now,
    );
}

fn complete_snapshot(
    coordinator: &mut GexDataCoordinator,
    result: Result<ChainSnapshot, String>,
    now: UnixMs,
) {
    coordinator.complete(GexFetchResult::Snapshot { key: btc_chain(), result }, now);
}

fn is_derived(coordinator: &GexDataCoordinator) -> bool {
    !matches!(coordinator.derived(&series("CallPutOiProxy")), DerivedLookup::NoData)
}

#[test]
fn consumers_and_inflight_deduplicate_fetches() {
    let mut value = coordinator();
    assert!(value.due_fetches(now(), true).is_empty());
    value.set_consumers(&vec![BTC, BTC]);
    assert_eq!(value.subscriber_count(BTC), 2);
    assert_eq!(value.due_fetches(now(), true).len(), 1);
    assert!(value.due_fetches(now(), true).is_empty());
    value.set_consumers(&vec![]);
    assert!(value.due_fetches(now().saturating_add(INSTRUMENT_TTL_MS), true).is_empty());
}

#[test]
fn btc_and_eth_are_separate_and_offline_stops_polling() {
    let mut value = coordinator();
    value.set_consumers(&vec![BTC, ETH]);
    assert!(value.due_fetches(now(), false).is_empty());
    let due = value.due_fetches(now(), true);
    assert_eq!(due.len(), 2);
    assert_ne!(due[0].key(), due[1].key());
}

#[test]
fn unsupported_market_never_creates_a_proxy_request() {
    let mut value = coordinator();
    value.set_consumers(&vec![]);
    assert!(value.due_proxy_fetches(now(), true).is_empty());
}

#[test]
fn failures_backoff_and_keep_last_valid_snapshot() {
    let now = now();
    let mut value = coordinator();
    value.set_consumers(&vec![BTC]);
    seed_instruments(&mut value, now);
    complete_snapshot(&mut value, Ok(snapshot(now)), now);
    assert!(is_derived(&value));
    let later = now.saturating_add(MARKET_SNAPSHOT_TTL_MS);
    complete_snapshot(&mut value, Err("network".into()), later);
    assert!(is_derived(&value));
    assert!(value
        .due_fetches(now.saturating_add(MARKET_SNAPSHOT_TTL_MS + 1), true)
        .is_empty());
    assert_eq!(value.last_error(BTC).map(String::as_str), Some("network"));
}

#[test]
fn config_only_changes_derived_cache_and_raw_revision_invalidates_it() {
    let now = now();
    let mut value = coordinator();
    value.set_consumers(&vec![BTC]);
    seed_instruments(&mut value, now);
    complete_snapshot(&mut value, Ok(snapshot(now)), now);
    let compute = |value: &GexDataCoordinator, model: &str| match value.derived(&series(model)) {
        DerivedLookup::Compute(raw) => raw.revision,
        other => panic!("unexpected {other:?}"),
    };
    let proxy = series("CallPutOiProxy");
    let absolute = series("AbsoluteGamma");
    let revision = compute(&value, "CallPutOiProxy");
    value.finish_derived(&proxy, revision, now, 10, now);
    assert_eq!(value.derived(&proxy), DerivedLookup::Cached(10));
    assert_eq!(compute(&value, "AbsoluteGamma"), revision);
    value.finish_derived(&absolute, revision, now, 11, now);
    assert_ne!(value.derived(&proxy), value.derived(&absolute));
    assert!(value.due_fetches(now, true).is_empty());
    let later = now.saturating_add(1);
    complete_snapshot(&mut value, Ok(snapshot(later)), later);
    assert!(compute(&value, "CallPutOiProxy") != revision);
}

#[test]
fn reconnect_forces_refresh_and_freshness_transitions() {
    let now = now();
    let mut value = coordinator();
    value.set_consumers(&vec![BTC]);
    seed_instruments(&mut value, now);
    complete_snapshot(&mut value, Ok(snapshot(now)), now);
    assert_eq!(value.freshness(BTC, now), GexFreshness::Fresh);
    assert_eq!(
        value.freshness(BTC, now.saturating_add(FRESH_THRESHOLD_MS + 1)),
        GexFreshness::Stale
    );
    assert_eq!(
        value.freshness(BTC, now.saturating_add(EXPIRED_THRESHOLD_MS + 1)),
        GexFreshness::Expired
    );
    value.reconnect();
    assert_eq!(value.due_fetches(now.saturating_add(1), true).len(), 1);
}

#[test]
fn a_saved_snapshot_loads_stale_and_refreshes_with_consumer() {
    let now = now();
    let mut first = coordinator();
    complete_snapshot(&mut first, Ok(snapshot(now)), now);
    let saved = first.snapshots_to_save();
    assert_eq!(saved.len(), 1);
    let mut restored = coordinator();
    assert!(restored.snapshots_to_save().is_empty());
    let stored = vec![StoredChain { key: btc_chain(), value: saved[0] }];
    restored.load_persistent(STORED_SCHEMA + 1, &stored);
    assert!(restored.snapshots_to_save().is_empty());
    restored.load_persistent(STORED_SCHEMA, &stored);
    assert_eq!(restored.snapshots_to_save(), saved);
    assert_eq!(restored.freshness(BTC, now), GexFreshness::Stale);
    restored.set_consumers(&vec![BTC]);
    let due = restored.due_fetches(now, true);
    assert!(matches!(due.as_slice(), [GexFetchKind::Instruments(_)]));
}

fn proxy_point(observed_at: u64, slot: usize) -> ProxyRef {
    ProxyRef { observed_at: observed_at as i64, semantically_valid: true, slot }
}

fn response(observed_at: u64, slot: usize, stale: bool) -> Result<ProxyResponse, String> {
    Ok(ProxyResponse { points: vec![proxy_point(observed_at, slot)], stale })
}

#[test]
fn proxy_scheduler_is_independent_offline_bounded_and_reconnectable() {
    let now = now();
    let mut value = coordinator();
    assert!(value.due_proxy_fetches(now, true).is_empty());
    value.set_consumers(&vec![BTC]);
    assert!(value.due_proxy_fetches(now, false).is_empty());
    assert_eq!(value.due_proxy_fetches(now, true), [BTC]);
    assert!(value.due_proxy_fetches(now, true).is_empty());
    value.complete_proxy(BTC, response(now.as_u64(), 1, false), now);
    assert!(value
        .due_proxy_fetches(now.saturating_add(PROXY_REFRESH_MS - 1), true)
        .is_empty());
    let refreshed = now.saturating_add(PROXY_REFRESH_MS);
    assert_eq!(value.due_proxy_fetches(refreshed, true), [BTC]);
    value.complete_proxy(BTC, response(now.as_u64(), 1, false), refreshed);
    value.reconnect();
    assert_eq!(
        value.due_proxy_fetches(now.saturating_add(PROXY_REFRESH_MS + 1), true),
        [BTC]
    );
}

#[test]
fn proxy_error_does_not_change_deribit_freshness_or_error() {
    let now = now();
    let mut value = coordinator();
    value.set_consumers(&vec![BTC]);
    complete_snapshot(&mut value, Ok(snapshot(now)), now);
    let _ = value.due_proxy_fetches(now, true);
    value.complete_proxy(BTC, Err("remote unavailable".into()), now);
    assert_eq!(value.freshness(BTC, now), GexFreshness::Fresh);
    assert!(value.last_error(BTC).is_none());
    assert_eq!(value.proxy_freshness(BTC, now), GexFreshness::Error);
    assert_eq!(value.proxy_error(BTC).map(String::as_str), Some("remote unavailable"));
}

#[test]
fn stale_proxy_response_never_replaces_valid_cache() {
    let now = now();
    let mut value = coordinator();
    value.complete_proxy(BTC, response(now.as_u64(), 10, false), now);
    let later = now.saturating_add(1);
    value.complete_proxy(BTC, response(now.as_u64() + 1, 999, true), later);
    let history = value.proxy_history(BTC, later);
    assert_eq!(history.len(), 1);
    assert_eq!(history[0].slot, 10);
    assert_eq!(value.proxy_freshness(BTC, now), GexFreshness::Stale);
}

fn history_now() -> UnixMs {
    UnixMs::new(1_800_100_000_000)
}

#[test]
fn history_is_ordered_deduplicated_and_pruned() {
    let now = history_now();
    let mut value = Histories::new();
    let key = series("CallPutOiProxy");
    let newer = now.saturating_sub(1_000);
    let older = now.saturating_sub(2_000);
    value.append_history(&key, 2, newer, 0, now);
    value.append_history(&key, 1, older, 1, now);
    value.append_history(&key, 3, newer, 2, now);
    let history = value.history(&key, u16::MAX, now);
    assert_eq!(history.len(), 2);
    assert_eq!(history[0].observed_at, older);
    let expired = now.saturating_sub(24 * 60 * 60 * 1_000 + 1);
    value.append_history(&key, 4, expired, 3, now);
    assert!(value
        .history(&key, u16::MAX, now)
        .iter()
        .all(|entry| entry.observed_at != expired));
}

#[test]
fn histories_are_separated_by_dataset_configuration() {
    let now = history_now();
    let mut value = Histories::new();
    let base = series("CallPutOiProxy");
    let absolute = series("AbsoluteGamma");
    value.append_history(&base, 1, now, 5, now);
    value.append_history(&absolute, 1, now, 6, now);
    assert_eq!(value.history(&base, 60, now)[0].slot, 5);
    assert_eq!(value.history(&absolute, 60, now)[0].slot, 6);
    assert_ne!(series_cache_key(&base), series_cache_key(&absolute));
    assert_ne!(series_cache_key(&base), legacy_series_cache_key(&base));
    assert_ne!(proxy_cache_key(BTC), proxy_cache_key(ETH));
}

#[test]
fn history_has_an_absolute_snapshot_cap() {
    let now = history_now();
    let mut value = Histories::new();
    let key = series("CallPutOiProxy");
    for revision in 0..5_761u64 {
        let observed_at = now.saturating_sub(5_761 - revision);
        value.append_history(&key, revision + 1, observed_at, 0, now);
    }
    assert_eq!(MAX_HISTORY_SNAPSHOTS, 5_760);
    assert_eq!(value.history(&key, u16::MAX, now).len(), 5_760);
}

#[test]
fn derive_scheduling_is_offline_safe_overlapping_and_reconnect_forced() {
    let now = now();
    let mut value = coordinator();
    value.set_consumers(&vec![BTC]);
    assert!(value.due_derive_instrument_fetches(now, false).is_empty());
    assert!(value.due_derive_trade_fetches(now, false).is_empty());
    assert_eq!(value.due_derive_instrument_fetches(now, true), [BTC]);
    value.complete_derive_instruments(
        DeriveInstrumentsFetchResult {
            underlying: BTC,
            result: Ok(InstrumentList { count: 1, slot: 0 }),
        },
        now,
    );
    let request = value.due_derive_trade_fetches(now, true)[0];
    assert_eq!(request.from, now.saturating_sub(DERIVE_INITIAL_BACKFILL_MS));
    value.complete_derive_trades(
        DeriveTradesFetchResult { underlying: BTC, result: Ok(Vec::new()) },
        now,
    );
    assert!(value
        .due_derive_trade_fetches(now.saturating_add(DERIVE_TRADE_REFRESH_MS - 1), true)
        .is_empty());
    value.reconnect();
    let later = now.saturating_add(1);
    assert_eq!(value.due_derive_instrument_fetches(later, true).len(), 1);
    assert_eq!(value.due_derive_trade_fetches(later, true).len(), 1);
}

#[test]
fn held_series_are_there_without_market_data() {
    let now = now();
    let mut value = coordinator();
    value.complete_proxy(BTC, response(now.as_u64(), 10, false), now);
    let later = now.saturating_add(24 * 60 * 60 * 1_000 + 1);
    assert!(value.proxy_history(BTC, later).is_empty());
    assert_eq!(value.proxy_points(BTC).unwrap().len(), 1);
    assert!(value.derive_trades(BTC).is_none());
    value.complete_derive_trades(
        DeriveTradesFetchResult { underlying: BTC, result: Ok(Vec::new()) },
        now,
    );
    assert!(value.derive_trades(BTC).unwrap().is_empty());
    assert!(value.derive_flow(BTC).is_none());
}

#[test]
fn failures_in_a_row_pause_requests_up_to_two_minutes() {
    let mut now = now();
    let mut value = coordinator();
    value.set_consumers(&vec![BTC, ETH]);
    for pause in [5_000, 10_000, 20_000, 40_000, 80_000, 120_000, 120_000] {
        let due = value.due_fetches(now, true);
        assert!(due.iter().any(|request| request.key() == btc_chain()));
        let failed = GexFetchResult::Instruments { key: btc_chain(), result: Err("down".into()) };
        value.complete(failed, now);
        value.reconnect();
        let early = now.saturating_add(pause - 1);
        assert!(value.due_fetches(early, true).iter().all(|due| due.key() != btc_chain()));
        assert_eq!(value.last_error(BTC).map(String::as_str), Some("down"));
        assert!(value.last_error(ETH).is_none());
        now = now.saturating_add(pause);
    }
}

#[test]
fn derive_backoff_and_errors_are_independent_from_deribit() {
    let now = now();
    let mut value = coordinator();
    value.set_consumers(&vec![BTC]);
    complete_snapshot(&mut value, Ok(snapshot(now)), now);
    let _ = value.due_derive_instrument_fetches(now, true);
    value.complete_derive_instruments(
        DeriveInstrumentsFetchResult {
            underlying: BTC,
            result: Err("derive unavailable".into()),
        },
        now,
    );
    assert!(value
        .due_derive_instrument_fetches(now.saturating_add(1), true)
        .is_empty());
    assert_eq!(value.freshness(BTC, now), GexFreshness::Fresh);
    assert!(value.last_error(BTC).is_none());
    assert_eq!(value.derive_freshness(BTC, now), GexFreshness::Error);
}

#[test]
fn pauses_after_failures_double_up_to_two_minutes() {
    let now = now();
    let mut failure = None;
    let mut pauses = Vec::new();
    for _ in 0..8 {
        failure = record_failure(&failure, "down".to_string(), now);
        let state = failure.as_ref().unwrap();
        pauses.push(state.retry_after.as_u64() - now.as_u64());
    }
    assert_eq!(&pauses[..4], &[5_000, 10_000, 20_000, 40_000]);
    assert_eq!(*pauses.last().unwrap(), 120_000);
    assert!(waits(&failure, now));
    assert!(!waits(&failure, now.saturating_add(120_000)));
}

#[test]
fn stored_histories_are_loaded_once() {
    let mut value = GexDataCoordinator::new(true);
    let key = series("CallPutOiProxy");
    assert!(value.begin_history_load(&key, true));
    let stored = |ms| SnapshotRef {
        observed_at: UnixMs::new(ms),
        semantically_valid: true,
        slot: 3,
    };
    value.ensure_history_loaded(&key, vec![stored(now().as_u64())], vec![]);
    assert_eq!(value.history(&key, 60, now()).len(), 1);
    assert!(!value.begin_history_load(&key, true));
}

#[test]
fn a_missing_cache_is_named() {
    let provider = LocalGexHistoryProvider;
    assert_eq!(provider.load_range(Some(vec![1, 2])).unwrap(), vec![1, 2]);
    let error = provider.load_range(None::<Vec<u8>>).unwrap_err();
    assert!(matches!(error, GexHistoryError::CacheUnavailable));
    assert!(!error.describe().is_empty());
}
