//! What new candles, figures and settings change on a chart of candles.
use flowsurface::chart::kline::market::{
    Basis, ChartKind, Config, FetchRange, KlineChart, Overlays, VolumeBubbleConfig,
};
use flowsurface::chart::kline::sessions::VolumeBubbleSession;
use flowsurface::chart::kline::updates::{
    request_outcome, toggle_indicator, view_indicators, GexOverlay, IndicatorSlot, RequestOutcome,
    SeriesMark, SeriesState, SnapshotMark,
};
use flowsurface::connector::gex_keys::OptionsUnderlying;
use flowsurface::connector::gex_proxy::GexFreshness;
use flowsurface::connector::records::Trade;
use flowsurface::units::{Price, PriceStep, Qty, Timeframe, UnixMs};
use rustc_hash::FxHashSet;

fn at(ms: u64) -> UnixMs {
    UnixMs::new(ms)
}

fn trade(id: u64, time: u64) -> Trade {
    Trade {
        id: Some(id),
        time: at(time),
        is_sell: false,
        price: Price::from_units(100),
        qty: Qty::from_units(1),
    }
}

fn chart(basis: Basis, trades: Vec<Trade>) -> KlineChart {
    let bubbles = VolumeBubbleConfig {
        enabled: true,
        session: VolumeBubbleSession::Auto,
        history_window_minutes: 30,
        max_candidates_per_candle: 8,
        max_bubbles_per_bar: 3,
        use_raw_trades_when_available: true,
        cluster_window_ms: 500,
        cluster_price_ticks: 2,
    };
    let config = Config {
        volume_bubbles: bubbles,
        session_volume_profile_interval_ms: 86_400_000,
        vwap_anchor_ms: 86_400_000,
    };
    let none = Overlays { volume_bubbles: false, vwap: false, session_volume_profile: false };
    KlineChart::new(basis, PriceStep { units: 10 }, ChartKind::Candles, true, &trades, none, config)
}

#[test]
fn a_new_last_candle_gets_its_trades() {
    let held = vec![trade(1, 59_999), trade(2, 60_000), trade(3, 119_999), trade(4, 120_000)];
    let candles = chart(Basis::Time(Timeframe::M1), held.clone());
    let update = candles.update_latest_kline(at(60_000), false, 0).unwrap();
    assert_eq!(update.latest_x, 60_000);
    let ids: Vec<_> = update.bucket_trades.iter().map(|trade| trade.id).collect();
    assert_eq!(ids, vec![Some(2), Some(3)]);
    let known = candles.update_latest_kline(at(60_000), true, 180_000).unwrap();
    assert!(known.bucket_trades.is_empty());
    assert_eq!(known.latest_x, 180_000);
    assert!(chart(Basis::Tick(50), held).update_latest_kline(at(60_000), false, 0).is_none());
}

#[test]
fn fetched_candles_get_the_trades_of_unknown_buckets() {
    let candles = chart(
        Basis::Time(Timeframe::M1),
        vec![trade(1, 1_000), trade(2, 61_000), trade(3, 121_000)],
    );
    let known: FxHashSet<u64> = [60_000].into_iter().collect();
    let update = candles.insert_hist_klines(&vec![0, 60_000], &known).unwrap();
    assert_eq!(update.outcome, RequestOutcome::Completed);
    assert_eq!(update.bucket_trades.len(), 1);
    assert_eq!(update.bucket_trades[0].id, Some(1));
    let nothing = candles.insert_hist_klines(&vec![], &known).unwrap();
    assert_eq!(nothing.outcome, RequestOutcome::Failed);
    assert_eq!(request_outcome(0), RequestOutcome::Failed);
    assert_eq!(request_outcome(3), RequestOutcome::Completed);
}

#[test]
fn only_a_failed_request_for_trades_ends_the_fetching() {
    let mut candles = chart(Basis::Time(Timeframe::M1), vec![]);
    candles.request_accepted(FetchRange::Trades(at(0), at(100)));
    candles.mark_request_failed(false);
    assert!(candles.is_fetching_trades());
    candles.mark_request_failed(true);
    assert!(!candles.is_fetching_trades());
}

fn series(len: usize, last: Option<i64>, error: Option<&str>) -> SeriesState {
    SeriesState {
        mark: SeriesMark { len, last },
        freshness: GexFreshness::Fresh,
        error: error.map(|text| text.to_string()),
    }
}

fn mark(ms: u64, underlying: OptionsUnderlying) -> Option<SnapshotMark> {
    Some(SnapshotMark { observed_at: at(ms), underlying })
}

#[test]
fn equal_gex_data_does_not_redraw() {
    let mut overlay = GexOverlay {
        snapshot: None,
        measured: series(0, None, None),
        proxy: series(0, None, None),
    };
    assert!(overlay.set_gex_snapshot(mark(1, OptionsUnderlying::Btc)));
    assert!(!overlay.set_gex_snapshot(mark(1, OptionsUnderlying::Btc)));
    assert!(overlay.set_gex_snapshot(mark(1, OptionsUnderlying::Eth)));

    // The underlying of the snapshot is not looked at when all data is set.
    let btc = mark(1, OptionsUnderlying::Btc);
    assert!(!overlay.set_gex_overlay_data(btc, series(0, None, None), series(0, None, None)));
    assert_eq!(overlay.snapshot, mark(1, OptionsUnderlying::Eth));
    assert!(overlay.set_gex_overlay_data(btc, series(1, Some(5), None), series(0, None, None)));
    assert!(overlay.set_gex_overlay_data(
        btc,
        series(1, Some(5), Some("down")),
        series(0, None, None)
    ));
    assert!(!overlay.set_gex_overlay_data(
        btc,
        series(1, Some(5), Some("down")),
        series(0, None, None)
    ));
    assert!(overlay.set_gex_overlay_data(
        btc,
        series(1, Some(5), Some("up")),
        series(0, None, None)
    ));
    assert!(overlay.set_gex_overlay_data(
        btc,
        series(1, Some(5), Some("up")),
        series(2, Some(9), None)
    ));
}

fn slots() -> Vec<IndicatorSlot> {
    let panel = IndicatorSlot { allowed: true, offered: true, overlay: false, active: true };
    vec![
        panel,
        IndicatorSlot { active: false, ..panel },
        IndicatorSlot { overlay: true, ..panel },
        IndicatorSlot { allowed: false, ..panel },
        IndicatorSlot { offered: false, ..panel },
    ]
}

#[test]
fn toggling_an_indicator_counts_the_panels() {
    let mut slots = slots();
    assert_eq!(toggle_indicator(&mut slots, 1), Some((2, 3)));
    assert!(slots[1].active);
    assert_eq!(toggle_indicator(&mut slots, 1), Some((3, 2)));
    assert_eq!(toggle_indicator(&mut slots, 2), Some((2, 2)));
    assert_eq!(toggle_indicator(&mut slots, 3), None);
    assert!(slots[3].active);
}

#[test]
fn panels_follow_the_order_of_the_enabled_indicators() {
    let slots = slots();
    assert_eq!(view_indicators(&slots, &vec![4, 3, 2, 1, 0, 9], 0, 10), vec![0]);
    assert!(view_indicators(&slots, &vec![0], 11, 10).is_empty());
}
