//! The chart of gamma exposure: its view and the liquidity beside it.
use flowsurface::chart::gex::{
    configured_count, counts_in_quote, proxy_direction, visible_count, Action, Config, DepthBook,
    GexChart, GexLiquidityMetrics, GexProxyDirection, GexSignModel, GexSnapshot,
    LiquidityDepthState, LiquidityReference, MarketKind, Message, SizeUnit, StrikeRange,
    LIQUIDITY_RECALCULATION_INTERVAL_MS, LIQUIDITY_STALE_AFTER_MS,
};
use flowsurface::connector::gex_keys::OptionsUnderlying;
use flowsurface::connector::gex_proxy::GexFreshness;
use flowsurface::units::{Bits32, Bits64, UnixMs};

const STRIKES: usize = 21;
const SPOT_INDEX: usize = 10;
const BINANCE: LiquidityReference = LiquidityReference { ticker: 1 };
const BYBIT: LiquidityReference = LiquidityReference { ticker: 2 };

fn bits32(value: f32) -> Bits32 {
    Bits32 { bits: value.to_bits() }
}

fn fraction(chart: &GexChart) -> f64 {
    f64::from_bits(chart.visible_fraction().bits)
}

fn config() -> Config {
    Config {
        liquidity_depth_bps: bits32(25.0),
        sign_model: GexSignModel::CallPutOiProxy,
        show_gamma_liquidity_panel: true,
        max_visible_strikes: 20,
    }
}

fn snapshot(underlying: OptionsUnderlying) -> GexSnapshot {
    GexSnapshot { slot: 0, underlying }
}

fn chart() -> GexChart {
    let mut chart = GexChart::new(OptionsUnderlying::Btc, config(), None, 0);
    chart.set_snapshot(
        Some(snapshot(OptionsUnderlying::Btc)),
        GexFreshness::Fresh,
        None,
        None,
        0,
    );
    chart
}

fn range(chart: &GexChart) -> StrikeRange {
    let configured = configured_count(chart.config().max_visible_strikes, STRIKES);
    StrikeRange {
        len: STRIKES,
        spot_index: SPOT_INDEX,
        scaled: (configured as f64 * fraction(chart)).round() as usize,
    }
}

fn send(chart: &mut GexChart, message: Message) {
    let range = range(chart);
    assert_eq!(chart.update(message, Some(range), 1), Action::ViewChanged);
}

fn zoom_in(chart: &mut GexChart) {
    let next = (fraction(chart) * 0.8).max(0.1);
    send(chart, Message::ZoomIn(Bits64 { bits: next.to_bits() }));
}

fn zoom_out(chart: &mut GexChart) {
    let next = (fraction(chart) * 1.25).min(1.0);
    send(chart, Message::ZoomOut(Bits64 { bits: next.to_bits() }));
}

fn strikes() -> Vec<f64> {
    (50..=150).step_by(5).map(f64::from).collect()
}

fn visible(chart: &GexChart) -> Vec<f64> {
    let (start, end) = chart.visible_strikes(range(chart));
    strikes()[start..end].to_vec()
}

fn book(slot: usize, observed_at: u64) -> DepthBook {
    DepthBook { slot, observed_at: UnixMs::new(observed_at) }
}

fn metrics(book: DepthBook) -> Option<usize> {
    Some(book.slot)
}

fn insert(chart: &mut GexChart, book: DepthBook, received_at: u64) {
    chart.insert_depth(book, metrics(book), received_at);
}

#[test]
fn scroll_pans_higher_and_lower_without_zooming() {
    let mut chart = chart();
    let before = chart.visible_fraction();
    send(&mut chart, Message::Scrolled(2));
    assert_eq!(chart.center_offset(), 2);
    send(&mut chart, Message::Scrolled((-32.0_f32 / 32.0).round() as i64));
    assert_eq!(chart.center_offset(), 1);
    assert_eq!(chart.visible_fraction(), before);
    assert!(!visible(&chart).is_empty());
}

#[test]
fn zoom_buttons_disable_at_limits_and_windows_stay_nonempty() {
    let mut chart = chart();
    while chart.can_zoom_in(Some(range(&chart))) {
        zoom_in(&mut chart);
        assert!(!visible(&chart).is_empty());
    }
    assert!(!chart.can_zoom_in(Some(range(&chart))));
    while chart.can_zoom_out(Some(range(&chart))) {
        zoom_out(&mut chart);
        assert!(!visible(&chart).is_empty());
    }
    assert!(!chart.can_zoom_out(Some(range(&chart))));
    assert_eq!(visible(&chart).len(), 20);
}

#[test]
fn pan_is_clamped_to_available_strikes() {
    let mut chart = chart();
    for _ in 0..100 {
        send(&mut chart, Message::Scrolled(10));
    }
    assert!(!visible(&chart).is_empty());
    assert!(*visible(&chart).last().unwrap() <= 150.0);
    assert_eq!(chart.center_offset(), 10);
}

#[test]
fn quantity_conversion_handles_base_quote_and_inverse() {
    let notional = |kind, unit, price: f64, quantity: f64| {
        if counts_in_quote(kind, unit) {
            quantity
        } else {
            quantity * price
        }
    };
    assert_eq!(notional(MarketKind::LinearPerps, SizeUnit::Base, 100.0, 2.0), 200.0);
    assert_eq!(notional(MarketKind::LinearPerps, SizeUnit::Quote, 100.0, 200.0), 200.0);
    assert_eq!(notional(MarketKind::InversePerps, SizeUnit::Base, 100.0, 200.0), 200.0);
}

#[test]
fn stale_depth_and_reference_changes_are_runtime_only() {
    let mut chart = chart();
    let now = UnixMs::new(1_000_000);
    assert_eq!(chart.liquidity_depth_state(now), LiquidityDepthState::NoReference);
    chart.set_liquidity_reference(Some(BINANCE), 0);
    assert_eq!(chart.liquidity_depth_state(now), LiquidityDepthState::WaitingForDepth);
    let stale_at = now.as_u64() - (LIQUIDITY_STALE_AFTER_MS + 1);
    insert(&mut chart, book(1, stale_at), 0);
    assert!(chart.liquidity_metrics().is_some());
    assert_eq!(chart.liquidity_depth_state(now), LiquidityDepthState::Stale);
    chart.set_liquidity_reference(Some(BYBIT), 0);
    assert_eq!(chart.liquidity_reference(), Some(BYBIT));
    assert!(chart.liquidity_metrics().is_none());
    assert_eq!(chart.liquidity_depth_state(now), LiquidityDepthState::WaitingForDepth);

    chart.insert_depth(book(2, now.as_u64()), None, 0);
    assert_eq!(chart.liquidity_depth_state(now), LiquidityDepthState::InvalidDepth);
    insert(&mut chart, book(3, now.as_u64()), 0);
    assert_eq!(chart.liquidity_depth_state(now), LiquidityDepthState::Ready);
}

#[test]
fn first_depth_is_immediate_and_updates_are_throttled_to_latest_book() {
    let mut chart = chart();
    chart.set_liquidity_reference(Some(BINANCE), 0);
    let started = 5_000;
    let first = book(1, 1_000);
    let latest = book(2, 2_000);

    insert(&mut chart, first, started);
    assert_eq!(
        chart.liquidity_metrics(),
        Some(GexLiquidityMetrics {
            slot: first.slot,
            reference: BINANCE,
            observed_at: first.observed_at,
        })
    );
    let first_slot = chart.liquidity_metrics().unwrap().slot;

    insert(&mut chart, latest, started + 59_000);
    assert_eq!(chart.liquidity_metrics().unwrap().observed_at, first.observed_at);
    assert_eq!(chart.last_depth().unwrap().observed_at, latest.observed_at);

    insert(&mut chart, latest, started + LIQUIDITY_RECALCULATION_INTERVAL_MS);
    let sampled = chart.liquidity_metrics().unwrap();
    assert_eq!(sampled.observed_at, latest.observed_at);
    assert_ne!(sampled.slot, first_slot);
}

#[test]
fn continuous_depth_ticks_cannot_debounce_periodic_recalculation() {
    let mut chart = chart();
    chart.set_liquidity_reference(Some(BINANCE), 0);
    let started = 5_000;
    insert(&mut chart, book(1, 1), started);

    for second in 1..60 {
        insert(&mut chart, book(1, second * 1_000), started + second * 1_000);
        assert_eq!(chart.liquidity_metrics().unwrap().observed_at, UnixMs::new(1));
    }
    insert(&mut chart, book(1, 60_000), started + 60_000);
    assert_eq!(chart.liquidity_metrics().unwrap().observed_at, UnixMs::new(60_000));
    assert_eq!(
        chart.last_liquidity_recalculation(),
        Some(started + LIQUIDITY_RECALCULATION_INTERVAL_MS)
    );
}

#[test]
fn reference_change_and_panel_reenable_reset_liquidity_throttle() {
    let mut chart = chart();
    chart.set_liquidity_reference(Some(BINANCE), 0);
    let started = 5_000;
    insert(&mut chart, book(1, 1), started);

    chart.set_liquidity_reference(Some(BYBIT), started);
    assert!(chart.last_depth().is_none());
    assert!(chart.liquidity_metrics().is_none());
    assert!(chart.last_liquidity_recalculation().is_none());
    insert(&mut chart, book(2, 2), started + 1_000);
    assert_eq!(chart.liquidity_metrics().unwrap().observed_at, UnixMs::new(2));

    let mut disabled = chart.config();
    disabled.show_gamma_liquidity_panel = false;
    chart.set_config(disabled, metrics(book(2, 2)), started + 1_000);
    assert!(chart.liquidity_metrics().is_none());
    assert!(chart.last_liquidity_recalculation().is_none());

    let mut enabled = disabled;
    enabled.show_gamma_liquidity_panel = true;
    chart.set_config(enabled, metrics(book(2, 2)), started + 1_000);
    assert_eq!(chart.liquidity_metrics().unwrap().observed_at, UnixMs::new(2));
    assert!(chart.last_liquidity_recalculation().is_none());
    insert(&mut chart, book(3, 3), started + 2_000);
    assert_eq!(chart.liquidity_metrics().unwrap().observed_at, UnixMs::new(3));
}

#[test]
fn absolute_gamma_has_no_directional_proxy_label() {
    assert_eq!(
        proxy_direction(GexSignModel::AbsoluteGamma, false, true),
        GexProxyDirection::NotApplicable
    );
    assert_eq!(
        proxy_direction(GexSignModel::CallPutOiProxy, true, true),
        GexProxyDirection::Balanced
    );
    assert_eq!(
        proxy_direction(GexSignModel::CallPutOiProxy, false, true),
        GexProxyDirection::Positive
    );
    assert_eq!(
        proxy_direction(GexSignModel::CallPutOiProxy, false, false),
        GexProxyDirection::Negative
    );
}

#[test]
fn snapshot_of_another_underlying_is_not_taken() {
    let mut chart = chart();
    chart.set_snapshot(
        Some(snapshot(OptionsUnderlying::Eth)),
        GexFreshness::Error,
        Some("failed".to_string()),
        None,
        9,
    );
    assert_eq!(chart.freshness(), GexFreshness::Fresh);
    assert!(chart.error().is_none());
    chart.set_underlying(OptionsUnderlying::Eth);
    assert!(chart.snapshot().is_none());
    assert_eq!(chart.freshness(), GexFreshness::Loading);
}

#[test]
fn dragging_moves_whole_rows_after_the_first_point() {
    let mut chart = chart();
    let dragged = |y: f32, rows, remainder: f32| Message::Dragged {
        y: bits32(y),
        rows,
        remainder: bits32(remainder),
    };
    send(&mut chart, dragged(10.0, 3, 0.0));
    assert_eq!(chart.center_offset(), 0);
    send(&mut chart, Message::DragStarted);
    assert!(chart.is_dragging());
    send(&mut chart, dragged(10.0, 3, 0.0));
    assert_eq!(chart.center_offset(), 0);
    send(&mut chart, dragged(40.0, 2, 6.0));
    assert_eq!(chart.center_offset(), 2);
    assert_eq!(chart.drag(), (Some(bits32(40.0)), bits32(6.0)));
    send(&mut chart, Message::DragEnded);
    assert!(!chart.is_dragging());
    send(&mut chart, Message::AutoFit);
    assert_eq!(chart.center_offset(), 0);
}

#[test]
fn zeros_of_both_signs_are_the_same_depth() {
    let mut chart = chart();
    chart.set_liquidity_reference(Some(BINANCE), 0);
    let mut zero = config();
    zero.liquidity_depth_bps = bits32(0.0);
    chart.set_config(zero, None, 0);
    insert(&mut chart, book(1, 1), 10);
    let mut negative = zero;
    negative.liquidity_depth_bps = bits32(-0.0);
    chart.set_config(negative, None, 20);
    assert!(chart.liquidity_metrics().is_some());
    let mut other = negative;
    other.liquidity_depth_bps = bits32(50.0);
    chart.set_config(other, None, 30);
    assert!(chart.liquidity_metrics().is_none());
}

#[test]
fn few_strikes_are_all_visible() {
    assert_eq!(visible_count(0, 3), 3);
    assert_eq!(visible_count(0, 30), 5);
    assert_eq!(visible_count(99, 30), 30);
    assert_eq!(configured_count(0, 30), 1);
    let chart = chart();
    let empty = StrikeRange { len: 0, spot_index: 0, scaled: 0 };
    assert_eq!(chart.visible_strikes(empty), (0, 0));
    assert!(!chart.can_zoom_in(None));
    assert!(!chart.can_zoom_out(None));
}
