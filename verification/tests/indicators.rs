//! The indicators below a chart of candles.
use flowsurface::chart::indicator::kline::cumulative_delta::{
    cumulative_point, directional_volume, CandleFlow, CandleSource, CumulativeDeltaIndicator,
    CvdAggregationUnit, CvdAvailability, CvdConfig, CvdRenderStyle, CvdReset, CvdSourceMode,
    DirectionalVolume, ExternalTrade, TradeCoverage,
};
use flowsurface::chart::indicator::kline::open_interest::{
    Exchange, FetchContext, OpenInterestAvailability, OpenInterestIndicator, OpenInterestRange,
};
use flowsurface::chart::kline::market::Basis;
use flowsurface::chart::kline::profiles::PriceLevel;
use flowsurface::connector::records::{OpenInterest, Trade};
use flowsurface::units::{Bits32, Bits64, Price, Qty, Timeframe, UnixMs, Volume};

fn qty(value: f64) -> Qty {
    Qty::from_units((value * 1_000_000.0).round() as i64)
}

fn aggregate(buy: f64, sell: f64) -> DirectionalVolume {
    DirectionalVolume { buy: qty(buy), sell: qty(sell), path: None, reliable: true }
}

fn candle(volume: Volume) -> CandleFlow {
    CandleFlow {
        volume,
        levels: Vec::new(),
        trade_coverage: TradeCoverage::Unknown,
        trade_sequence: Vec::new(),
    }
}

fn trade(time: u64, is_sell: bool, amount: f64) -> Trade {
    Trade {
        id: Some(1),
        time: UnixMs::new(time),
        is_sell,
        price: Price::from_units(100_000_000_000),
        qty: qty(amount),
    }
}

fn level(buy: f64, sell: f64) -> PriceLevel {
    PriceLevel { price: Price::from_units(100_000_000_000), buy: qty(buy), sell: qty(sell) }
}

fn config(source_mode: CvdSourceMode, reset: CvdReset) -> CvdConfig {
    CvdConfig {
        source_mode,
        aggregation_unit: CvdAggregationUnit::QuoteNotional,
        venue_mask: 0,
        reset,
        render_style: CvdRenderStyle::Line,
        line_width: Bits32 { bits: 1.0_f32.to_bits() },
        candle_width_percent: Bits32 { bits: 70.0_f32.to_bits() },
        show_wicks: true,
    }
}

#[test]
fn cvd_candle_preserves_open_close_and_directional_envelope() {
    let point = cumulative_point(qty(100.0), aggregate(30.0, 10.0));

    assert_eq!(point.open, qty(100.0));
    assert_eq!(point.high, qty(120.0));
    assert_eq!(point.low, qty(100.0));
    assert_eq!(point.close, qty(120.0));
    assert!(point.reliable);
}

#[test]
fn next_cvd_candle_opens_at_previous_close() {
    let first = cumulative_point(qty(0.0), aggregate(8.0, 3.0));
    let second = cumulative_point(first.close, aggregate(2.0, 7.0));

    assert_eq!(second.open, first.close);
    assert_eq!(second.close, qty(0.0));
}

#[test]
fn zero_delta_is_valid() {
    let point = cumulative_point(qty(4.0), aggregate(5.0, 5.0));
    assert!(point.reliable);
    assert_eq!(point.open, point.close);
}

#[test]
fn buysell_kline_wins_over_partial_footprint() {
    let mut candle = candle(Volume::BuySell(qty(10.0), qty(4.0)));
    candle.levels.push(level(0.0, 100.0));
    candle.trade_sequence.push(trade(1, true, 100.0));
    let directional = directional_volume(&candle, true);
    assert_eq!(directional.buy, qty(10.0));
    assert_eq!(directional.sell, qty(4.0));
}

#[test]
fn partial_total_only_bucket_is_only_valid_as_live_provisional() {
    let mut candle = candle(Volume::TotalOnly(qty(1.0)));
    candle.levels.push(level(1.0, 0.0));
    candle.trade_sequence.push(trade(1, false, 1.0));
    assert!(!directional_volume(&candle, false).reliable);
    assert!(directional_volume(&candle, true).reliable);
    candle.trade_coverage = TradeCoverage::Complete;
    assert!(directional_volume(&candle, false).reliable);
}

#[test]
fn daily_utc_reset_is_independent_between_days() {
    let mut indicator =
        CumulativeDeltaIndicator::new(config(CvdSourceMode::Chart, CvdReset::DailyUtc));
    let source = CandleSource::Time(vec![
        (86_399_000, candle(Volume::BuySell(qty(8.0), qty(3.0)))),
        (86_400_000, candle(Volume::BuySell(qty(2.0), qty(1.0)))),
    ]);
    indicator.rebuild_from_source(&source);
    let data = indicator.data();
    assert_eq!(data[1].0, 86_400_000);
    assert_eq!(data[1].1.open, qty(0.0));
    assert_eq!(data[1].1.close, qty(1.0));
}

#[test]
fn aggregate_totals_do_not_create_synthetic_wicks() {
    let point = cumulative_point(qty(10.0), aggregate(30.0, 10.0));
    assert_eq!(point.high, point.close);
    assert_eq!(point.low, point.open);
}

#[test]
fn known_trades_draw_the_wicks_in_order_of_time() {
    let mut candle = candle(Volume::BuySell(qty(5.0), qty(4.0)));
    candle.trade_coverage = TradeCoverage::Complete;
    candle.trade_sequence =
        vec![trade(30, false, 2.0), trade(10, true, 4.0), trade(20, false, 3.0)];
    let volume = directional_volume(&candle, false);
    assert_eq!(volume.path, Some((qty(1.0), qty(-4.0))));
    let point = cumulative_point(qty(10.0), volume);
    assert_eq!(point.low, qty(6.0));
    assert_eq!(point.high, qty(11.0));
    candle.trade_sequence.pop();
    assert_eq!(directional_volume(&candle, false).path, None);
}

#[test]
fn sums_stay_within_the_range_of_quantities() {
    let full = Qty::from_units(i64::MAX);
    let volume =
        DirectionalVolume { buy: full, sell: qty(0.0), path: None, reliable: true };
    assert_eq!(cumulative_point(full, volume).close, full);
}

#[test]
fn without_reset_days_continue_each_other() {
    let mut indicator =
        CumulativeDeltaIndicator::new(config(CvdSourceMode::Chart, CvdReset::Never));
    let source = CandleSource::Time(vec![
        (86_399_000, candle(Volume::BuySell(qty(8.0), qty(3.0)))),
        (86_400_000, candle(Volume::BuySell(qty(2.0), qty(1.0)))),
    ]);
    indicator.on_insert_klines(0, &source);
    assert!(indicator.data().is_empty());
    indicator.on_insert_klines(2, &source);
    assert_eq!(indicator.data()[1].1.open, qty(5.0));
    assert_eq!(indicator.availability(), CvdAvailability::Available);
    assert!(indicator.on_config_changed(config(CvdSourceMode::Chart, CvdReset::DailyUtc)));
    assert_eq!(indicator.data()[1].1.open, qty(0.0));
    assert!(!indicator.on_config_changed(config(CvdSourceMode::Chart, CvdReset::DailyUtc)));
}

#[test]
fn candles_without_sides_have_no_delta() {
    let mut indicator =
        CumulativeDeltaIndicator::new(config(CvdSourceMode::Chart, CvdReset::Never));
    assert_eq!(indicator.availability(), CvdAvailability::Unknown);
    indicator.rebuild_from_source(&CandleSource::Tick(vec![Volume::TotalOnly(qty(3.0))]));
    assert_eq!(indicator.availability(), CvdAvailability::NoTradeData);
    assert!(!indicator.data()[0].1.reliable);
    indicator.on_insert_trades(
        1,
        &CandleSource::Tick(vec![Volume::TotalOnly(qty(3.0)), Volume::BuySell(qty(3.0), qty(1.0))]),
    );
    assert_eq!(indicator.availability(), CvdAvailability::Available);
    assert_eq!(indicator.data()[1].1.close, qty(2.0));
}

#[test]
fn composite_delta_separates_spot_and_perpetual() {
    let mode = CvdSourceMode::CompositeSpotAndPerpetual;
    let mut indicator = CumulativeDeltaIndicator::new(config(mode, CvdReset::Never));
    let external = |time, is_sell, amount: Option<f64>| ExternalTrade {
        time: UnixMs::new(time),
        is_sell,
        amount: amount.map(qty),
    };
    let perpetual = vec![
        external(125_000, false, Some(3.0)),
        external(61_000, true, Some(1.0)),
        external(119_999, false, Some(2.0)),
        external(119_999, false, None),
    ];
    indicator.on_insert_external_trades(false, &perpetual, Some(Timeframe::M1));
    indicator.on_insert_external_trades(
        true,
        &vec![external(61_000, false, Some(7.0))],
        Some(Timeframe::M1),
    );
    let closes: Vec<_> = indicator.data().iter().map(|(time, p)| (*time, p.close)).collect();
    assert_eq!(closes, vec![(60_000, qty(1.0)), (120_000, qty(4.0))]);
    assert_eq!(indicator.spot_data()[0].1.close, qty(7.0));
    indicator.on_insert_external_trades(false, &perpetual, None);
    assert_eq!(indicator.availability(), CvdAvailability::NotOnTicks);
    assert!(indicator.on_config_changed(config(CvdSourceMode::CompositeSpot, CvdReset::Never)));
    assert!(indicator.data().is_empty());
    indicator.on_insert_external_trades(false, &perpetual, Some(Timeframe::M1));
    assert!(indicator.data().is_empty());
}

#[test]
fn maps_chart_timeframes_to_supported_oi_sources() {
    assert_eq!(OpenInterestIndicator::source_timeframe(Timeframe::M1), Some(Timeframe::M5));
    assert_eq!(OpenInterestIndicator::source_timeframe(Timeframe::M3), Some(Timeframe::M5));
    assert_eq!(OpenInterestIndicator::source_timeframe(Timeframe::M5), Some(Timeframe::M5));
    assert_eq!(OpenInterestIndicator::source_timeframe(Timeframe::H2), None);
}

fn interest(time: u64, value: f64) -> OpenInterest {
    OpenInterest { time: UnixMs::new(time), value: Bits64 { bits: value.to_bits() } }
}

#[test]
fn m5_timestamp_is_not_shifted_on_m1_chart() {
    let mut indicator = OpenInterestIndicator::new();
    indicator.on_open_interest(&vec![interest(300_000, 42.0)]);
    let found = indicator.data().iter().find(|(time, _)| *time == 300_000).map(|(_, v)| *v);
    assert_eq!(found, Some(Bits64 { bits: 42.0_f64.to_bits() }));
}

#[test]
fn open_interest_candles_open_at_the_figure_before() {
    let mut indicator = OpenInterestIndicator::new();
    indicator.on_open_interest(&vec![
        interest(600_000, 40.0),
        interest(300_000, 50.0),
        interest(600_000, -45.0),
    ]);
    let candles = indicator.candles();
    assert_eq!(candles.len(), 2);
    assert_eq!(f64::from_bits(candles[0].1.open.bits), 50.0);
    assert_eq!(candles[1].0, 600_000);
    assert_eq!(f64::from_bits(candles[1].1.open.bits), 50.0);
    assert_eq!(f64::from_bits(candles[1].1.high.bits), 50.0);
    assert_eq!(f64::from_bits(candles[1].1.low.bits), -45.0);
    assert_eq!(f64::from_bits(candles[1].1.close.bits), -45.0);
}

#[test]
fn figures_that_are_no_numbers_do_not_widen_a_candle() {
    let mut indicator = OpenInterestIndicator::new();
    indicator.on_open_interest(&vec![interest(300_000, f64::NAN), interest(600_000, 7.0)]);
    let candle = indicator.candles()[1].1;
    assert_eq!(f64::from_bits(candle.high.bits), 7.0);
    assert_eq!(f64::from_bits(candle.low.bits), 7.0);
}

#[test]
fn open_interest_is_fetched_before_and_after_what_is_known() {
    let mut indicator = OpenInterestIndicator::new();
    let context = FetchContext {
        timeframe: Timeframe::M1,
        exchange: Exchange::OtherPerpetuals,
        visible_earliest: UnixMs::new(600_000),
        prefetch_earliest: UnixMs::new(300_000),
        kline_latest: UnixMs::new(1_800_000),
    };
    let range = |from, to| {
        Some(OpenInterestRange {
            from: UnixMs::new(from),
            to: UnixMs::new(to),
            timeframe: Timeframe::M5,
        })
    };
    assert_eq!(indicator.fetch_range(context), range(300_000, 1_800_000));
    indicator.on_open_interest(&vec![interest(600_000, 1.0), interest(900_000, 2.0)]);
    assert_eq!(indicator.fetch_range(context), range(900_000, 1_800_000));
    indicator.on_open_interest(&vec![interest(1_800_000, 3.0)]);
    assert_eq!(indicator.fetch_range(context), None);
    let hourly = FetchContext { timeframe: Timeframe::H1, ..context };
    assert!(indicator.fetch_range(hourly).is_some());
    assert!(indicator.data().is_empty());
    assert_eq!(indicator.fetch_range(FetchContext { exchange: Exchange::OtherSpot, ..context }), None);
}

#[test]
fn open_interest_names_why_it_is_missing() {
    let on = OpenInterestIndicator::availability_for;
    let minute = Basis::Time(Timeframe::M1);
    assert_eq!(on(minute, Exchange::OtherPerpetuals), OpenInterestAvailability::Available);
    assert_eq!(
        on(Basis::Tick(50), Exchange::OtherPerpetuals),
        OpenInterestAvailability::NotOnBasis(Basis::Tick(50))
    );
    assert_eq!(
        on(minute, Exchange::MexcLinear),
        OpenInterestAvailability::NotOnExchange(Exchange::MexcLinear)
    );
    assert_eq!(
        on(minute, Exchange::HyperliquidLinear),
        OpenInterestAvailability::NotOnExchange(Exchange::HyperliquidLinear)
    );
    assert_eq!(
        on(Basis::Time(Timeframe::H2), Exchange::OtherPerpetuals),
        OpenInterestAvailability::NotOnTimeframe(Timeframe::H2)
    );
}
