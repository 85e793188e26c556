//! The cumulative volume delta: what was bought less what was sold, added up candle by
//! candle.
use vstd::prelude::*;
use crate::chart::kline::profiles::PriceLevel;
use crate::chart::kline::trades;
use crate::chart::kline::trades::floor_to;
use crate::connector::records::Trade;
use crate::order;
use crate::order::{stable_order, SortKey};
use crate::units::{Bits32, Qty, Timeframe, UnixMs, Volume};

verus! {

/// The milliseconds of a day.
pub const DAY_MS: u64 = 86_400_000;

/// How many of a candle's trades are known.
#[derive(Clone, Copy, Debug, PartialEq, Eq, Structural)]
pub enum TradeCoverage {
    Unknown,
    Partial,
    Complete,
}

/// What is known of the trading within a candle.
#[derive(Debug)]
pub struct CandleFlow {
    pub volume: Volume,
    pub levels: Vec<PriceLevel>,
    pub trade_coverage: TradeCoverage,
    pub trade_sequence: Vec<Trade>,
}

/// What was bought and sold within a candle; `path` is how far the running difference got
/// above and below zero.
#[derive(Clone, Copy, Debug, PartialEq, Eq)]
pub struct DirectionalVolume {
    pub buy: Qty,
    pub sell: Qty,
    pub path: Option<(Qty, Qty)>,
    pub reliable: bool,
}

#[derive(Clone, Copy, Debug, PartialEq, Eq, Structural)]
pub struct CumulativeDeltaPoint {
    pub delta: Qty,
    pub open: Qty,
    pub high: Qty,
    pub low: Qty,
    pub close: Qty,
    pub reliable: bool,
}

pub open spec fn zero() -> Qty {
    Qty { units: 0 }
}

/// Nothing known.
pub open spec fn unknown_volume() -> DirectionalVolume {
    DirectionalVolume { buy: zero(), sell: zero(), path: None, reliable: false }
}

/// Quantities bought and sold.
pub open spec fn sides(buy: Qty, sell: Qty) -> DirectionalVolume {
    DirectionalVolume { buy, sell, path: None, reliable: true }
}

/// What was bought and sold at all prices of a candle.
pub open spec fn level_totals(levels: Seq<PriceLevel>) -> (Qty, Qty)
    decreases levels.len(),
{
    if levels.len() == 0 {
        (zero(), zero())
    } else {
        let before = level_totals(levels.drop_last());
        (before.0.plus(levels.last().buy), before.1.plus(levels.last().sell))
    }
}

/// The trades at some places, one after the other: their totals on each side.
pub open spec fn trade_totals(trades: Seq<Trade>, at: Seq<usize>) -> (Qty, Qty)
    decreases at.len(),
{
    if at.len() == 0 {
        (zero(), zero())
    } else {
        let before = trade_totals(trades, at.drop_last());
        let trade = trades[at.last() as int];
        if trade.is_sell {
            (before.0, before.1.plus(trade.qty))
        } else {
            (before.0.plus(trade.qty), before.1)
        }
    }
}

/// The running difference after the trades at some places, and how high and how low it
/// got.
pub open spec fn running(trades: Seq<Trade>, at: Seq<usize>) -> (Qty, Qty, Qty)
    decreases at.len(),
{
    if at.len() == 0 {
        (zero(), zero(), zero())
    } else {
        let before = running(trades, at.drop_last());
        let trade = trades[at.last() as int];
        let now = if trade.is_sell {
            before.0.minus(trade.qty)
        } else {
            before.0.plus(trade.qty)
        };
        (now, before.1.larger_of(now), before.2.smaller_of(now))
    }
}

pub open spec fn time_keys(trades: Seq<Trade>) -> Seq<SortKey> {
    trades.map_values(|trade: Trade| (trade.time.ms, 0u128))
}

/// The places of the trades by time, of equal times in the given order.
pub open spec fn by_time(trades: Seq<Trade>) -> Seq<usize> {
    choose|at: Seq<usize>|
        order::is_stable_order(time_keys(trades), 0, trades.len() as int, at)
}

/// How high and how low the difference got, where all trades are known and add up to the
/// totals.
pub open spec fn complete_path(
    coverage: TradeCoverage,
    trades: Seq<Trade>,
    buy: Qty,
    sell: Qty,
) -> Option<(Qty, Qty)> {
    if coverage != TradeCoverage::Complete || trades.len() == 0 || trade_totals(
        trades,
        by_time(trades),
    ) != (buy, sell) {
        None
    } else {
        let end = running(trades, by_time(trades));
        Some((end.1, end.2))
    }
}

/// What was bought and sold within a candle. The split that came with the candle counts
/// before its trades; these count where all are known, or where some may be missing.
pub open spec fn directional(
    volume: Volume,
    levels: Seq<PriceLevel>,
    coverage: TradeCoverage,
    trades: Seq<Trade>,
    allow_partial: bool,
) -> DirectionalVolume {
    match volume {
        Volume::BuySell(buy, sell) => DirectionalVolume {
            buy,
            sell,
            path: complete_path(coverage, trades, buy, sell),
            reliable: true,
        },
        Volume::TotalOnly(_) => if levels.len() > 0 && (coverage == TradeCoverage::Complete
            || allow_partial) {
            let totals = level_totals(levels);
            DirectionalVolume {
                buy: totals.0,
                sell: totals.1,
                path: complete_path(coverage, trades, totals.0, totals.1),
                reliable: true,
            }
        } else {
            unknown_volume()
        },
    }
}

impl CandleFlow {
    pub open spec fn directional(&self, allow_partial: bool) -> DirectionalVolume {
        directional(
            self.volume,
            self.levels@,
            self.trade_coverage,
            self.trade_sequence@,
            allow_partial,
        )
    }
}

fn no_volume() -> (r: DirectionalVolume)
    ensures
        r == unknown_volume(),
{
    DirectionalVolume {
        buy: Qty { units: 0 },
        sell: Qty { units: 0 },
        path: None,
        reliable: false,
    }
}

fn sum_levels(levels: &Vec<PriceLevel>) -> (r: (Qty, Qty))
    ensures
        r == level_totals(levels@),
{
    let mut buy: Qty = Qty { units: 0 };
    let mut sell: Qty = Qty { units: 0 };
    let mut i: usize = 0;
    assert(levels@.take(0) =~= Seq::<PriceLevel>::empty());
    while i < levels.len()
        invariant
            i <= levels@.len(),
            (buy, sell) == level_totals(levels@.take(i as int)),
        decreases levels@.len() - i,
    {
        assert(levels@.take(i + 1).drop_last() =~= levels@.take(i as int));
        assert(levels@.take(i + 1).last() == levels@[i as int]);
        buy = buy.saturating_add(levels[i].buy);
        sell = sell.saturating_add(levels[i].sell);
        i = i + 1;
    }
    assert(levels@.take(levels@.len() as int) =~= levels@);
    (buy, sell)
}

fn find_path(coverage: TradeCoverage, trades: &Vec<Trade>, buy: Qty, sell: Qty) -> (r: Option<
    (Qty, Qty),
>)
    ensures
        r == complete_path(coverage, trades@, buy, sell),
{
    if coverage != TradeCoverage::Complete || trades.len() == 0 {
        return None;
    }
    let mut keys: Vec<SortKey> = Vec::new();
    let mut i: usize = 0;
    assert(time_keys(trades@).take(0) =~= Seq::<SortKey>::empty());
    while i < trades.len()
        invariant
            i <= trades@.len(),
            keys@ == time_keys(trades@).take(i as int),
        decreases trades@.len() - i,
    {
        keys.push((trades[i].time.ms, 0));
        assert(keys@ =~= time_keys(trades@).take(i + 1));
        i = i + 1;
    }
    assert(keys@ =~= time_keys(trades@));
    let at: Vec<usize> = stable_order(&keys);
    proof {
        order::stable_order_is_unique(time_keys(trades@), at@, by_time(trades@));
    }
    let mut totals: (Qty, Qty) = (Qty { units: 0 }, Qty { units: 0 });
    let mut now: Qty = Qty { units: 0 };
    let mut high: Qty = Qty { units: 0 };
    let mut low: Qty = Qty { units: 0 };
    let mut k: usize = 0;
    assert(at@.take(0) =~= Seq::<usize>::empty());
    while k < at.len()
        invariant
            k <= at@.len(),
            forall|a: int| 0 <= a < at@.len() ==> (#[trigger] at@[a]) < trades@.len(),
            totals == trade_totals(trades@, at@.take(k as int)),
            (now, high, low) == running(trades@, at@.take(k as int)),
        decreases at@.len() - k,
    {
        assert(at@.take(k + 1).drop_last() =~= at@.take(k as int));
        assert(at@.take(k + 1).last() == at@[k as int]);
        let trade: Trade = trades[at[k]];
        if trade.is_sell {
            totals = (totals.0, totals.1.saturating_add(trade.qty));
            now = now.saturating_sub(trade.qty);
        } else {
            totals = (totals.0.saturating_add(trade.qty), totals.1);
            now = now.saturating_add(trade.qty);
        }
        high = high.max_with(now);
        low = low.min_with(now);
        k = k + 1;
    }
    assert(at@.take(at@.len() as int) =~= at@);
    if totals.0 != buy || totals.1 != sell {
        return None;
    }
    Some((high, low))
}

/// What was bought and sold within a candle.
pub fn directional_volume(candle: &CandleFlow, allow_partial: bool) -> (r: DirectionalVolume)
    ensures
        r == candle.directional(allow_partial),
{
    match candle.volume {
        Volume::BuySell(buy, sell) => DirectionalVolume {
            buy,
            sell,
            path: find_path(candle.trade_coverage, &candle.trade_sequence, buy, sell),
            reliable: true,
        },
        Volume::TotalOnly(_) => {
            if candle.levels.len() > 0 && (candle.trade_coverage == TradeCoverage::Complete
                || allow_partial) {
                let (buy, sell): (Qty, Qty) = sum_levels(&candle.levels);
                DirectionalVolume {
                    buy,
                    sell,
                    path: find_path(candle.trade_coverage, &candle.trade_sequence, buy, sell),
                    reliable: true,
                }
            } else {
                no_volume()
            }
        },
    }
}

pub open spec fn aggregated(volume: Volume) -> DirectionalVolume {
    match volume {
        Volume::BuySell(buy, sell) => sides(buy, sell),
        Volume::TotalOnly(_) => unknown_volume(),
    }
}

/// What was bought and sold within a candle of ticks.
pub fn aggregate_directional_volume(volume: Volume) -> (r: DirectionalVolume)
    ensures
        r == aggregated(volume),
{
    match volume {
        Volume::BuySell(buy, sell) => DirectionalVolume { buy, sell, path: None, reliable: true },
        Volume::TotalOnly(_) => no_volume(),
    }
}

/// The candle of the cumulative delta that opens at `open`.
pub open spec fn point_from(open: Qty, volume: DirectionalVolume) -> CumulativeDeltaPoint {
    let delta = volume.buy.minus(volume.sell);
    let close = open.plus(delta);
    CumulativeDeltaPoint {
        delta,
        open,
        high: match volume.path {
            Some(path) => open.plus(path.0).larger_of(open).larger_of(close),
            None => open.larger_of(close),
        },
        low: match volume.path {
            Some(path) => open.plus(path.1).smaller_of(open).smaller_of(close),
            None => open.smaller_of(close),
        },
        close,
        reliable: volume.reliable,
    }
}

/// The candle of the cumulative delta that opens at `open`.
pub fn cumulative_point(open: Qty, volume: DirectionalVolume) -> (r: CumulativeDeltaPoint)
    ensures
        r == point_from(open, volume),
{
    let delta: Qty = volume.buy.saturating_sub(volume.sell);
    let close: Qty = open.saturating_add(delta);
    let (high, low): (Qty, Qty) = match volume.path {
        Some((high, low)) => (
            open.saturating_add(high).max_with(open).max_with(close),
            open.saturating_add(low).min_with(open).min_with(close),
        ),
        None => (open.max_with(close), open.min_with(close)),
    };
    CumulativeDeltaPoint { delta, open, high, low, close, reliable: volume.reliable }
}

/// When the sum starts from zero again.
#[derive(Clone, Copy, Debug, PartialEq, Eq, Structural)]
pub enum CvdReset {
    Never,
    DailyUtc,
}

/// What the last candle of a series opens at.
pub open spec fn opens_at(
    deltas: Seq<(u64, DirectionalVolume)>,
    before: Seq<(u64, CumulativeDeltaPoint)>,
    daily: bool,
) -> Qty {
    if before.len() == 0 || (daily && before.last().0 / DAY_MS != deltas.last().0 / DAY_MS) {
        zero()
    } else {
        before.last().1.close
    }
}

/// The candles of the cumulative delta: each opens where the one before closed, the first
/// one and with `daily` the first one of a day at zero.
pub open spec fn accumulated(deltas: Seq<(u64, DirectionalVolume)>, daily: bool) -> Seq<
    (u64, CumulativeDeltaPoint),
>
    decreases deltas.len(),
{
    if deltas.len() == 0 {
        Seq::empty()
    } else {
        let before = accumulated(deltas.drop_last(), daily);
        before.push(
            (deltas.last().0, point_from(opens_at(deltas, before, daily), deltas.last().1)),
        )
    }
}

fn accumulate(deltas: &Vec<(u64, DirectionalVolume)>, daily: bool) -> (r: Vec<
    (u64, CumulativeDeltaPoint),
>)
    ensures
        r@ == accumulated(deltas@, daily),
{
    let mut r: Vec<(u64, CumulativeDeltaPoint)> = Vec::new();
    let mut cumulative: Qty = Qty { units: 0 };
    let mut i: usize = 0;
    assert(deltas@.take(0) =~= Seq::<(u64, DirectionalVolume)>::empty());
    while i < deltas.len()
        invariant
            i <= deltas@.len(),
            r@ == accumulated(deltas@.take(i as int), daily),
            r@.len() == i,
            i > 0 ==> r@.last().0 == deltas@[i - 1].0 && r@.last().1.close == cumulative,
            i == 0 ==> cumulative == zero(),
        decreases deltas@.len() - i,
    {
        assert(deltas@.take(i + 1).drop_last() =~= deltas@.take(i as int));
        assert(deltas@.take(i + 1).last() == deltas@[i as int]);
        let (key, volume): (u64, DirectionalVolume) = deltas[i];
        if daily && i > 0 && deltas[i - 1].0 / DAY_MS != key / DAY_MS {
            cumulative = Qty { units: 0 };
        }
        let point: CumulativeDeltaPoint = cumulative_point(cumulative, volume);
        cumulative = point.close;
        r.push((key, point));
        i = i + 1;
    }
    assert(deltas@.take(deltas@.len() as int) =~= deltas@);
    r
}

/// Where the trades of the delta come from.
#[derive(Clone, Copy, Debug, PartialEq, Eq, Structural)]
pub enum CvdSourceMode {
    Chart,
    MatchingSpot,
    CompositeSpot,
    CompositePerpetual,
    CompositeSpotAndPerpetual,
    Custom,
}

#[derive(Clone, Copy, Debug, PartialEq, Eq, Structural)]
pub enum CvdAggregationUnit {
    QuoteNotional,
    BaseQuantity,
}

#[derive(Clone, Copy, Debug, PartialEq, Eq, Structural)]
pub enum CvdRenderStyle {
    Line,
    Candlesticks,
}

#[derive(Clone, Copy, Debug, PartialEq, Eq, Structural)]
pub struct CvdConfig {
    pub source_mode: CvdSourceMode,
    pub aggregation_unit: CvdAggregationUnit,
    pub venue_mask: u64,
    pub reset: CvdReset,
    pub render_style: CvdRenderStyle,
    pub line_width: Bits32,
    pub candle_width_percent: Bits32,
    pub show_wicks: bool,
}

#[derive(Clone, Copy, Debug, PartialEq, Eq, Structural)]
pub enum CvdAvailability {
    Unknown,
    Available,
    /// No candle tells what was bought and what was sold.
    NoTradeData,
    /// The source needs candles of a fixed duration.
    NotOnTicks,
}

/// The candles of a chart: of a fixed duration by their moments, or of ticks.
#[derive(Debug)]
pub enum CandleSource {
    Time(Vec<(u64, CandleFlow)>),
    Tick(Vec<Volume>),
}

/// A trade of another market. The amount is in the unit of the configuration; `None` is
/// what is no amount.
#[derive(Clone, Copy, Debug)]
pub struct ExternalTrade {
    pub time: UnixMs,
    pub is_sell: bool,
    pub amount: Option<Qty>,
}

#[verifier::ext_equal]
pub struct IndicatorModel {
    pub config: CvdConfig,
    pub availability: CvdAvailability,
    pub ticks: bool,
    pub delta: Seq<(u64, DirectionalVolume)>,
    pub data: Seq<(u64, CumulativeDeltaPoint)>,
    pub composite: Seq<(u64, DirectionalVolume)>,
    pub composite_spot: Seq<(u64, DirectionalVolume)>,
    pub spot_data: Seq<(u64, CumulativeDeltaPoint)>,
}

pub struct CumulativeDeltaIndicator {
    config: CvdConfig,
    availability: CvdAvailability,
    ticks: bool,
    delta: Vec<(u64, DirectionalVolume)>,
    data: Vec<(u64, CumulativeDeltaPoint)>,
    composite_delta: Vec<(u64, DirectionalVolume)>,
    composite_spot_delta: Vec<(u64, DirectionalVolume)>,
    spot_data: Vec<(u64, CumulativeDeltaPoint)>,
}

impl View for CumulativeDeltaIndicator {
    type V = IndicatorModel;

    closed spec fn view(&self) -> IndicatorModel {
        IndicatorModel {
            config: self.config,
            availability: self.availability,
            ticks: self.ticks,
            delta: self.delta@,
            data: self.data@,
            composite: self.composite_delta@,
            composite_spot: self.composite_spot_delta@,
            spot_data: self.spot_data@,
        }
    }
}

/// The deltas of candles of a fixed duration. Only the last candle may lack trades.
pub open spec fn time_deltas(candles: Seq<(u64, CandleFlow)>) -> Seq<(u64, DirectionalVolume)> {
    Seq::new(
        candles.len(),
        |i: int| (candles[i].0, candles[i].1.directional(candles.last().0 == candles[i].0)),
    )
}

pub open spec fn tick_deltas(volumes: Seq<Volume>) -> Seq<(u64, DirectionalVolume)> {
    Seq::new(volumes.len(), |i: int| (i as u64, aggregated(volumes[i])))
}

pub open spec fn any_reliable(deltas: Seq<(u64, DirectionalVolume)>) -> bool {
    exists|i: int| 0 <= i < deltas.len() && (#[trigger] deltas[i]).1.reliable
}

pub open spec fn availability_of(has_points: bool, has_directional: bool) -> CvdAvailability {
    if !has_points {
        CvdAvailability::Unknown
    } else if has_directional {
        CvdAvailability::Available
    } else {
        CvdAvailability::NoTradeData
    }
}

impl IndicatorModel {
    pub open spec fn daily(self) -> bool {
        self.config.reset == CvdReset::DailyUtc
    }

    /// The deltas added up. Candles of ticks have no days.
    pub open spec fn with_delta(self, ticks: bool, delta: Seq<(u64, DirectionalVolume)>)
        -> IndicatorModel {
        IndicatorModel { ticks, delta, data: accumulated(delta, !ticks && self.daily()), ..self }
    }

    pub open spec fn with_spot(self) -> IndicatorModel {
        if self.config.source_mode == CvdSourceMode::CompositeSpotAndPerpetual {
            IndicatorModel { spot_data: accumulated(self.composite_spot, self.daily()), ..self }
        } else {
            self
        }
    }

    /// Everything calculated anew from the trades of other markets.
    pub open spec fn composed(self) -> IndicatorModel {
        self.with_delta(false, self.composite).with_spot()
    }

    /// Everything calculated anew.
    pub open spec fn rebuilt(self, source: CandleSource) -> IndicatorModel {
        if self.config.source_mode != CvdSourceMode::Chart {
            let known = self.composite.len() > 0 || self.composite_spot.len() > 0;
            IndicatorModel { availability: availability_of(known, known), ..self }.composed()
        } else {
            match source {
                CandleSource::Time(candles) => {
                    let delta = time_deltas(candles@);
                    IndicatorModel {
                        availability: availability_of(delta.len() > 0, any_reliable(delta)),
                        ..self
                    }.with_delta(false, delta)
                },
                CandleSource::Tick(volumes) => {
                    let delta = tick_deltas(volumes@);
                    IndicatorModel {
                        availability: availability_of(delta.len() > 0, any_reliable(delta)),
                        ..self
                    }.with_delta(true, delta)
                },
            }
        }
    }

    /// Whether trades of a market count.
    pub open spec fn accepts(self, is_spot: bool) -> bool {
        match self.config.source_mode {
            CvdSourceMode::MatchingSpot => is_spot,
            CvdSourceMode::CompositeSpot => is_spot,
            CvdSourceMode::CompositePerpetual => !is_spot,
            CvdSourceMode::CompositeSpotAndPerpetual => true,
            CvdSourceMode::Chart => false,
            CvdSourceMode::Custom => false,
        }
    }

    /// A trade of another market added to its candle.
    pub open spec fn with_trade(self, is_spot: bool, trade: ExternalTrade, timeframe: Timeframe)
        -> IndicatorModel {
        if trade.amount is None || !self.accepts(is_spot) {
            self
        } else {
            let bucket = trades::bucket_start(trade.time.ms, timeframe);
            if is_spot && self.config.source_mode == CvdSourceMode::CompositeSpotAndPerpetual {
                IndicatorModel {
                    composite_spot: added(
                        self.composite_spot,
                        bucket,
                        trade.is_sell,
                        trade.amount->0,
                    ),
                    ..self
                }
            } else {
                IndicatorModel {
                    composite: added(self.composite, bucket, trade.is_sell, trade.amount->0),
                    ..self
                }
            }
        }
    }

    pub open spec fn with_trades(self, is_spot: bool, trades: Seq<ExternalTrade>, timeframe: Timeframe)
        -> IndicatorModel
        decreases trades.len(),
    {
        if trades.len() == 0 {
            self
        } else {
            self.with_trades(is_spot, trades.drop_last(), timeframe).with_trade(
                is_spot,
                trades.last(),
                timeframe,
            )
        }
    }

    /// Trades of another market.
    pub open spec fn with_external(
        self,
        is_spot: bool,
        trades: Seq<ExternalTrade>,
        timeframe: Option<Timeframe>,
    ) -> IndicatorModel {
        if self.config.source_mode == CvdSourceMode::Chart || trades.len() == 0 {
            self
        } else {
            match timeframe {
                Some(timeframe) => IndicatorModel {
                    availability: CvdAvailability::Available,
                    ..self.with_trades(is_spot, trades, timeframe)
                }.composed(),
                None => IndicatorModel { availability: CvdAvailability::NotOnTicks, ..self },
            }
        }
    }

    pub open spec fn emptied(self) -> IndicatorModel {
        IndicatorModel {
            availability: CvdAvailability::Unknown,
            ticks: false,
            delta: Seq::empty(),
            data: Seq::empty(),
            composite: Seq::empty(),
            composite_spot: Seq::empty(),
            spot_data: Seq::empty(),
            ..self
        }
    }

    /// Another configuration: another source starts from nothing, another reset adds up
    /// anew.
    pub open spec fn with_config(self, config: CvdConfig) -> IndicatorModel {
        let configured = IndicatorModel { config, ..self };
        if self.config.source_mode != config.source_mode || self.config.aggregation_unit
            != config.aggregation_unit || self.config.venue_mask != config.venue_mask {
            configured.emptied()
        } else if self.config.reset != config.reset {
            configured.with_delta(self.ticks, self.delta).with_spot()
        } else {
            configured
        }
    }
}

/// The number of candles before a bucket.
pub open spec fn place_in(series: Seq<(u64, DirectionalVolume)>, bucket: u64) -> int
    decreases series.len(),
{
    if series.len() == 0 || series[0].0 >= bucket {
        0
    } else {
        1 + place_in(series.skip(1), bucket)
    }
}

/// An amount on one side.
pub open spec fn credited(volume: DirectionalVolume, is_sell: bool, amount: Qty)
    -> DirectionalVolume {
    if is_sell {
        DirectionalVolume { sell: volume.sell.plus(amount), reliable: true, ..volume }
    } else {
        DirectionalVolume { buy: volume.buy.plus(amount), reliable: true, ..volume }
    }
}

/// An amount added to its candle, which is made where there is none.
pub open spec fn added(
    series: Seq<(u64, DirectionalVolume)>,
    bucket: u64,
    is_sell: bool,
    amount: Qty,
) -> Seq<(u64, DirectionalVolume)> {
    let at = place_in(series, bucket);
    if at < series.len() && series[at].0 == bucket {
        series.update(at, (bucket, credited(series[at].1, is_sell, amount)))
    } else {
        series.insert(at, (bucket, credited(unknown_volume(), is_sell, amount)))
    }
}

fn credit(volume: DirectionalVolume, is_sell: bool, amount: Qty) -> (r: DirectionalVolume)
    ensures
        r == credited(volume, is_sell, amount),
{
    let mut r: DirectionalVolume = volume;
    if is_sell {
        r.sell = volume.sell.saturating_add(amount);
    } else {
        r.buy = volume.buy.saturating_add(amount);
    }
    r.reliable = true;
    r
}

fn insert_amount(
    series: &mut Vec<(u64, DirectionalVolume)>,
    bucket: u64,
    is_sell: bool,
    amount: Qty,
)
    ensures
        final(series)@ == added(old(series)@, bucket, is_sell, amount),
{
    let mut at: usize = 0;
    let ghost all = series@;
    assert(all.skip(0) =~= all);
    while at < series.len() && series[at].0 < bucket
        invariant
            series@ == all,
            at <= all.len(),
            place_in(all, bucket) == at + place_in(all.skip(at as int), bucket),
        decreases all.len() - at,
    {
        assert(all.skip(at as int).skip(1) =~= all.skip(at + 1));
        at = at + 1;
    }
    if at < series.len() && series[at].0 == bucket {
        let volume: DirectionalVolume = credit(series[at].1, is_sell, amount);
        series.set(at, (bucket, volume));
    } else {
        series.insert(at, (bucket, credit(no_volume(), is_sell, amount)));
    }
}

fn copy_deltas(series: &Vec<(u64, DirectionalVolume)>) -> (r: Vec<(u64, DirectionalVolume)>)
    ensures
        r@ == series@,
{
    let mut r: Vec<(u64, DirectionalVolume)> = Vec::new();
    let mut i: usize = 0;
    while i < series.len()
        invariant
            i <= series@.len(),
            r@ == series@.take(i as int),
        decreases series@.len() - i,
    {
        r.push(series[i]);
        assert(r@ =~= series@.take(i + 1));
        i = i + 1;
    }
    assert(r@ =~= series@);
    r
}

fn some_reliable(deltas: &Vec<(u64, DirectionalVolume)>) -> (r: bool)
    ensures
        r == any_reliable(deltas@),
{
    let mut i: usize = 0;
    while i < deltas.len()
        invariant
            i <= deltas@.len(),
            forall|k: int| 0 <= k < i ==> !(#[trigger] deltas@[k]).1.reliable,
        decreases deltas@.len() - i,
    {
        if deltas[i].1.reliable {
            assert(deltas@[i as int].1.reliable);
            return true;
        }
        i = i + 1;
    }
    false
}

fn deltas_of_candles(candles: &Vec<(u64, CandleFlow)>) -> (r: Vec<(u64, DirectionalVolume)>)
    ensures
        r@ == time_deltas(candles@),
{
    let mut r: Vec<(u64, DirectionalVolume)> = Vec::new();
    let count: usize = candles.len();
    let mut i: usize = 0;
    while i < count
        invariant
            i <= count == candles@.len(),
            r@ == time_deltas(candles@).take(i as int),
        decreases count - i,
    {
        let latest: bool = candles[count - 1].0 == candles[i].0;
        r.push((candles[i].0, directional_volume(&candles[i].1, latest)));
        assert(r@ =~= time_deltas(candles@).take(i + 1));
        i = i + 1;
    }
    assert(r@ =~= time_deltas(candles@));
    r
}

fn deltas_of_ticks(volumes: &Vec<Volume>) -> (r: Vec<(u64, DirectionalVolume)>)
    ensures
        r@ == tick_deltas(volumes@),
{
    let mut r: Vec<(u64, DirectionalVolume)> = Vec::new();
    let mut i: usize = 0;
    while i < volumes.len()
        invariant
            i <= volumes@.len(),
            r@ == tick_deltas(volumes@).take(i as int),
        decreases volumes@.len() - i,
    {
        r.push((i as u64, aggregate_directional_volume(volumes[i])));
        assert(r@ =~= tick_deltas(volumes@).take(i + 1));
        i = i + 1;
    }
    assert(r@ =~= tick_deltas(volumes@));
    r
}

impl CumulativeDeltaIndicator {
    /// An indicator without data.
    pub fn new(config: CvdConfig) -> (r: CumulativeDeltaIndicator)
        ensures
            r@.config == config,
            r@ == r@.emptied(),
    {
        CumulativeDeltaIndicator {
            config,
            availability: CvdAvailability::Unknown,
            ticks: false,
            delta: Vec::new(),
            data: Vec::new(),
            composite_delta: Vec::new(),
            composite_spot_delta: Vec::new(),
            spot_data: Vec::new(),
        }
    }

    pub fn availability(&self) -> (r: CvdAvailability)
        ensures
            r == self@.availability,
    {
        self.availability
    }

    pub fn data(&self) -> (r: &Vec<(u64, CumulativeDeltaPoint)>)
        ensures
            r@ == self@.data,
    {
        &self.data
    }

    pub fn spot_data(&self) -> (r: &Vec<(u64, CumulativeDeltaPoint)>)
        ensures
            r@ == self@.spot_data,
    {
        &self.spot_data
    }

    fn set_availability(&mut self, has_points: bool, has_directional: bool)
        ensures
            final(self)@ == (IndicatorModel {
                availability: availability_of(has_points, has_directional),
                ..old(self)@
            }),
    {
        self.availability =
        if !has_points {
            CvdAvailability::Unknown
        } else if has_directional {
            CvdAvailability::Available
        } else {
            CvdAvailability::NoTradeData
        };
    }

    /// Adds the deltas up.
    fn rebuild_cumulative(&mut self)
        ensures
            final(self)@ == old(self)@.with_delta(old(self)@.ticks, old(self)@.delta),
    {
        let daily: bool = !self.ticks && self.config.reset == CvdReset::DailyUtc;
        self.data = accumulate(&self.delta, daily);
    }

    fn rebuild_spot_cumulative(&mut self)
        ensures
            final(self)@ == old(self)@.with_spot(),
    {
        if self.config.source_mode == CvdSourceMode::CompositeSpotAndPerpetual {
            let daily: bool = self.config.reset == CvdReset::DailyUtc;
            self.spot_data = accumulate(&self.composite_spot_delta, daily);
        }
    }

    fn rebuild_from_deltas(&mut self, ticks: bool, deltas: Vec<(u64, DirectionalVolume)>)
        ensures
            final(self)@ == old(self)@.with_delta(ticks, deltas@),
    {
        self.ticks = ticks;
        self.delta = deltas;
        self.rebuild_cumulative();
    }

    fn compose(&mut self)
        ensures
            final(self)@ == old(self)@.composed(),
    {
        let deltas: Vec<(u64, DirectionalVolume)> = copy_deltas(&self.composite_delta);
        self.rebuild_from_deltas(false, deltas);
        self.rebuild_spot_cumulative();
    }

    /// Calculates everything anew from the candles, or from the trades of other markets
    /// where these are the source.
    pub fn rebuild_from_source(&mut self, source: &CandleSource)
        ensures
            final(self)@ == old(self)@.rebuilt(*source),
    {
        if self.config.source_mode != CvdSourceMode::Chart {
            let known: bool = self.composite_delta.len() > 0 || self.composite_spot_delta.len() > 0;
            self.set_availability(known, known);
            self.compose();
            return ;
        }
        match source {
            CandleSource::Time(candles) => {
                let deltas: Vec<(u64, DirectionalVolume)> = deltas_of_candles(candles);
                self.set_availability(deltas.len() > 0, some_reliable(&deltas));
                self.rebuild_from_deltas(false, deltas);
            },
            CandleSource::Tick(volumes) => {
                let deltas: Vec<(u64, DirectionalVolume)> = deltas_of_ticks(volumes);
                self.set_availability(deltas.len() > 0, some_reliable(&deltas));
                self.rebuild_from_deltas(true, deltas);
            },
        }
    }

    /// New candles: everything is calculated anew, unless there are none.
    pub fn on_insert_klines(&mut self, inserted: usize, source: &CandleSource)
        ensures
            final(self)@ == if inserted > 0 {
                old(self)@.rebuilt(*source)
            } else {
                old(self)@
            },
    {
        if inserted > 0 {
            self.rebuild_from_source(source);
        }
    }

    /// New trades of the chart, which matter where the chart is the source.
    pub fn on_insert_trades(&mut self, inserted: usize, source: &CandleSource)
        ensures
            final(self)@ == if inserted > 0 && old(self)@.config.source_mode
                == CvdSourceMode::Chart {
                old(self)@.rebuilt(*source)
            } else {
                old(self)@
            },
    {
        if self.config.source_mode == CvdSourceMode::Chart && inserted > 0 {
            self.rebuild_from_source(source);
        }
    }

    fn accepts_market(&self, is_spot: bool) -> (r: bool)
        ensures
            r == self@.accepts(is_spot),
    {
        match self.config.source_mode {
            CvdSourceMode::MatchingSpot => is_spot,
            CvdSourceMode::CompositeSpot => is_spot,
            CvdSourceMode::CompositePerpetual => !is_spot,
            CvdSourceMode::CompositeSpotAndPerpetual => true,
            CvdSourceMode::Chart => false,
            CvdSourceMode::Custom => false,
        }
    }

    fn insert_external(&mut self, is_spot: bool, trade: ExternalTrade, timeframe: Timeframe)
        ensures
            final(self)@ == old(self)@.with_trade(is_spot, trade, timeframe),
    {
        let amount: Qty = match trade.amount {
            Some(amount) => amount,
            None => {
                return ;
            },
        };
        if !self.accepts_market(is_spot) {
            return ;
        }
        let bucket: u64 = floor_to(trade.time, timeframe);
        if is_spot && self.config.source_mode == CvdSourceMode::CompositeSpotAndPerpetual {
            insert_amount(&mut self.composite_spot_delta, bucket, trade.is_sell, amount);
        } else {
            insert_amount(&mut self.composite_delta, bucket, trade.is_sell, amount);
        }
    }

    /// Trades of another market. `timeframe` is the duration of the chart's candles, none
    /// on a chart of ticks.
    pub fn on_insert_external_trades(
        &mut self,
        is_spot: bool,
        trades: &Vec<ExternalTrade>,
        timeframe: Option<Timeframe>,
    )
        ensures
            final(self)@ == old(self)@.with_external(is_spot, trades@, timeframe),
    {
        if self.config.source_mode == CvdSourceMode::Chart || trades.len() == 0 {
            return ;
        }
        let timeframe: Timeframe = match timeframe {
            Some(timeframe) => timeframe,
            None => {
                self.availability = CvdAvailability::NotOnTicks;
                return ;
            },
        };
        let ghost before = self@;
        let mut i: usize = 0;
        assert(trades@.take(0) =~= Seq::<ExternalTrade>::empty());
        while i < trades.len()
            invariant
                i <= trades@.len(),
                self@ == before.with_trades(is_spot, trades@.take(i as int), timeframe),
            decreases trades@.len() - i,
        {
            assert(trades@.take(i + 1).drop_last() =~= trades@.take(i as int));
            assert(trades@.take(i + 1).last() == trades@[i as int]);
            self.insert_external(is_spot, trades[i], timeframe);
            i = i + 1;
        }
        assert(trades@.take(trades@.len() as int) =~= trades@);
        self.set_availability(true, true);
        self.compose();
    }

    /// Another configuration; tells whether anything is drawn anew.
    pub fn on_config_changed(&mut self, config: CvdConfig) -> (redraw: bool)
        ensures
            redraw == (old(self)@.config != config),
            final(self)@ == old(self)@.with_config(config),
    {
        let ghost before = self@;
        if self.config == config {
            assert(self@ =~= before.with_config(config));
            return false;
        }
        let reset_changed: bool = self.config.reset != config.reset;
        let source_changed: bool = self.config.source_mode != config.source_mode
            || self.config.aggregation_unit != config.aggregation_unit || self.config.venue_mask
            != config.venue_mask;
        self.config = config;
        if source_changed {
            self.composite_delta = Vec::new();
            self.composite_spot_delta = Vec::new();
            self.ticks = false;
            self.delta = Vec::new();
            self.data = Vec::new();
            self.spot_data = Vec::new();
            self.availability = CvdAvailability::Unknown;
            assert(self@ =~= before.with_config(config));
        } else if reset_changed {
            self.rebuild_cumulative();
            self.rebuild_spot_cumulative();
        }
        true
    }
}

/// Every candle opens where the one before closed, the first one and with a daily reset
/// the first one of a day at zero.
pub proof fn candles_continue_each_other(
    deltas: Seq<(u64, DirectionalVolume)>,
    daily: bool,
    i: int,
)
    requires
        0 <= i < deltas.len(),
    ensures
        accumulated(deltas, daily).len() == deltas.len(),
        accumulated(deltas, daily)[i].0 == deltas[i].0,
        accumulated(deltas, daily)[i].1.open == if i == 0 || (daily && deltas[i - 1].0 / DAY_MS
            != deltas[i].0 / DAY_MS) {
            zero()
        } else {
            accumulated(deltas, daily)[i - 1].1.close
        },
    decreases deltas.len(),
{
    let front = deltas.drop_last();
    let before = accumulated(front, daily);
    if front.len() > 0 {
        candles_continue_each_other(front, daily, front.len() - 1);
        if i < front.len() {
            candles_continue_each_other(front, daily, i);
        }
    }
}

/// A candle reaches from its low to its high around its open and close; without a known
/// path it has no wicks.
pub proof fn candle_holds_open_and_close(open: Qty, volume: DirectionalVolume)
    ensures
        ({
            let point = point_from(open, volume);
            &&& point.low.units <= point.open.units <= point.high.units
            &&& point.low.units <= point.close.units <= point.high.units
            &&& volume.path is None ==> {
                ||| (point.high == point.open && point.low == point.close)
                ||| (point.high == point.close && point.low == point.open)
            }
        }),
{
}

/// What happened on one day does not change the candles of the next, with a daily reset.
pub proof fn days_are_independent(
    earlier: Seq<(u64, DirectionalVolume)>,
    other: Seq<(u64, DirectionalVolume)>,
    day: Seq<(u64, DirectionalVolume)>,
    i: int,
)
    requires
        0 <= i < day.len(),
        earlier.len() > 0 ==> earlier.last().0 / DAY_MS != day[0].0 / DAY_MS,
        other.len() > 0 ==> other.last().0 / DAY_MS != day[0].0 / DAY_MS,
    ensures
        accumulated(earlier + day, true)[earlier.len() + i] == accumulated(other + day, true)[
            other.len() + i],
    decreases i,
{
    let a = earlier + day;
    let b = other + day;
    candles_continue_each_other(a, true, earlier.len() + i);
    candles_continue_each_other(b, true, other.len() + i);
    lemma_point_at(a, earlier.len() + i);
    lemma_point_at(b, other.len() + i);
    if i > 0 {
        days_are_independent(earlier, other, day, i - 1);
    }
}

proof fn lemma_point_at(deltas: Seq<(u64, DirectionalVolume)>, i: int)
    requires
        0 <= i < deltas.len(),
    ensures
        accumulated(deltas, true).len() == deltas.len(),
        accumulated(deltas, true)[i].1 == point_from(
            accumulated(deltas, true)[i].1.open,
            deltas[i].1,
        ),
    decreases deltas.len(),
{
    let front = deltas.drop_last();
    let before = accumulated(front, true);
    assert(accumulated(deltas, true) == before.push(
        (deltas.last().0, point_from(opens_at(deltas, before, true), deltas.last().1)),
    ));
    assert(front.len() == 0 ==> before.len() == 0);
    if front.len() > 0 {
        lemma_point_at(front, front.len() - 1);
        if i < front.len() {
            lemma_point_at(front, i);
        }
    }
}

} // verus!
