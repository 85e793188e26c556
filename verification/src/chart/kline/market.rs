//! The market data that a candle chart holds, and what it still has to fetch.
//!
//! The chart decides which data is missing and what incoming data changes. The candles
//! themselves are kept by the series that is drawn; what the decisions need of it is handed
//! in.
use vstd::prelude::*;
use rustc_hash::FxHashSet;
use crate::chart::indicator::kline::open_interest::{Exchange, FetchContext, OpenInterestRange};
use crate::chart::indicator::kline::cumulative_delta::TradeCoverage;
use crate::chart::kline::candles;
use crate::chart::kline::candles::{empty_candles, CandleData};
use crate::chart::kline::ranges;
use crate::chart::kline::ranges::{
    is_range_covered, mark_range_covered, select_trade_fetch_gap, subtract_covered_ranges,
    subtract_covered_ranges_latest,
};
use crate::chart::kline::sessions;
use crate::chart::kline::sessions::{
    align_session_start, historical_trade_target_to, volume_bubble_effective_range,
    vwap_required_from, VolumeBubbleSession,
};
use crate::chart::kline::trades;
use crate::chart::kline::trades::{
    append_retained, deduplicate_incoming_trades, exclude_historical_overlap_with_live,
    extend_live_buckets,
};
use crate::connector::intervals;
use crate::connector::records::Trade;
use crate::fx;
use crate::units;
use crate::units::{
    larger, saturating_add_u64, saturating_sub_u64, smaller, PriceStep, Timeframe, UnixMs,
};

verus! {

/// What one step of the horizontal axis stands for: a span of time, or a number of trades.
#[derive(Clone, Copy, Debug, PartialEq, Eq, Structural)]
pub enum Basis {
    Time(Timeframe),
    Tick(u16),
}

#[derive(Clone, Copy, Debug, PartialEq, Eq, Structural)]
pub enum ChartKind {
    Candles,
    Footprint,
}

/// A request for data.
#[derive(Clone, Copy, Debug, PartialEq, Eq, Structural)]
pub enum FetchRange {
    Kline(UnixMs, UnixMs),
    OpenInterest { from: UnixMs, to: UnixMs, timeframe: Timeframe },
    Trades(UnixMs, UnixMs),
    BubbleSummary {
        from: UnixMs,
        to: UnixMs,
        timeframe_ms: u64,
        price_step: PriceStep,
        max_candidates_per_candle: usize,
        cluster_window_ms: u32,
        cluster_price_ticks: u32,
    },
}

/// What a worker that fetched trades leaves open: the tail that it did not reach, and the
/// tail that it found empty.
#[derive(Clone, Copy, Debug)]
pub struct TradeFetchOutcome {
    pub unfilled_tail: Option<(UnixMs, UnixMs)>,
    pub empty_tail: Option<(UnixMs, UnixMs)>,
}

/// What a finished fetch of trades leaves to be noted: the range whose candles now have all
/// their trades, and a range that is not to be asked for again at once.
#[derive(Clone, Copy, Debug)]
pub struct TradeCompletion {
    pub verified: Option<(UnixMs, UnixMs)>,
    pub empty: Option<(UnixMs, UnixMs)>,
}

/// The settings of the bubbles that decide what is fetched.
#[derive(Clone, Copy, Debug, PartialEq, Eq, Structural)]
pub struct VolumeBubbleConfig {
    pub enabled: bool,
    pub session: VolumeBubbleSession,
    pub history_window_minutes: u64,
    pub max_candidates_per_candle: usize,
    pub max_bubbles_per_bar: usize,
    pub use_raw_trades_when_available: bool,
    pub cluster_window_ms: u32,
    pub cluster_price_ticks: u32,
}

impl VolumeBubbleConfig {
    /// The number of candidates that a summary keeps per candle.
    pub open spec fn candidates(self) -> usize {
        if self.max_candidates_per_candle >= self.max_bubbles_per_bar {
            self.max_candidates_per_candle
        } else {
            self.max_bubbles_per_bar
        }
    }

    pub fn candidate_limit(&self) -> (r: usize)
        ensures
            r == self.candidates(),
    {
        if self.max_candidates_per_candle >= self.max_bubbles_per_bar {
            self.max_candidates_per_candle
        } else {
            self.max_bubbles_per_bar
        }
    }
}

/// The settings that decide what is fetched.
#[derive(Clone, Copy, Debug, PartialEq, Eq, Structural)]
pub struct Config {
    pub volume_bubbles: VolumeBubbleConfig,
    pub session_volume_profile_interval_ms: u64,
    pub vwap_anchor_ms: u64,
}

impl Config {
    pub open spec fn wf(self) -> bool {
        self.session_volume_profile_interval_ms > 0 && self.vwap_anchor_ms > 0
    }
}

/// The overlays that are switched on.
#[derive(Clone, Copy, Debug, PartialEq, Eq, Structural)]
pub struct Overlays {
    pub volume_bubbles: bool,
    pub vwap: bool,
    pub session_volume_profile: bool,
}

/// What the decisions need of the series and of the view.
#[derive(Debug)]
pub struct FetchView {
    pub now: UnixMs,
    /// The series holds no candle.
    pub empty: bool,
    pub kline_earliest: UnixMs,
    pub kline_latest: UnixMs,
    /// The visible range, where the chart has a size.
    pub visible: Option<(u64, u64)>,
    /// Whether trades may be fetched at all.
    pub trade_fetch_enabled: bool,
    /// Whether a request for trades waits for its answer.
    pub trade_request_pending: bool,
    /// The visible range of candles without complete trades, as the series suggests it.
    pub suggested_trades: Option<(UnixMs, UnixMs)>,
    /// What the indicators ask for, in their order.
    pub indicator_ranges: Vec<FetchRange>,
    /// The candles that are missing in the checked range, if any.
    pub missing_klines: Option<Vec<UnixMs>>,
}

/// One thing to do for missing data.
#[derive(Clone, Copy, Debug, PartialEq, Eq, Structural)]
pub enum FetchStep {
    /// Make the request. Where it is refused, the next step is tried.
    Request(FetchRange),
    /// Compute the bubble summaries of the range from the trades that are held, and stop.
    SummarizeRawTrades(UnixMs, UnixMs),
}

/// What a change of settings asks for.
#[derive(Clone, Copy, Debug, PartialEq, Eq, Structural)]
pub struct ConfigChange {
    /// The summaries of all candles are to be dropped.
    pub drop_summaries: bool,
    /// Missing data is to be looked for at once.
    pub wake: bool,
}

/// The candles fetched first for an empty chart.
pub const INITIAL_CANDLES: u64 = 450;

/// The longest range of trades that one worker fetches for an overlay.
pub const TRADE_CHUNK_MS: u64 = 3_600_000;

/// The longest range that one worker summarizes.
pub const BUBBLE_FETCH_CHUNK_MS: u64 = 900_000;

pub struct KlineChart {
    basis: Basis,
    tick_size: PriceStep,
    kind: ChartKind,
    /// The live feed numbers its trades differently from the historical data.
    separate_live_feed: bool,
    raw_trades: Vec<Trade>,
    live_trade_buckets: FxHashSet<u64>,
    covered_trade_ranges: Vec<(u64, u64)>,
    covered_bubble_summary_ranges: Vec<(u64, u64)>,
    fetching_trades: bool,
    overlays: Overlays,
    visual_config: Config,
}

/// The contents of a chart.
#[verifier::ext_equal]
pub struct ChartModel {
    pub basis: Basis,
    pub tick_size: PriceStep,
    pub kind: ChartKind,
    pub separate_live_feed: bool,
    pub raw_trades: Seq<Trade>,
    pub live_trade_buckets: Set<u64>,
    pub covered_trades: Seq<(u64, u64)>,
    pub covered_summaries: Seq<(u64, u64)>,
    pub fetching_trades: bool,
    pub overlays: Overlays,
    pub config: Config,
}

impl ChartModel {
    /// Whether the trades from `from` up to `to`, or up to the last closed candle, are
    /// covered.
    pub open spec fn profile_ready(self, from: u64, to: u64, latest: u64, now: u64) -> bool {
        match self.basis {
            Basis::Time(timeframe) => {
                let required = units::min_u64(
                    to,
                    sessions::historical_target(latest, timeframe.ms(), now),
                );
                required <= from || ranges::inside_one(self.covered_trades, from, required)
            },
            Basis::Tick(_) => false,
        }
    }
}

impl View for KlineChart {
    type V = ChartModel;

    closed spec fn view(&self) -> ChartModel {
        ChartModel {
            basis: self.basis,
            tick_size: self.tick_size,
            kind: self.kind,
            separate_live_feed: self.separate_live_feed,
            raw_trades: self.raw_trades@,
            live_trade_buckets: self.live_trade_buckets@,
            covered_trades: self.covered_trade_ranges@,
            covered_summaries: self.covered_bubble_summary_ranges@,
            fetching_trades: self.fetching_trades,
            overlays: self.overlays,
            config: self.visual_config,
        }
    }
}

impl ChartModel {
    /// No more trades are held than are retained, covered ranges are ascending and neither
    /// overlap nor touch, and sessions have a length.
    pub open spec fn wf(self) -> bool {
        &&& self.raw_trades.len() <= trades::MAX_RAW_TRADES
        &&& intervals::disjoint_ascending(self.covered_trades)
        &&& intervals::disjoint_ascending(self.covered_summaries)
        &&& self.config.wf()
    }
}

/// The covered ranges after one more has been added.
pub open spec fn covered_after(
    before: Seq<(u64, u64)>,
    from: u64,
    to: u64,
    after: Seq<(u64, u64)>,
) -> bool {
    &&& intervals::disjoint_ascending(after)
    &&& forall|t: int| #[trigger]
        intervals::covers(after, t) == (intervals::covers(before, t) || from <= t < to)
}

/// The end of the part of a fetch that was verified: before the tail that was not reached.
pub open spec fn verified_end(to: UnixMs, unfilled_tail: Option<(UnixMs, UnixMs)>) -> u64 {
    match unfilled_tail {
        Some((tail_from, _)) => units::min_u64(units::sat_sub(tail_from.ms, 1), to.ms),
        None => to.ms,
    }
}

/// The first moment that is fetched ahead of the visible range: one more screen.
pub open spec fn prefetch_start(visible: (u64, u64)) -> u64 {
    units::sat_sub(visible.0, units::sat_sub(visible.1, visible.0))
}

/// The oldest of the moments, or the other moment where there is none.
pub open spec fn oldest(moments: Seq<UnixMs>, otherwise: u64) -> u64
    decreases moments.len(),
{
    if moments.len() == 0 {
        otherwise
    } else if moments.len() == 1 {
        moments[0].ms
    } else {
        units::min_u64(oldest(moments.drop_last(), otherwise), moments.last().ms)
    }
}

/// The newest of the moments, or the other moment where there is none.
pub open spec fn newest(moments: Seq<UnixMs>, otherwise: u64) -> u64
    decreases moments.len(),
{
    if moments.len() == 0 {
        otherwise
    } else if moments.len() == 1 {
        moments[0].ms
    } else {
        units::max_u64(newest(moments.drop_last(), otherwise), moments.last().ms)
    }
}

/// The oldest and the newest of the moments, or the ends of the visible range.
fn extremes(moments: &Vec<UnixMs>, visible: (u64, u64)) -> (r: (UnixMs, UnixMs))
    ensures
        r.0.ms == oldest(moments@, visible.0),
        r.1.ms == newest(moments@, visible.1),
{
    if moments.len() == 0 {
        return (UnixMs::new(visible.0), UnixMs::new(visible.1));
    }
    let mut low: u64 = moments[0].ms;
    let mut high: u64 = moments[0].ms;
    let mut i: usize = 1;
    while i < moments.len()
        invariant
            1 <= i <= moments@.len(),
            low == oldest(moments@.take(i as int), visible.0),
            high == newest(moments@.take(i as int), visible.1),
        decreases moments@.len() - i,
    {
        assert(moments@.take(i + 1).drop_last() =~= moments@.take(i as int));
        low = smaller(low, moments[i].ms);
        high = larger(high, moments[i].ms);
        i = i + 1;
    }
    assert(moments@.take(moments@.len() as int) =~= moments@);
    (UnixMs::new(low), UnixMs::new(high))
}

/// The range in which candles must not be missing: what is visible and what is fetched
/// ahead of it, from the first candle on.
pub fn integrity_range(kline_earliest: UnixMs, visible: (u64, u64), timeframe: Timeframe) -> (r: (
    UnixMs,
    UnixMs,
))
    ensures
        r.0.ms == units::max_u64(prefetch_start(visible), kline_earliest.ms),
        r.1.ms == units::sat_add(visible.1, timeframe.ms()),
{
    (
        UnixMs::new(larger(prefetch_from(visible), kline_earliest.ms)),
        UnixMs::new(visible.1).saturating_add(timeframe.to_milliseconds()),
    )
}

/// What an indicator is told when it is asked which data it lacks.
pub fn indicator_context(
    timeframe: Timeframe,
    exchange: Exchange,
    kline_latest: UnixMs,
    visible: (u64, u64),
) -> (r: FetchContext)
    ensures
        r == (FetchContext {
            timeframe,
            exchange,
            visible_earliest: UnixMs { ms: visible.0 },
            prefetch_earliest: UnixMs { ms: prefetch_start(visible) },
            kline_latest,
        }),
{
    FetchContext {
        timeframe,
        exchange,
        visible_earliest: UnixMs::new(visible.0),
        prefetch_earliest: UnixMs::new(prefetch_from(visible)),
        kline_latest,
    }
}

/// The request for what an indicator of open interest lacks.
pub fn open_interest_request(range: OpenInterestRange) -> (r: FetchRange)
    ensures
        r == (FetchRange::OpenInterest {
            from: range.from,
            to: range.to,
            timeframe: range.timeframe,
        }),
{
    FetchRange::OpenInterest { from: range.from, to: range.to, timeframe: range.timeframe }
}

fn prefetch_from(visible: (u64, u64)) -> (r: u64)
    ensures
        r == prefetch_start(visible),
{
    saturating_sub_u64(visible.0, saturating_sub_u64(visible.1, visible.0))
}

/// The list of one step, or the empty list.
pub open spec fn step_if(condition: bool, step: FetchStep) -> Seq<FetchStep> {
    if condition {
        seq![step]
    } else {
        seq![]
    }
}

/// The requests of a list of ranges, in order.
pub open spec fn requests(ranges: Seq<FetchRange>) -> Seq<FetchStep> {
    ranges.map_values(|range: FetchRange| FetchStep::Request(range))
}

impl ChartModel {
    /// The first candles of an empty chart.
    pub open spec fn initial_step(self, view: FetchView, timeframe: Timeframe) -> Seq<FetchStep> {
        step_if(
            view.empty,
            FetchStep::Request(
                FetchRange::Kline(
                    UnixMs {
                        ms: units::sat_sub(view.now.ms, (INITIAL_CANDLES * timeframe.ms()) as u64),
                    },
                    view.now,
                ),
            ),
        )
    }

    /// Candles before the first one, where they are visible.
    pub open spec fn visible_step(self, view: FetchView, visible: (u64, u64)) -> Seq<FetchStep> {
        step_if(
            visible.0 < view.kline_earliest.ms,
            FetchStep::Request(
                FetchRange::Kline(UnixMs { ms: prefetch_start(visible) }, view.kline_earliest),
            ),
        )
    }

    /// Where the data of the average has to begin, if it is shown.
    pub open spec fn vwap_from(self, view: FetchView, timeframe: Timeframe, visible: (u64, u64)) -> Option<
        u64,
    > {
        if self.overlays.vwap {
            Some(
                sessions::vwap_start(
                    sessions::window_end(view.kline_latest.ms, timeframe.ms(), view.now.ms),
                    visible.0,
                    self.config.vwap_anchor_ms,
                ),
            )
        } else {
            None
        }
    }

    /// The first candle that an overlay needs.
    pub open spec fn overlay_from(
        self,
        view: FetchView,
        timeframe: Timeframe,
        visible: (u64, u64),
        bubbles: Option<(UnixMs, UnixMs)>,
    ) -> Option<u64> {
        let candle = match bubbles {
            Some((from, _)) => Some((from.ms - from.ms % timeframe.ms()) as u64),
            None => None,
        };
        match (self.vwap_from(view, timeframe, visible), candle) {
            (Some(a), Some(b)) => Some(units::min_u64(a, b)),
            (Some(a), None) => Some(a),
            (None, b) => b,
        }
    }

    /// Candles before the first one, where an overlay needs them.
    pub open spec fn overlay_step(
        self,
        view: FetchView,
        timeframe: Timeframe,
        visible: (u64, u64),
        bubbles: Option<(UnixMs, UnixMs)>,
    ) -> Seq<FetchStep> {
        match self.overlay_from(view, timeframe, visible, bubbles) {
            Some(from) => step_if(
                from < view.kline_earliest.ms,
                FetchStep::Request(FetchRange::Kline(UnixMs { ms: from }, view.kline_earliest)),
            ),
            None => seq![],
        }
    }

    /// The trades of visible candles of a footprint.
    pub open spec fn footprint_step(self, view: FetchView, timeframe: Timeframe) -> Seq<FetchStep> {
        if self.kind == ChartKind::Footprint && !self.fetching_trades && view.trade_fetch_enabled
            && view.suggested_trades is Some {
            let from = (view.suggested_trades->0).0.ms;
            let to = units::min_u64(
                (view.suggested_trades->0).1.ms,
                sessions::historical_target(view.kline_latest.ms, timeframe.ms(), view.now.ms),
            );
            match ranges::oldest_gap(self.covered_trades, from, to) {
                Some(gap) => seq![
                    FetchStep::Request(
                        FetchRange::Trades(UnixMs { ms: gap.0 }, UnixMs { ms: gap.1 }),
                    ),
                ],
                None => seq![],
            }
        } else {
            seq![]
        }
    }

    /// The range of trades that the overlays of a candle chart need.
    pub open spec fn overlay_trades(self, view: FetchView, timeframe: Timeframe, visible: (u64, u64)) -> (
    u64,
    u64) {
        let target = sessions::historical_target(view.kline_latest.ms, timeframe.ms(), view.now.ms);
        let profile_from = if self.overlays.session_volume_profile {
            units::min_u64(
                visible.0,
                sessions::session_start(
                    visible.0,
                    self.config.session_volume_profile_interval_ms,
                ),
            )
        } else {
            visible.0
        };
        let from = match self.vwap_from(view, timeframe, visible) {
            Some(start) => units::min_u64(profile_from, start),
            None => profile_from,
        };
        let to = if self.overlays.vwap {
            target
        } else {
            units::min_u64(units::max_u64(visible.1, view.kline_latest.ms), target)
        };
        (units::max_u64(from, view.kline_earliest.ms), to)
    }

    /// At most an hour of the trades that the overlays of a candle chart need.
    pub open spec fn trades_step(self, view: FetchView, timeframe: Timeframe, visible: (u64, u64)) -> Seq<
        FetchStep,
    > {
        if self.kind == ChartKind::Candles && (self.overlays.session_volume_profile
            || self.overlays.vwap) && !self.fetching_trades {
            let (from, to) = self.overlay_trades(view, timeframe, visible);
            match ranges::selected_gap(self.covered_trades, from, to) {
                Some(gap) => seq![
                    FetchStep::Request(
                        FetchRange::Trades(
                            UnixMs {
                                ms: units::max_u64(gap.0, units::sat_sub(gap.1, TRADE_CHUNK_MS)),
                            },
                            UnixMs { ms: gap.1 },
                        ),
                    ),
                ],
                None => seq![],
            }
        } else {
            seq![]
        }
    }

    /// The newest quarter of an hour of bubbles that is missing, if any.
    pub open spec fn bubble_gap(
        self,
        view: FetchView,
        timeframe: Timeframe,
        bubbles: Option<(UnixMs, UnixMs)>,
    ) -> Option<(u64, u64)> {
        if self.kind == ChartKind::Candles && self.overlays.volume_bubbles
            && self.config.volume_bubbles.enabled && !self.fetching_trades && bubbles is Some {
            let target = sessions::historical_target(
                view.kline_latest.ms,
                timeframe.ms(),
                view.now.ms,
            );
            let from = (bubbles->0).0.ms;
            let to = units::min_u64((bubbles->0).1.ms, target);
            if from < target {
                match ranges::newest_gap(self.covered_summaries, from, to) {
                    Some(gap) => Some(
                        (
                            units::max_u64(gap.0, units::sat_sub(gap.1, BUBBLE_FETCH_CHUNK_MS)),
                            gap.1,
                        ),
                    ),
                    None => None,
                }
            } else {
                None
            }
        } else {
            None
        }
    }

    /// Whether missing bubbles can be computed from the trades that are held.
    pub open spec fn can_summarize(self, gap: (u64, u64)) -> bool {
        self.config.volume_bubbles.use_raw_trades_when_available && ranges::inside_one(
            self.covered_trades,
            gap.0,
            gap.1,
        )
    }

    pub open spec fn summary_request(self, timeframe: Timeframe, gap: (u64, u64)) -> FetchRange {
        FetchRange::BubbleSummary {
            from: UnixMs { ms: gap.0 },
            to: UnixMs { ms: gap.1 },
            timeframe_ms: timeframe.ms(),
            price_step: self.tick_size,
            max_candidates_per_candle: self.config.volume_bubbles.candidates(),
            cluster_window_ms: self.config.volume_bubbles.cluster_window_ms,
            cluster_price_ticks: self.config.volume_bubbles.cluster_price_ticks,
        }
    }

    /// Candles around those that are missing in between.
    pub open spec fn integrity_step(self, view: FetchView, timeframe: Timeframe, visible: (u64, u64)) -> Seq<
        FetchStep,
    > {
        match view.missing_klines {
            Some(missing) => seq![
                FetchStep::Request(
                    FetchRange::Kline(
                        UnixMs { ms: units::sat_sub(oldest(missing@, visible.0), timeframe.ms()) },
                        UnixMs { ms: units::sat_add(newest(missing@, visible.1), timeframe.ms()) },
                    ),
                ),
            ],
            None => seq![],
        }
    }

    /// What is tried first: candles, then trades.
    pub open spec fn early_steps(
        self,
        view: FetchView,
        timeframe: Timeframe,
        visible: (u64, u64),
        bubbles: Option<(UnixMs, UnixMs)>,
    ) -> Seq<FetchStep> {
        self.initial_step(view, timeframe) + self.visible_step(view, visible) + self.overlay_step(
            view,
            timeframe,
            visible,
            bubbles,
        ) + self.footprint_step(view, timeframe) + self.trades_step(view, timeframe, visible)
    }

    /// What is tried, in order of priority, once the window of bubbles is known: candles,
    /// trades, bubbles, indicators, and candles missing in between.
    pub open spec fn steps(self, view: FetchView, bubbles: Option<(UnixMs, UnixMs)>) -> Seq<FetchStep> {
        match self.basis {
            Basis::Tick(_) => seq![],
            Basis::Time(timeframe) => match view.visible {
                None => self.initial_step(view, timeframe),
                Some(visible) => {
                    let first = self.early_steps(view, timeframe, visible, bubbles);
                    let last = requests(view.indicator_ranges@) + self.integrity_step(
                        view,
                        timeframe,
                        visible,
                    );
                    match self.bubble_gap(view, timeframe, bubbles) {
                        Some(gap) => if self.can_summarize(gap) {
                            first + seq![
                                FetchStep::SummarizeRawTrades(
                                    UnixMs { ms: gap.0 },
                                    UnixMs { ms: gap.1 },
                                ),
                            ]
                        } else {
                            first + seq![FetchStep::Request(self.summary_request(timeframe, gap))]
                                + last
                        },
                        None => first + last,
                    }
                },
            },
        }
    }

    /// The window of bubbles that the chart shows, if it shows any.
    pub open spec fn bubble_window(self, view: FetchView) -> Option<(UnixMs, UnixMs)> {
        match self.basis {
            Basis::Time(timeframe) => if self.overlays.volume_bubbles
                && self.config.volume_bubbles.enabled {
                let window_to = sessions::window_end(
                    view.kline_latest.ms,
                    timeframe.ms(),
                    view.now.ms,
                );
                match sessions::bubble_session_start(
                    units::sat_sub(window_to, 1) as i64,
                    self.config.volume_bubbles.session,
                ) {
                    Some(start) => sessions::window_in_session(
                        window_to,
                        sessions::window_ms(self.config.volume_bubbles.history_window_minutes),
                        start,
                    ),
                    None => None,
                }
            } else {
                None
            },
            Basis::Tick(_) => None,
        }
    }

    /// Whether a change of settings has the bubbles fetched anew.
    pub open spec fn refetches_bubbles(self, config: Config) -> bool {
        let was = self.config.volume_bubbles;
        let is = config.volume_bubbles;
        &&& self.kind == ChartKind::Candles
        &&& self.overlays.volume_bubbles
        &&& is.enabled
        &&& was.history_window_minutes != is.history_window_minutes || was.session != is.session
            || was.candidates() != is.candidates() || was.use_raw_trades_when_available
            != is.use_raw_trades_when_available
    }

    /// Whether a change of settings has trades looked for at once.
    pub open spec fn wakes_overlays(self, config: Config) -> bool {
        &&& self.kind == ChartKind::Candles
        &&& (self.overlays.session_volume_profile
            && self.config.session_volume_profile_interval_ms
            != config.session_volume_profile_interval_ms) || (self.overlays.vwap
            && self.config.vwap_anchor_ms != config.vwap_anchor_ms)
    }
}

impl KlineChart {
    pub fn new(
        basis: Basis,
        tick_size: PriceStep,
        kind: ChartKind,
        separate_live_feed: bool,
        raw_trades: &Vec<Trade>,
        overlays: Overlays,
        visual_config: Config,
    ) -> (r: Self)
        requires
            visual_config.wf(),
        ensures
            r@.wf(),
            r@ == (ChartModel {
                basis,
                tick_size,
                kind,
                separate_live_feed,
                raw_trades: trades::retained(seq![], trades::accepted(seq![], raw_trades@)),
                live_trade_buckets: Set::empty(),
                covered_trades: seq![],
                covered_summaries: seq![],
                fetching_trades: false,
                overlays,
                config: visual_config,
            }),
    {
        let none: Vec<Trade> = Vec::new();
        assert(none@ =~= seq![]);
        let accepted = deduplicate_incoming_trades(&none, raw_trades);
        let kept = append_retained(none, &accepted);
        let r = KlineChart {
            basis,
            tick_size,
            kind,
            separate_live_feed,
            raw_trades: kept,
            live_trade_buckets: fx::new_set(),
            covered_trade_ranges: Vec::new(),
            covered_bubble_summary_ranges: Vec::new(),
            fetching_trades: false,
            overlays,
            visual_config,
        };
        assert(r@.covered_trades =~= seq![]);
        assert(r@.covered_summaries =~= seq![]);
        r
    }

    pub fn basis(&self) -> (r: Basis)
        ensures
            r == self@.basis,
    {
        self.basis
    }

    pub fn tick_size(&self) -> (r: PriceStep)
        ensures
            r == self@.tick_size,
    {
        self.tick_size
    }

    pub fn kind(&self) -> (r: ChartKind)
        ensures
            r == self@.kind,
    {
        self.kind
    }

    pub fn visual_config(&self) -> (r: Config)
        ensures
            r == self@.config,
    {
        self.visual_config
    }

    pub fn raw_trades(&self) -> (r: &Vec<Trade>)
        ensures
            r@ == self@.raw_trades,
    {
        &self.raw_trades
    }

    pub fn is_fetching_trades(&self) -> (r: bool)
        ensures
            r == self@.fetching_trades,
    {
        self.fetching_trades
    }

    /// A request for trades was accepted, or is no longer under way.
    pub(crate) fn set_fetching_trades(&mut self, fetching: bool)
        ensures
            final(self)@ == (ChartModel { fetching_trades: fetching, ..old(self)@ }),
    {
        self.fetching_trades = fetching;
    }

    pub fn set_overlays(&mut self, overlays: Overlays)
        ensures
            final(self)@ == (ChartModel { overlays, ..old(self)@ }),
    {
        self.overlays = overlays;
    }

    pub fn change_tick_size(&mut self, new_step: PriceStep)
        ensures
            final(self)@ == (ChartModel { tick_size: new_step, ..old(self)@ }),
    {
        self.tick_size = new_step;
    }

    pub fn mark_trade_range_covered(&mut self, from: UnixMs, to: UnixMs)
        requires
            old(self)@.wf(),
        ensures
            final(self)@.wf(),
            covered_after(
                old(self)@.covered_trades,
                from.ms,
                to.ms,
                final(self)@.covered_trades,
            ),
            final(self)@ == (ChartModel {
                covered_trades: final(self)@.covered_trades,
                ..old(self)@
            }),
    {
        let mut covered: Vec<(u64, u64)> = Vec::new();
        std::mem::swap(&mut covered, &mut self.covered_trade_ranges);
        self.covered_trade_ranges = mark_range_covered(covered, from.ms, to.ms);
    }

    pub fn mark_bubble_summary_range_covered(&mut self, from: UnixMs, to: UnixMs)
        requires
            old(self)@.wf(),
        ensures
            final(self)@.wf(),
            covered_after(
                old(self)@.covered_summaries,
                from.ms,
                to.ms,
                final(self)@.covered_summaries,
            ),
            final(self)@ == (ChartModel {
                covered_summaries: final(self)@.covered_summaries,
                ..old(self)@
            }),
    {
        let mut covered: Vec<(u64, u64)> = Vec::new();
        std::mem::swap(&mut covered, &mut self.covered_bubble_summary_ranges);
        self.covered_bubble_summary_ranges = mark_range_covered(covered, from.ms, to.ms);
    }

    pub fn is_trade_range_covered(&self, from: UnixMs, to: UnixMs) -> (r: bool)
        ensures
            r == ranges::inside_one(self@.covered_trades, from.ms, to.ms),
    {
        is_range_covered(&self.covered_trade_ranges, from.ms, to.ms)
    }

    /// Whether the trades of a volume profile are known as far as they can be fetched.
    /// `latest` is the last candle.
    pub fn fixed_volume_profile_ready(
        &self,
        from: UnixMs,
        to: UnixMs,
        latest: UnixMs,
        now: UnixMs,
    ) -> (r: bool)
        ensures
            r == self@.profile_ready(from.ms, to.ms, latest.ms, now.ms),
    {
        match self.basis {
            Basis::Time(timeframe) => {
                let end: UnixMs = historical_trade_target_to(
                    latest,
                    timeframe.to_milliseconds(),
                    now,
                );
                let required: u64 = smaller(to.ms, end.ms);
                required <= from.ms || self.is_trade_range_covered(from, UnixMs::new(required))
            },
            Basis::Tick(_) => false,
        }
    }

    /// Whether trades of a volume profile between two candles are still missing.
    pub fn fixed_volume_profile_loading(
        &self,
        first: UnixMs,
        second: UnixMs,
        latest: UnixMs,
        now: UnixMs,
    ) -> (r: bool)
        ensures
            r == (match self@.basis {
                Basis::Time(timeframe) => !self@.profile_ready(
                    units::min_u64(first.ms, second.ms),
                    units::sat_add(units::max_u64(first.ms, second.ms), timeframe.ms()),
                    latest.ms,
                    now.ms,
                ),
                Basis::Tick(_) => true,
            }),
    {
        match self.basis {
            Basis::Time(timeframe) => {
                let from: UnixMs = UnixMs::new(smaller(first.ms, second.ms));
                let last: UnixMs = UnixMs::new(larger(first.ms, second.ms));
                let to: UnixMs = last.saturating_add(timeframe.to_milliseconds());
                !self.fixed_volume_profile_ready(from, to, latest, now)
            },
            Basis::Tick(_) => true,
        }
    }

    /// The oldest part of a range whose trades are not covered.
    pub fn subtract_covered_trade_ranges(&self, from: UnixMs, to: UnixMs) -> (r: Option<
        (UnixMs, UnixMs),
    >)
        requires
            self@.wf(),
        ensures
            r == as_moments(ranges::oldest_gap(self@.covered_trades, from.ms, to.ms)),
    {
        to_moments(subtract_covered_ranges(&self.covered_trade_ranges, from.ms, to.ms))
    }

    /// The oldest part of a range whose trades are not covered.
    pub fn missing_trade_range(&self, from: UnixMs, to: UnixMs) -> (r: Option<(UnixMs, UnixMs)>)
        requires
            self@.wf(),
        ensures
            r == as_moments(ranges::oldest_gap(self@.covered_trades, from.ms, to.ms)),
    {
        self.subtract_covered_trade_ranges(from, to)
    }

    /// The oldest part of a range whose bubbles are not covered.
    pub fn subtract_covered_bubble_summary_ranges(&self, from: UnixMs, to: UnixMs) -> (r: Option<
        (UnixMs, UnixMs),
    >)
        requires
            self@.wf(),
        ensures
            r == as_moments(ranges::oldest_gap(self@.covered_summaries, from.ms, to.ms)),
    {
        to_moments(subtract_covered_ranges(&self.covered_bubble_summary_ranges, from.ms, to.ms))
    }

    /// Marks only the part of a fetch that the worker traversed, and names it: the candles
    /// in it have all their trades. A tail that was not reached is a gap to fetch again.
    fn mark_verified_trade_fetch_prefix(
        &mut self,
        from: UnixMs,
        to: UnixMs,
        unfilled_tail: Option<(UnixMs, UnixMs)>,
    ) -> (r: Option<(UnixMs, UnixMs)>)
        requires
            old(self)@.wf(),
        ensures
            final(self)@.wf(),
            r == (if verified_end(to, unfilled_tail) > from.ms {
                Some((from, UnixMs { ms: verified_end(to, unfilled_tail) }))
            } else {
                None
            }),
            covered_after(
                old(self)@.covered_trades,
                from.ms,
                verified_end(to, unfilled_tail),
                final(self)@.covered_trades,
            ),
            final(self)@ == (ChartModel {
                covered_trades: final(self)@.covered_trades,
                ..old(self)@
            }),
    {
        let end: u64 = match unfilled_tail {
            Some((tail_from, _)) => smaller(saturating_sub_u64(tail_from.ms, 1), to.ms),
            None => to.ms,
        };
        if end > from.ms {
            self.mark_trade_range_covered(from, UnixMs::new(end));
            Some((from, UnixMs::new(end)))
        } else {
            None
        }
    }

    /// A worker has finished a fetch: the range of it that is verified, whose candles are
    /// complete. No fetch of trades is under way any more.
    pub fn complete_trade_fetch(&mut self, fetch: Option<FetchRange>, outcome: TradeFetchOutcome) -> (r:
        TradeCompletion)
        requires
            old(self)@.wf(),
        ensures
            final(self)@.wf(),
            backfilled(
                ChartModel { fetching_trades: false, ..old(self)@ },
                fetch,
                outcome,
                r.verified,
                final(self)@,
            ),
            r.empty == (match fetch {
                Some(FetchRange::Trades(_, _)) => outcome.empty_tail,
                _ => None,
            }),
    {
        let verified: Option<(UnixMs, UnixMs)> = self.complete_backfill(fetch, outcome);
        self.fetching_trades = false;
        let empty: Option<(UnixMs, UnixMs)> = match fetch {
            Some(FetchRange::Trades(_, _)) => outcome.empty_tail,
            _ => None,
        };
        TradeCompletion { verified, empty }
    }

    /// A backfill has finished, which leaves the chart's own fetches alone.
    pub fn complete_backfill(&mut self, fetch: Option<FetchRange>, outcome: TradeFetchOutcome) -> (r:
        Option<(UnixMs, UnixMs)>)
        requires
            old(self)@.wf(),
        ensures
            final(self)@.wf(),
            backfilled(old(self)@, fetch, outcome, r, final(self)@),
    {
        match fetch {
            Some(FetchRange::Trades(from, to)) => self.mark_verified_trade_fetch_prefix(
                from,
                to,
                outcome.unfilled_tail,
            ),
            _ => None,
        }
    }

    /// Summaries of bubbles have arrived. They hold derived figures only, so that the
    /// coverage of raw trades stays as it is.
    pub fn complete_bubble_summary_fetch(&mut self, from: UnixMs, to: UnixMs)
        requires
            old(self)@.wf(),
        ensures
            final(self)@.wf(),
            covered_after(
                old(self)@.covered_summaries,
                from.ms,
                to.ms,
                final(self)@.covered_summaries,
            ),
            final(self)@ == (ChartModel {
                covered_summaries: final(self)@.covered_summaries,
                ..old(self)@
            }),
    {
        self.mark_bubble_summary_range_covered(from, to);
    }

    /// Forgets what was requested and covered.
    pub fn reset_request_handler(&mut self)
        requires
            old(self)@.wf(),
        ensures
            final(self)@.wf(),
            final(self)@ == (ChartModel {
                fetching_trades: false,
                covered_trades: seq![],
                covered_summaries: seq![],
                ..old(self)@
            }),
    {
        self.fetching_trades = false;
        self.covered_trade_ranges = Vec::new();
        self.covered_bubble_summary_ranges = Vec::new();
        assert(self@ =~= (ChartModel {
            fetching_trades: false,
            covered_trades: seq![],
            covered_summaries: seq![],
            ..old(self)@
        }));
    }

    /// Drops the trades that are held, forgets what was covered, so that all of it counts as
    /// missing and is fetched anew, and empties the candles. Candles of a number of trades are
    /// their trades, and stay.
    pub fn invalidate_market_data_cache(&mut self, candles: Vec<CandleData>) -> (r: Vec<CandleData>)
        requires
            old(self)@.config.wf(),
        ensures
            old(self)@.basis is Time ==> candles::are_emptied(candles@, r@),
            old(self)@.basis is Tick ==> r@ == candles@,
            final(self)@.wf(),
            final(self)@ == (ChartModel {
                raw_trades: seq![],
                covered_trades: seq![],
                covered_summaries: seq![],
                ..old(self)@
            }),
    {
        self.raw_trades = Vec::new();
        self.covered_trade_ranges = Vec::new();
        self.covered_bubble_summary_ranges = Vec::new();
        assert(self@ =~= (ChartModel {
            raw_trades: seq![],
            covered_trades: seq![],
            covered_summaries: seq![],
            ..old(self)@
        }));
        match self.basis {
            Basis::Time(_) => empty_candles(&candles),
            Basis::Tick(_) => candles,
        }
    }

    pub fn set_visual_config(&mut self, visual_config: Config) -> (r: ConfigChange)
        requires
            old(self)@.wf(),
            visual_config.wf(),
        ensures
            final(self)@.wf(),
            r.drop_summaries == (old(self)@.refetches_bubbles(visual_config)
                && old(self)@.config.volume_bubbles.candidates()
                != visual_config.volume_bubbles.candidates()),
            r.wake == (old(self)@.refetches_bubbles(visual_config) || old(self)@.wakes_overlays(
                visual_config,
            )),
            final(self)@ == (ChartModel {
                config: visual_config,
                covered_summaries: if r.drop_summaries {
                    seq![]
                } else {
                    old(self)@.covered_summaries
                },
                ..old(self)@
            }),
    {
        let was: VolumeBubbleConfig = self.visual_config.volume_bubbles;
        let is: VolumeBubbleConfig = visual_config.volume_bubbles;
        let aggregation: bool = was.candidate_limit() != is.candidate_limit();
        let candles: bool = self.kind == ChartKind::Candles;
        let refetch: bool = candles && self.overlays.volume_bubbles && is.enabled && (
        was.history_window_minutes != is.history_window_minutes || was.session != is.session
            || aggregation || was.use_raw_trades_when_available
            != is.use_raw_trades_when_available);
        let wake_overlays: bool = candles && ((self.overlays.session_volume_profile
            && self.visual_config.session_volume_profile_interval_ms
            != visual_config.session_volume_profile_interval_ms) || (self.overlays.vwap
            && self.visual_config.vwap_anchor_ms != visual_config.vwap_anchor_ms));
        self.visual_config = visual_config;
        let drop_summaries: bool = refetch && aggregation;
        if drop_summaries {
            self.covered_bubble_summary_ranges = Vec::new();
            assert(self@.covered_summaries =~= seq![]);
        }
        ConfigChange { drop_summaries, wake: refetch || wake_overlays }
    }

    /// Whether two bases are of one kind.
    pub open spec fn same_kind(a: Basis, b: Basis) -> bool {
        (a is Time) == (b is Time)
    }

    /// Changes the basis. Trades are kept only between bases of one kind; what was
    /// requested and covered is forgotten.
    pub fn set_basis(&mut self, new_basis: Basis)
        requires
            old(self)@.wf(),
        ensures
            final(self)@.wf(),
            final(self)@ == (ChartModel {
                basis: new_basis,
                raw_trades: if Self::same_kind(old(self)@.basis, new_basis) {
                    old(self)@.raw_trades
                } else {
                    seq![]
                },
                fetching_trades: false,
                covered_trades: seq![],
                covered_summaries: seq![],
                ..old(self)@
            }),
    {
        let same: bool = match (self.basis, new_basis) {
            (Basis::Time(_), Basis::Time(_)) => true,
            (Basis::Tick(_), Basis::Tick(_)) => true,
            _ => false,
        };
        self.basis = new_basis;
        if !same {
            self.raw_trades = Vec::new();
            assert(self@.raw_trades =~= seq![]);
        }
        self.reset_request_handler();
    }

    /// Takes in trades of the live feed, and returns those that are new.
    pub fn insert_trades(&mut self, buffer: &Vec<Trade>) -> (r: Vec<Trade>)
        ensures
            r@ == trades::accepted(old(self)@.raw_trades, buffer@),
            final(self)@.raw_trades.len() <= trades::MAX_RAW_TRADES,
            final(self)@ == (ChartModel {
                raw_trades: trades::retained(old(self)@.raw_trades, r@),
                live_trade_buckets: match old(self)@.basis {
                    Basis::Time(interval) => if old(self)@.separate_live_feed {
                        trades::live_after(old(self)@.live_trade_buckets, r@, interval)
                    } else {
                        old(self)@.live_trade_buckets
                    },
                    Basis::Tick(_) => old(self)@.live_trade_buckets,
                },
                ..old(self)@
            }),
    {
        let fresh = deduplicate_incoming_trades(&self.raw_trades, buffer);
        if self.separate_live_feed {
            if let Basis::Time(interval) = self.basis {
                extend_live_buckets(&mut self.live_trade_buckets, &fresh, interval);
            }
        }
        let mut held: Vec<Trade> = Vec::new();
        std::mem::swap(&mut held, &mut self.raw_trades);
        self.raw_trades = append_retained(held, &fresh);
        fresh
    }

    /// The historical trades that are taken in: new ones, outside the buckets of the live
    /// feed.
    pub open spec fn historical(before: ChartModel, raw_trades: Seq<Trade>) -> Seq<Trade> {
        match before.basis {
            Basis::Time(interval) => trades::outside_live(
                trades::accepted(before.raw_trades, raw_trades),
                before.live_trade_buckets,
                interval,
            ),
            Basis::Tick(_) => seq![],
        }
    }

    /// Takes in historical trades, and returns those that were taken. A chart of ticks takes
    /// none.
    pub fn insert_raw_trades(&mut self, raw_trades: &Vec<Trade>, is_batches_done: bool) -> (r: Vec<
        Trade,
    >)
        ensures
            r@ == Self::historical(old(self)@, raw_trades@),
            old(self)@.basis is Time ==> final(self)@.raw_trades.len() <= trades::MAX_RAW_TRADES,
            final(self)@ == (ChartModel {
                raw_trades: if old(self)@.basis is Time {
                    trades::retained(old(self)@.raw_trades, r@)
                } else {
                    old(self)@.raw_trades
                },
                fetching_trades: old(self)@.fetching_trades && !is_batches_done,
                ..old(self)@
            }),
    {
        if is_batches_done {
            self.fetching_trades = false;
        }
        match self.basis {
            Basis::Tick(_) => {
                let none: Vec<Trade> = Vec::new();
                assert(none@ =~= seq![]);
                none
            },
            Basis::Time(interval) => {
                let fresh = deduplicate_incoming_trades(&self.raw_trades, raw_trades);
                let (kept, _) = exclude_historical_overlap_with_live(
                    fresh,
                    &self.live_trade_buckets,
                    interval,
                );
                let mut held: Vec<Trade> = Vec::new();
                std::mem::swap(&mut held, &mut self.raw_trades);
                self.raw_trades = append_retained(held, &kept);
                kept
            },
        }
    }

    fn initial_steps(&self, view: &FetchView, timeframe: Timeframe) -> (r: Vec<FetchStep>)
        ensures
            r@ == self@.initial_step(*view, timeframe),
    {
        let mut r: Vec<FetchStep> = Vec::new();
        if view.empty {
            let span: u64 = INITIAL_CANDLES * timeframe.to_milliseconds();
            let earliest: u64 = saturating_sub_u64(view.now.ms, span);
            r.push(FetchStep::Request(FetchRange::Kline(UnixMs::new(earliest), view.now)));
        }
        assert(r@ =~= self@.initial_step(*view, timeframe));
        r
    }

    fn vwap_start(&self, view: &FetchView, timeframe: Timeframe, visible: (u64, u64)) -> (r: Option<
        u64,
    >)
        requires
            self@.wf(),
        ensures
            r == self@.vwap_from(*view, timeframe, visible),
    {
        if self.overlays.vwap {
            let width: u64 = timeframe.to_milliseconds();
            let target: u64 = smaller(saturating_add_u64(view.kline_latest.ms, width), view.now.ms);
            Some(
                vwap_required_from(
                    UnixMs::new(target),
                    UnixMs::new(visible.0),
                    self.visual_config.vwap_anchor_ms,
                ).ms,
            )
        } else {
            None
        }
    }

    fn overlay_candle(
        &self,
        view: &FetchView,
        timeframe: Timeframe,
        visible: (u64, u64),
        bubbles: Option<(UnixMs, UnixMs)>,
    ) -> (r: Option<u64>)
        requires
            self@.wf(),
        ensures
            r == self@.overlay_from(*view, timeframe, visible, bubbles),
    {
        let width: u64 = timeframe.to_milliseconds();
        let candle: Option<u64> = match bubbles {
            Some((from, _)) => Some(from.ms - from.ms % width),
            None => None,
        };
        match (self.vwap_start(view, timeframe, visible), candle) {
            (Some(a), Some(b)) => Some(smaller(a, b)),
            (Some(a), None) => Some(a),
            (None, b) => b,
        }
    }

    fn early(
        &self,
        view: &FetchView,
        timeframe: Timeframe,
        visible: (u64, u64),
        bubbles: Option<(UnixMs, UnixMs)>,
    ) -> (r: Vec<FetchStep>)
        requires
            self@.wf(),
        ensures
            r@ == self@.early_steps(*view, timeframe, visible, bubbles),
    {
        let mut r = self.initial_steps(view, timeframe);
        let ghost s0 = r@;
        if visible.0 < view.kline_earliest.ms {
            let prefetch: UnixMs = UnixMs::new(prefetch_from(visible));
            r.push(FetchStep::Request(FetchRange::Kline(prefetch, view.kline_earliest)));
        }
        let ghost s1 = r@;
        assert(s1 =~= s0 + self@.visible_step(*view, visible));
        if let Some(from) = self.overlay_candle(view, timeframe, visible, bubbles) {
            if from < view.kline_earliest.ms {
                r.push(
                    FetchStep::Request(FetchRange::Kline(UnixMs::new(from), view.kline_earliest)),
                );
            }
        }
        let ghost s2 = r@;
        assert(s2 =~= s1 + self@.overlay_step(*view, timeframe, visible, bubbles));
        if let Some(gap) = self.footprint_gap(view, timeframe) {
            r.push(
                FetchStep::Request(FetchRange::Trades(UnixMs::new(gap.0), UnixMs::new(gap.1))),
            );
        }
        let ghost s3 = r@;
        assert(s3 =~= s2 + self@.footprint_step(*view, timeframe));
        if let Some(gap) = self.overlay_gap(view, timeframe, visible) {
            let from: u64 = larger(gap.0, saturating_sub_u64(gap.1, TRADE_CHUNK_MS));
            r.push(FetchStep::Request(FetchRange::Trades(UnixMs::new(from), UnixMs::new(gap.1))));
        }
        assert(r@ =~= s3 + self@.trades_step(*view, timeframe, visible));
        r
    }

    /// Adds what the indicators ask for and the candles missing in between.
    fn push_last(
        &self,
        steps: Vec<FetchStep>,
        view: &FetchView,
        timeframe: Timeframe,
        visible: (u64, u64),
    ) -> (r: Vec<FetchStep>)
        ensures
            r@ == steps@ + (requests(view.indicator_ranges@) + self@.integrity_step(
                *view,
                timeframe,
                visible,
            )),
    {
        let ghost before = steps@;
        let mut r = steps;
        let mut i: usize = 0;
        assert(r@ =~= before + requests(view.indicator_ranges@.take(0)));
        while i < view.indicator_ranges.len()
            invariant
                i <= view.indicator_ranges@.len(),
                r@ == before + requests(view.indicator_ranges@.take(i as int)),
            decreases view.indicator_ranges@.len() - i,
        {
            r.push(FetchStep::Request(view.indicator_ranges[i]));
            assert(r@ =~= before + requests(view.indicator_ranges@.take(i + 1)));
            i = i + 1;
        }
        assert(view.indicator_ranges@.take(i as int) =~= view.indicator_ranges@);
        if let Some(missing) = &view.missing_klines {
            let width: u64 = timeframe.to_milliseconds();
            let (first, last) = extremes(missing, visible);
            r.push(
                FetchStep::Request(
                    FetchRange::Kline(first.saturating_sub(width), last.saturating_add(width)),
                ),
            );
        }
        assert(r@ =~= before + (requests(view.indicator_ranges@) + self@.integrity_step(
            *view,
            timeframe,
            visible,
        )));
        r
    }

    /// What is to be tried for missing data, in order, once the window of bubbles is known.
    pub fn fetch_steps(&self, view: &FetchView, bubbles: Option<(UnixMs, UnixMs)>) -> (r: Vec<FetchStep>)
        requires
            self@.wf(),
        ensures
            r@ == self@.steps(*view, bubbles),
    {
        let timeframe: Timeframe = match self.basis {
            Basis::Time(timeframe) => timeframe,
            Basis::Tick(_) => {
                let none: Vec<FetchStep> = Vec::new();
                assert(none@ =~= seq![]);
                return none;
            },
        };
        let visible: (u64, u64) = match view.visible {
            Some(visible) => visible,
            None => {
                return self.initial_steps(view, timeframe);
            },
        };
        let mut r = self.early(view, timeframe, visible, bubbles);
        let ghost first = r@;
        match self.missing_bubbles(view, timeframe, bubbles) {
            Some(gap) => {
                let config: VolumeBubbleConfig = self.visual_config.volume_bubbles;
                if config.use_raw_trades_when_available && is_range_covered(
                    &self.covered_trade_ranges,
                    gap.0,
                    gap.1,
                ) {
                    r.push(FetchStep::SummarizeRawTrades(UnixMs::new(gap.0), UnixMs::new(gap.1)));
                    assert(r@ =~= first + seq![
                        FetchStep::SummarizeRawTrades(UnixMs { ms: gap.0 }, UnixMs { ms: gap.1 }),
                    ]);
                    return r;
                }
                r.push(
                    FetchStep::Request(
                        FetchRange::BubbleSummary {
                            from: UnixMs::new(gap.0),
                            to: UnixMs::new(gap.1),
                            timeframe_ms: timeframe.to_milliseconds(),
                            price_step: self.tick_size,
                            max_candidates_per_candle: config.candidate_limit(),
                            cluster_window_ms: config.cluster_window_ms,
                            cluster_price_ticks: config.cluster_price_ticks,
                        },
                    ),
                );
                assert(r@ =~= first + seq![
                    FetchStep::Request(self@.summary_request(timeframe, gap)),
                ]);
            },
            None => {},
        }
        self.push_last(r, view, timeframe, visible)
    }

    fn footprint_gap(&self, view: &FetchView, timeframe: Timeframe) -> (r: Option<(u64, u64)>)
        requires
            self@.wf(),
        ensures
            self@.footprint_step(*view, timeframe) == (match r {
                Some(gap) => seq![
                    FetchStep::Request(
                        FetchRange::Trades(UnixMs { ms: gap.0 }, UnixMs { ms: gap.1 }),
                    ),
                ],
                None => seq![],
            }),
    {
        if self.kind != ChartKind::Footprint || self.fetching_trades || !view.trade_fetch_enabled {
            return None;
        }
        match view.suggested_trades {
            Some((from, to)) => {
                let target: UnixMs = historical_trade_target_to(
                    view.kline_latest,
                    timeframe.to_milliseconds(),
                    view.now,
                );
                subtract_covered_ranges(
                    &self.covered_trade_ranges,
                    from.ms,
                    smaller(to.ms, target.ms),
                )
            },
            None => None,
        }
    }

    fn overlay_gap(
        &self,
        view: &FetchView,
        timeframe: Timeframe,
        visible: (u64, u64),
    ) -> (r: Option<(u64, u64)>)
        requires
            self@.wf(),
        ensures
            r == (if self@.kind == ChartKind::Candles && (self@.overlays.session_volume_profile
                || self@.overlays.vwap) && !self@.fetching_trades {
                let range = self@.overlay_trades(*view, timeframe, visible);
                ranges::selected_gap(self@.covered_trades, range.0, range.1)
            } else {
                None
            }),
    {
        if self.kind != ChartKind::Candles || !(self.overlays.session_volume_profile
            || self.overlays.vwap) || self.fetching_trades {
            return None;
        }
        let target: UnixMs = historical_trade_target_to(
            view.kline_latest,
            timeframe.to_milliseconds(),
            view.now,
        );
        let profile_from: u64 = if self.overlays.session_volume_profile {
            smaller(
                visible.0,
                align_session_start(
                    visible.0,
                    self.visual_config.session_volume_profile_interval_ms,
                ),
            )
        } else {
            visible.0
        };
        let from: u64 = match self.vwap_start(view, timeframe, visible) {
            Some(start) => smaller(profile_from, start),
            None => profile_from,
        };
        let to: u64 = if self.overlays.vwap {
            target.ms
        } else {
            smaller(larger(visible.1, view.kline_latest.ms), target.ms)
        };
        select_trade_fetch_gap(&self.covered_trade_ranges, larger(from, view.kline_earliest.ms), to)
    }

    fn missing_bubbles(
        &self,
        view: &FetchView,
        timeframe: Timeframe,
        bubbles: Option<(UnixMs, UnixMs)>,
    ) -> (r: Option<(u64, u64)>)
        requires
            self@.wf(),
        ensures
            r == self@.bubble_gap(*view, timeframe, bubbles),
    {
        if self.kind != ChartKind::Candles || !self.overlays.volume_bubbles
            || !self.visual_config.volume_bubbles.enabled || self.fetching_trades {
            return None;
        }
        match bubbles {
            Some((from, to)) => {
                let target: UnixMs = historical_trade_target_to(
                    view.kline_latest,
                    timeframe.to_milliseconds(),
                    view.now,
                );
                if from.ms < target.ms {
                    match subtract_covered_ranges_latest(
                        &self.covered_bubble_summary_ranges,
                        from.ms,
                        smaller(to.ms, target.ms),
                    ) {
                        Some((gap_from, gap_to)) => Some(
                            (
                                larger(
                                    gap_from,
                                    saturating_sub_u64(gap_to, BUBBLE_FETCH_CHUNK_MS),
                                ),
                                gap_to,
                            ),
                        ),
                        None => None,
                    }
                } else {
                    None
                }
            },
            None => None,
        }
    }

    /// What is to be tried for missing data, in order. A fetch of trades of which no request
    /// is left is no longer under way.
    pub fn fetch_missing_data(&mut self, view: &FetchView) -> (r: Vec<FetchStep>)
        requires
            old(self)@.wf(),
        ensures
            final(self)@ == (ChartModel {
                fetching_trades: old(self)@.fetching_trades && view.trade_request_pending,
                ..old(self)@
            }),
            r@ == final(self)@.steps(*view, final(self)@.bubble_window(*view)),
    {
        if !view.trade_request_pending {
            self.fetching_trades = false;
        }
        let bubbles: Option<(UnixMs, UnixMs)> = match self.basis {
            Basis::Time(timeframe) => if self.overlays.volume_bubbles
                && self.visual_config.volume_bubbles.enabled {
                volume_bubble_effective_range(
                    view.kline_latest,
                    timeframe.to_milliseconds(),
                    view.now,
                    self.visual_config.volume_bubbles.history_window_minutes,
                    self.visual_config.volume_bubbles.session,
                )
            } else {
                None
            },
            Basis::Tick(_) => None,
        };
        self.fetch_steps(view, bubbles)
    }
}

impl KlineChart {
    /// A request that has been made. While it is one for trades, no other trades are
    /// requested.
    pub fn request_accepted(&mut self, range: FetchRange)
        ensures
            final(self)@ == (ChartModel {
                fetching_trades: old(self)@.fetching_trades || range is Trades,
                ..old(self)@
            }),
    {
        if let FetchRange::Trades(_, _) = range {
            self.fetching_trades = true;
        }
    }
}

/// A range in moments.
pub open spec fn as_moments(range: Option<(u64, u64)>) -> Option<(UnixMs, UnixMs)> {
    match range {
        Some((from, to)) => Some((UnixMs { ms: from }, UnixMs { ms: to })),
        None => None,
    }
}

fn to_moments(range: Option<(u64, u64)>) -> (r: Option<(UnixMs, UnixMs)>)
    ensures
        r == as_moments(range),
{
    match range {
        Some((from, to)) => Some((UnixMs::new(from), UnixMs::new(to))),
        None => None,
    }
}

/// What a finished fetch changes: of trades, the verified part is covered; of anything
/// else, nothing.
pub open spec fn backfilled(
    before: ChartModel,
    fetch: Option<FetchRange>,
    outcome: TradeFetchOutcome,
    verified: Option<(UnixMs, UnixMs)>,
    after: ChartModel,
) -> bool {
    match fetch {
        Some(FetchRange::Trades(from, to)) => {
            let end = verified_end(to, outcome.unfilled_tail);
            &&& verified == (if end > from.ms {
                Some((from, UnixMs { ms: end }))
            } else {
                None
            })
            &&& covered_after(before.covered_trades, from.ms, end, after.covered_trades)
            &&& after == ChartModel { covered_trades: after.covered_trades, ..before }
        },
        _ => verified is None && after == before,
    }
}

/// A tail that a worker did not reach is still a gap: no moment of it becomes covered.
pub proof fn unreached_tail_stays_open(
    before: ChartModel,
    from: UnixMs,
    to: UnixMs,
    tail: (UnixMs, UnixMs),
    outcome: TradeFetchOutcome,
    verified: Option<(UnixMs, UnixMs)>,
    after: ChartModel,
    t: int,
)
    requires
        outcome.unfilled_tail == Some(tail),
        backfilled(before, Some(FetchRange::Trades(from, to)), outcome, verified, after),
        tail.0.ms <= t,
        !intervals::covers(before.covered_trades, t),
    ensures
        !intervals::covers(after.covered_trades, t),
{
}

/// Once market data has been dropped, no trade is held, no candle keeps trades or a summary,
/// and every range counts as missing, whatever was covered before.
pub proof fn dropped_data_is_missing(
    before: ChartModel,
    after: ChartModel,
    candles_before: Seq<CandleData>,
    candles_after: Seq<CandleData>,
    from: u64,
    to: u64,
)
    requires
        candles::are_emptied(candles_before, candles_after),
        after == (ChartModel {
            raw_trades: seq![],
            covered_trades: seq![],
            covered_summaries: seq![],
            ..before
        }),
        from < to,
    ensures
        after.raw_trades.len() == 0,
        candles_after.len() == candles_before.len(),
        forall|i: int|
            0 <= i < candles_after.len() ==> (#[trigger] candles_after[i]).levels@.len() == 0
                && candles_after[i].trade_sequence@.len() == 0 && candles_after[i].bubble_summary
                is None && candles_after[i].trade_coverage == TradeCoverage::Unknown,
        ranges::oldest_gap(after.covered_trades, from, to) == Some((from, to)),
        ranges::newest_gap(after.covered_trades, from, to) == Some((from, to)),
        ranges::newest_gap(after.covered_summaries, from, to) == Some((from, to)),
{
    let none: Seq<(u64, u64)> = seq![];
    assert forall|t: int| !#[trigger] intervals::covers(none, t) by {}
    ranges::oldest_gap_is_unique(none, from, to, Some((from, to)));
    ranges::newest_gap_is_unique(none, from, to, Some((from, to)));
}

/// A request for trades of an uncovered range that ends with the last closed candle at the
/// latest.
pub open spec fn is_sound_trade_request(
    chart: ChartModel,
    view: FetchView,
    timeframe: Timeframe,
    step: FetchStep,
) -> bool {
    &&& step matches FetchStep::Request(FetchRange::Trades(from, to))
    &&& from.ms < to.ms <= sessions::historical_target(
        view.kline_latest.ms,
        timeframe.ms(),
        view.now.ms,
    )
    &&& ranges::uncovered(chart.covered_trades, from.ms as int, to.ms as int)
}

/// Trades are never requested beyond the last closed candle, nor for a range of which any
/// moment is covered; and no trades are requested while a fetch of trades is under way.
pub proof fn trade_requests_are_gaps(
    chart: ChartModel,
    view: FetchView,
    timeframe: Timeframe,
    visible: (u64, u64),
)
    ensures
        forall|i: int|
            0 <= i < chart.footprint_step(view, timeframe).len() ==> is_sound_trade_request(
                chart,
                view,
                timeframe,
                #[trigger] chart.footprint_step(view, timeframe)[i],
            ),
        forall|i: int|
            0 <= i < chart.trades_step(view, timeframe, visible).len() ==> is_sound_trade_request(
                chart,
                view,
                timeframe,
                #[trigger] chart.trades_step(view, timeframe, visible)[i],
            ),
        chart.fetching_trades ==> chart.footprint_step(view, timeframe).len() == 0
            && chart.trades_step(view, timeframe, visible).len() == 0,
{
    if view.suggested_trades is Some {
        let from = (view.suggested_trades->0).0.ms;
        let to = units::min_u64(
            (view.suggested_trades->0).1.ms,
            sessions::historical_target(view.kline_latest.ms, timeframe.ms(), view.now.ms),
        );
        ranges::gaps_exist(chart.covered_trades, from, to);
    }
    let (from, to) = chart.overlay_trades(view, timeframe, visible);
    ranges::gaps_exist(chart.covered_trades, from, to);
}

} // verus!
