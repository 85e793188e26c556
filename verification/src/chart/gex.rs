//! The chart of gamma exposure by strike: its view, and the liquidity that the exposure is
//! held against.
use vstd::prelude::*;
use crate::connector::gex_keys::OptionsUnderlying;
use crate::connector::gex_proxy::GexFreshness;
use crate::units;
use crate::units::{saturating_sub_u64, Bits32, Bits64, UnixMs};

verus! {

/// The age from which an order book is stale.
pub const LIQUIDITY_STALE_AFTER_MS: u64 = 10_000;

/// The time between two calculations of the liquidity.
pub const LIQUIDITY_RECALCULATION_INTERVAL_MS: u64 = 60_000;

/// The bits of 1, the fraction of the strikes that is visible at first.
pub const FULL_FRACTION_BITS: u64 = 0x3ff0_0000_0000_0000;

/// The fewest strikes that zooming in leaves visible.
pub const MIN_VISIBLE_STRIKES: usize = 5;

#[derive(Debug, Default, Clone, Copy, PartialEq, Eq, Structural)]
pub enum LiquidityDepthState {
    #[default]
    NoReference,
    WaitingForDepth,
    InvalidDepth,
    Ready,
    Stale,
}

#[derive(Debug, Clone, Copy)]
pub enum Message {
    /// The fraction after zooming in.
    ZoomIn(Bits64),
    /// The fraction after zooming out.
    ZoomOut(Bits64),
    AutoFit,
    /// The number of rows scrolled.
    Scrolled(i64),
    DragStarted,
    /// The height of the pointer, the whole rows dragged since the last message and what is
    /// left of the movement.
    Dragged { y: Bits32, rows: i64, remainder: Bits32 },
    DragEnded,
    SelectLiquidityReference,
}

#[derive(Debug, Clone, Copy, PartialEq, Eq, Structural)]
pub enum Action {
    ViewChanged,
}

#[derive(Debug, Clone, Copy, PartialEq, Eq, Structural)]
pub enum GexSignModel {
    CallPutOiProxy,
    AbsoluteGamma,
}

#[derive(Debug, Clone, Copy, PartialEq, Eq, Structural)]
pub enum GexProxyDirection {
    Positive,
    Negative,
    Balanced,
    NotApplicable,
}

#[derive(Debug, Clone, Copy, PartialEq, Eq, Structural)]
pub struct Config {
    pub liquidity_depth_bps: Bits32,
    pub sign_model: GexSignModel,
    pub show_gamma_liquidity_panel: bool,
    pub max_visible_strikes: usize,
}

/// The market whose order book the exposure is held against.
#[derive(Debug, Clone, Copy, PartialEq, Eq, Structural)]
pub struct LiquidityReference {
    pub ticker: u64,
}

/// A snapshot that is kept elsewhere under a number.
#[derive(Debug, Clone, Copy, PartialEq, Eq, Structural)]
pub struct GexSnapshot {
    pub slot: usize,
    pub underlying: OptionsUnderlying,
}

/// An order book that is kept elsewhere under a number.
#[derive(Debug, Clone, Copy, PartialEq, Eq, Structural)]
pub struct DepthBook {
    pub slot: usize,
    pub observed_at: UnixMs,
}

/// The figures of an order book that are kept elsewhere under a number, with the market and
/// the moment of the book.
#[derive(Debug, Clone, Copy, PartialEq, Eq, Structural)]
pub struct GexLiquidityMetrics {
    pub slot: usize,
    pub reference: LiquidityReference,
    pub observed_at: UnixMs,
}

/// The strikes within the price range: their number, the place of the one closest to the
/// spot price, and the configured number of rows times the visible fraction, rounded.
#[derive(Debug, Clone, Copy, PartialEq, Eq, Structural)]
pub struct StrikeRange {
    pub len: usize,
    pub spot_index: usize,
    pub scaled: usize,
}

impl StrikeRange {
    pub open spec fn wf(self) -> bool {
        &&& self.len <= i64::MAX
        &&& self.len > 0 ==> self.spot_index < self.len
    }
}

pub open spec fn least(a: int, b: int) -> int {
    if a <= b {
        a
    } else {
        b
    }
}

pub open spec fn most(a: int, b: int) -> int {
    if a >= b {
        a
    } else {
        b
    }
}

/// The configured number of rows, at least one, at most all.
pub open spec fn configured_rows(max_visible: usize, available: usize) -> int {
    least(most(max_visible as int, 1), available as int)
}

/// The number of visible rows: the scaled number, at least five, at most all.
pub open spec fn visible_rows(scaled: usize, available: usize) -> int {
    least(
        most(scaled as int, least(available as int, MIN_VISIBLE_STRIKES as int)),
        available as int,
    )
}

/// The number of visible rows.
pub fn visible_count(scaled: usize, available: usize) -> (r: usize)
    ensures
        r == visible_rows(scaled, available),
{
    let floor: usize = if available < MIN_VISIBLE_STRIKES {
        available
    } else {
        MIN_VISIBLE_STRIKES
    };
    let count: usize = if scaled < floor {
        floor
    } else {
        scaled
    };
    if count < available {
        count
    } else {
        available
    }
}

/// The configured number of rows, which the visible fraction scales.
pub fn configured_count(max_visible: usize, available: usize) -> (r: usize)
    ensures
        r == configured_rows(max_visible, available),
{
    let wanted: usize = if max_visible < 1 {
        1
    } else {
        max_visible
    };
    if wanted < available {
        wanted
    } else {
        available
    }
}

/// The row in the middle of the view.
pub open spec fn center_row(range: StrikeRange, offset: i64) -> int {
    least(most(range.spot_index + offset, 0), range.len - 1)
}

/// The first visible row: the view is centered as far as the rows allow.
pub open spec fn first_row(range: StrikeRange, offset: i64) -> int {
    let count = visible_rows(range.scaled, range.len);
    least(most(center_row(range, offset) - count / 2, 0), range.len - count)
}

/// The offset with its center on an existing row.
pub open spec fn clamped_offset(offset: i64, range: Option<StrikeRange>) -> i64 {
    match range {
        Some(range) => if range.len == 0 {
            0
        } else {
            most(
                least(offset as int, range.len - 1 - range.spot_index),
                -(range.spot_index as int),
            ) as i64
        },
        None => 0,
    }
}

fn clamp_offset(offset: i64, range: Option<StrikeRange>) -> (r: i64)
    requires
        range is Some ==> range->0.wf(),
    ensures
        r == clamped_offset(offset, range),
{
    match range {
        Some(range) => {
            if range.len == 0 {
                return 0;
            }
            let below: i64 = -(range.spot_index as i64);
            let above: i64 = (range.len - 1 - range.spot_index) as i64;
            if offset > above {
                above
            } else if offset < below {
                below
            } else {
                offset
            }
        },
        None => 0,
    }
}

pub open spec fn shifted_offset(offset: i64, rows: i64) -> i64 {
    if offset + rows > i64::MAX {
        i64::MAX
    } else if offset + rows < i64::MIN {
        i64::MIN
    } else {
        (offset + rows) as i64
    }
}

fn shift_offset(offset: i64, rows: i64) -> (r: i64)
    ensures
        r == shifted_offset(offset, rows),
{
    let sum: i128 = offset as i128 + rows as i128;
    if sum > i64::MAX as i128 {
        i64::MAX
    } else if sum < i64::MIN as i128 {
        i64::MIN
    } else {
        sum as i64
    }
}

/// Whether two figures differ as numbers: the two zeros are equal, and what is no number
/// differs from everything.
pub open spec fn differ(a: Bits32, b: Bits32) -> bool {
    if is_nan(a) || is_nan(b) {
        true
    } else if is_zero(a) && is_zero(b) {
        false
    } else {
        a != b
    }
}

pub open spec fn is_zero(a: Bits32) -> bool {
    a.bits == 0 || a.bits == 0x8000_0000
}

pub open spec fn is_nan(a: Bits32) -> bool {
    0x7f80_0000 < a.bits < 0x8000_0000 || 0xff80_0000 < a.bits
}

fn figures_differ(a: Bits32, b: Bits32) -> (r: bool)
    ensures
        r == differ(a, b),
{
    let first: u32 = a.bits;
    let second: u32 = b.bits;
    if (0x7f80_0000 < first && first < 0x8000_0000) || 0xff80_0000 < first {
        return true;
    }
    if (0x7f80_0000 < second && second < 0x8000_0000) || 0xff80_0000 < second {
        return true;
    }
    if (first == 0 || first == 0x8000_0000) && (second == 0 || second == 0x8000_0000) {
        return false;
    }
    first != second
}

/// What the sign of the exposure says, where `balanced` tells that the net exposure is a
/// small share of the whole and `above_zero` that it is positive.
pub fn proxy_direction(model: GexSignModel, balanced: bool, above_zero: bool) -> (r:
    GexProxyDirection)
    ensures
        r == match model {
            GexSignModel::AbsoluteGamma => GexProxyDirection::NotApplicable,
            GexSignModel::CallPutOiProxy => if balanced {
                GexProxyDirection::Balanced
            } else if above_zero {
                GexProxyDirection::Positive
            } else {
                GexProxyDirection::Negative
            },
        },
{
    match model {
        GexSignModel::AbsoluteGamma => GexProxyDirection::NotApplicable,
        GexSignModel::CallPutOiProxy => {
            if balanced {
                GexProxyDirection::Balanced
            } else if above_zero {
                GexProxyDirection::Positive
            } else {
                GexProxyDirection::Negative
            }
        },
    }
}

#[derive(Debug, Clone, Copy, PartialEq, Eq, Structural)]
pub enum MarketKind {
    Spot,
    LinearPerps,
    InversePerps,
}

#[derive(Debug, Clone, Copy, PartialEq, Eq, Structural)]
pub enum SizeUnit {
    Base,
    Quote,
}

/// Whether a quantity is an amount of quote currency already: always on inverse
/// contracts, otherwise where sizes are counted in it.
pub fn counts_in_quote(kind: MarketKind, unit: SizeUnit) -> (r: bool)
    ensures
        r == (kind == MarketKind::InversePerps || unit == SizeUnit::Quote),
{
    match (kind, unit) {
        (MarketKind::InversePerps, _) => true,
        (_, SizeUnit::Quote) => true,
        (_, SizeUnit::Base) => false,
    }
}

/// The state of the chart.
pub struct ChartModel {
    pub underlying: OptionsUnderlying,
    pub snapshot: Option<GexSnapshot>,
    pub freshness: GexFreshness,
    pub config: Config,
    pub visible_fraction: Bits64,
    pub center_offset: i64,
    pub dragging: bool,
    pub last_drag_y: Option<Bits32>,
    pub drag_remainder: Bits32,
    pub last_tick: u64,
    pub error: Option<Seq<char>>,
    pub reference: Option<LiquidityReference>,
    pub metrics: Option<GexLiquidityMetrics>,
    pub last_depth: Option<DepthBook>,
    pub last_recalculation: Option<u64>,
}

pub struct GexChart {
    underlying: OptionsUnderlying,
    snapshot: Option<GexSnapshot>,
    freshness: GexFreshness,
    config: Config,
    visible_fraction: Bits64,
    center_offset: i64,
    dragging: bool,
    last_drag_y: Option<Bits32>,
    drag_remainder: Bits32,
    last_tick: u64,
    error: Option<String>,
    liquidity_reference: Option<LiquidityReference>,
    liquidity_metrics: Option<GexLiquidityMetrics>,
    last_depth: Option<DepthBook>,
    last_liquidity_recalculation: Option<u64>,
}

impl View for GexChart {
    type V = ChartModel;

    closed spec fn view(&self) -> ChartModel {
        ChartModel {
            underlying: self.underlying,
            snapshot: self.snapshot,
            freshness: self.freshness,
            config: self.config,
            visible_fraction: self.visible_fraction,
            center_offset: self.center_offset,
            dragging: self.dragging,
            last_drag_y: self.last_drag_y,
            drag_remainder: self.drag_remainder,
            last_tick: self.last_tick,
            error: match self.error {
                Some(error) => Some(error@),
                None => None,
            },
            reference: self.liquidity_reference,
            metrics: self.liquidity_metrics,
            last_depth: self.last_depth,
            last_recalculation: self.last_liquidity_recalculation,
        }
    }
}

impl ChartModel {
    /// The view of all strikes around the spot price.
    pub open spec fn fitted(self) -> ChartModel {
        ChartModel {
            visible_fraction: Bits64 { bits: FULL_FRACTION_BITS },
            center_offset: 0,
            dragging: false,
            last_drag_y: None,
            drag_remainder: Bits32 { bits: 0 },
            ..self
        }
    }

    /// The liquidity calculated anew at a moment. Without a market, a snapshot and an
    /// order book there is none; `calculated` is where the figures are kept that they give,
    /// if any. The figures are of the moment of the order book.
    pub open spec fn recalculated(self, calculated: Option<usize>, at: u64)
        -> ChartModel {
        if self.reference is Some && self.snapshot is Some && self.last_depth is Some {
            ChartModel {
                metrics: match calculated {
                    Some(slot) => Some(
                        GexLiquidityMetrics {
                            slot,
                            reference: self.reference->0,
                            observed_at: self.last_depth->0.observed_at,
                        },
                    ),
                    None => None,
                },
                last_recalculation: Some(at),
                ..self
            }
        } else {
            ChartModel { metrics: None, ..self }
        }
    }

    /// Whether a new order book is worth a calculation: the first one, then one a minute.
    pub open spec fn due(self, received_at: u64) -> bool {
        &&& self.reference is Some
        &&& self.config.show_gamma_liquidity_panel
        &&& {
            ||| self.metrics is None
            ||| self.last_recalculation is None
            ||| units::sat_sub(received_at, self.last_recalculation->0)
                >= LIQUIDITY_RECALCULATION_INTERVAL_MS
        }
    }

    pub open spec fn with_config(
        self,
        config: Config,
        calculated: Option<usize>,
        now: u64,
    ) -> ChartModel {
        let configured = ChartModel { config, last_tick: now, ..self };
        if self.config.show_gamma_liquidity_panel != config.show_gamma_liquidity_panel {
            if config.show_gamma_liquidity_panel {
                ChartModel {
                    last_recalculation: None,
                    ..configured.recalculated(calculated, now)
                }
            } else {
                ChartModel { metrics: None, last_recalculation: None, ..configured }
            }
        } else if differ(self.config.liquidity_depth_bps, config.liquidity_depth_bps)
            || self.config.sign_model != config.sign_model {
            ChartModel { last_recalculation: None, ..configured }.recalculated(calculated, now)
        } else {
            configured
        }
    }

    pub open spec fn with_depth(
        self,
        depth: DepthBook,
        calculated: Option<usize>,
        received_at: u64,
    ) -> ChartModel {
        let known = ChartModel { last_depth: Some(depth), ..self };
        if self.due(received_at) {
            ChartModel { last_tick: received_at, ..known.recalculated(calculated, received_at) }
        } else {
            known
        }
    }

    pub open spec fn depth_state(self, now: UnixMs) -> LiquidityDepthState {
        if self.reference is None {
            LiquidityDepthState::NoReference
        } else if self.last_depth is None {
            LiquidityDepthState::WaitingForDepth
        } else if units::sat_sub(now.ms, self.last_depth->0.observed_at.ms)
            > LIQUIDITY_STALE_AFTER_MS {
            LiquidityDepthState::Stale
        } else if self.metrics is Some {
            LiquidityDepthState::Ready
        } else {
            LiquidityDepthState::InvalidDepth
        }
    }

    pub open spec fn zooms_in(self, range: Option<StrikeRange>) -> bool {
        match range {
            Some(range) => visible_rows(range.scaled, range.len) > least(
                range.len as int,
                MIN_VISIBLE_STRIKES as int,
            ),
            None => false,
        }
    }

    pub open spec fn zooms_out(self, range: Option<StrikeRange>) -> bool {
        match range {
            Some(range) => visible_rows(range.scaled, range.len) < configured_rows(
                self.config.max_visible_strikes,
                range.len,
            ),
            None => false,
        }
    }

    /// The view after a message, before its center is brought back to the rows.
    pub open spec fn viewed(self, message: Message, range: Option<StrikeRange>) -> ChartModel {
        match message {
            Message::ZoomIn(fraction) => if self.zooms_in(range) {
                ChartModel { visible_fraction: fraction, ..self }
            } else {
                self
            },
            Message::ZoomOut(fraction) => if self.zooms_out(range) {
                ChartModel { visible_fraction: fraction, ..self }
            } else {
                self
            },
            Message::AutoFit => self.fitted(),
            Message::Scrolled(rows) => ChartModel {
                center_offset: shifted_offset(self.center_offset, rows),
                ..self
            },
            Message::DragStarted => ChartModel {
                dragging: true,
                last_drag_y: None,
                drag_remainder: Bits32 { bits: 0 },
                ..self
            },
            Message::Dragged { y, rows, remainder } => if !self.dragging {
                self
            } else if self.last_drag_y is Some {
                ChartModel {
                    center_offset: shifted_offset(self.center_offset, rows),
                    drag_remainder: remainder,
                    last_drag_y: Some(y),
                    ..self
                }
            } else {
                ChartModel { last_drag_y: Some(y), ..self }
            },
            Message::DragEnded => ChartModel {
                dragging: false,
                last_drag_y: None,
                drag_remainder: Bits32 { bits: 0 },
                ..self
            },
            Message::SelectLiquidityReference => self,
        }
    }

    /// The state after a message.
    pub open spec fn updated(
        self,
        message: Message,
        range: Option<StrikeRange>,
        now: u64,
    ) -> ChartModel {
        let viewed = self.viewed(message, range);
        ChartModel {
            center_offset: clamped_offset(viewed.center_offset, range),
            last_tick: now,
            ..viewed
        }
    }
}

impl GexChart {
    /// A chart without data.
    pub fn new(
        underlying: OptionsUnderlying,
        config: Config,
        liquidity_reference: Option<LiquidityReference>,
        now: u64,
    ) -> (r: GexChart)
        ensures
            r@ == (ChartModel {
                underlying,
                snapshot: None,
                freshness: GexFreshness::Loading,
                config,
                visible_fraction: Bits64 { bits: FULL_FRACTION_BITS },
                center_offset: 0,
                dragging: false,
                last_drag_y: None,
                drag_remainder: Bits32 { bits: 0 },
                last_tick: now,
                error: None,
                reference: liquidity_reference,
                metrics: None,
                last_depth: None,
                last_recalculation: None,
            }),
    {
        GexChart {
            underlying,
            snapshot: None,
            freshness: GexFreshness::Loading,
            config,
            visible_fraction: Bits64 { bits: FULL_FRACTION_BITS },
            center_offset: 0,
            dragging: false,
            last_drag_y: None,
            drag_remainder: Bits32 { bits: 0 },
            last_tick: now,
            error: None,
            liquidity_reference,
            liquidity_metrics: None,
            last_depth: None,
            last_liquidity_recalculation: None,
        }
    }

    pub fn underlying(&self) -> (r: OptionsUnderlying)
        ensures
            r == self@.underlying,
    {
        self.underlying
    }

    pub fn snapshot(&self) -> (r: Option<GexSnapshot>)
        ensures
            r == self@.snapshot,
    {
        self.snapshot
    }

    pub fn freshness(&self) -> (r: GexFreshness)
        ensures
            r == self@.freshness,
    {
        self.freshness
    }

    pub fn error(&self) -> (r: Option<&String>)
        ensures
            match r {
                Some(error) => self@.error == Some(error@),
                None => self@.error is None,
            },
    {
        match &self.error {
            Some(error) => Some(error),
            None => None,
        }
    }

    pub fn config(&self) -> (r: Config)
        ensures
            r == self@.config,
    {
        self.config
    }

    pub fn visible_fraction(&self) -> (r: Bits64)
        ensures
            r == self@.visible_fraction,
    {
        self.visible_fraction
    }

    pub fn center_offset(&self) -> (r: i64)
        ensures
            r == self@.center_offset,
    {
        self.center_offset
    }

    /// The height of the pointer at the last movement, and what was left of it.
    pub fn drag(&self) -> (r: (Option<Bits32>, Bits32))
        ensures
            r == (self@.last_drag_y, self@.drag_remainder),
    {
        (self.last_drag_y, self.drag_remainder)
    }

    pub fn is_dragging(&self) -> (r: bool)
        ensures
            r == self@.dragging,
    {
        self.dragging
    }

    pub fn liquidity_reference(&self) -> (r: Option<LiquidityReference>)
        ensures
            r == self@.reference,
    {
        self.liquidity_reference
    }

    pub fn liquidity_metrics(&self) -> (r: Option<GexLiquidityMetrics>)
        ensures
            r == self@.metrics,
    {
        self.liquidity_metrics
    }

    pub fn last_depth(&self) -> (r: Option<DepthBook>)
        ensures
            r == self@.last_depth,
    {
        self.last_depth
    }

    pub fn last_liquidity_recalculation(&self) -> (r: Option<u64>)
        ensures
            r == self@.last_recalculation,
    {
        self.last_liquidity_recalculation
    }

    pub fn last_tick(&self) -> (r: u64)
        ensures
            r == self@.last_tick,
    {
        self.last_tick
    }

    fn auto_fit(&mut self)
        ensures
            final(self)@ == old(self)@.fitted(),
    {
        self.visible_fraction = Bits64 { bits: FULL_FRACTION_BITS };
        self.center_offset = 0;
        self.dragging = false;
        self.last_drag_y = None;
        self.drag_remainder = Bits32 { bits: 0 };
    }

    /// Turns to another underlying; everything known of the old one is dropped.
    pub fn set_underlying(&mut self, underlying: OptionsUnderlying)
        ensures
            old(self)@.underlying == underlying ==> final(self)@ == old(self)@,
            old(self)@.underlying != underlying ==> final(self)@ == (ChartModel {
                underlying,
                snapshot: None,
                freshness: GexFreshness::Loading,
                error: None,
                metrics: None,
                last_depth: None,
                last_recalculation: None,
                ..old(self)@.fitted()
            }),
    {
        if self.underlying != underlying {
            self.underlying = underlying;
            self.snapshot = None;
            self.freshness = GexFreshness::Loading;
            self.error = None;
            self.liquidity_metrics = None;
            self.last_depth = None;
            self.last_liquidity_recalculation = None;
            self.auto_fit();
        }
    }

    fn recalculate_liquidity(&mut self, calculated: Option<usize>, at: u64)
        ensures
            final(self)@ == old(self)@.recalculated(calculated, at),
    {
        match (self.liquidity_reference, self.snapshot, self.last_depth) {
            (Some(reference), Some(_), Some(depth)) => {
                self.last_liquidity_recalculation = Some(at);
                self.liquidity_metrics = match calculated {
                    Some(slot) => Some(
                        GexLiquidityMetrics { slot, reference, observed_at: depth.observed_at },
                    ),
                    None => None,
                };
            },
            _ => {
                self.liquidity_metrics = None;
            },
        }
    }

    /// Takes a snapshot; one of another underlying is not taken. `calculated` is where the
    /// figures with that snapshot, the market and the last order book are kept, if any.
    pub fn set_snapshot(
        &mut self,
        snapshot: Option<GexSnapshot>,
        freshness: GexFreshness,
        error: Option<String>,
        calculated: Option<usize>,
        now: u64,
    )
        ensures
            snapshot is Some && snapshot->0.underlying != old(self)@.underlying ==> final(self)@
                == old(self)@,
            !(snapshot is Some && snapshot->0.underlying != old(self)@.underlying) ==> {
                let taken = ChartModel {
                    snapshot,
                    freshness,
                    error: match error {
                        Some(error) => Some(error@),
                        None => None,
                    },
                    last_tick: now,
                    ..old(self)@
                };
                final(self)@ == if taken.metrics is None {
                    taken.recalculated(calculated, now)
                } else {
                    taken
                }
            },
    {
        if let Some(taken) = snapshot {
            if taken.underlying != self.underlying {
                return ;
            }
        }
        self.snapshot = snapshot;
        self.freshness = freshness;
        self.error = error;
        self.last_tick = now;
        if self.liquidity_metrics.is_none() {
            self.recalculate_liquidity(calculated, now);
        }
    }

    /// Takes another configuration. `calculated` is where the figures under it are kept, if
    /// any.
    pub fn set_config(
        &mut self,
        config: Config,
        calculated: Option<usize>,
        now: u64,
    )
        ensures
            final(self)@ == old(self)@.with_config(config, calculated, now),
    {
        let liquidity_changed: bool = figures_differ(
            self.config.liquidity_depth_bps,
            config.liquidity_depth_bps,
        ) || self.config.sign_model != config.sign_model;
        let panel_toggled: bool = self.config.show_gamma_liquidity_panel
            != config.show_gamma_liquidity_panel;
        self.config = config;
        self.last_tick = now;
        if panel_toggled {
            self.liquidity_metrics = None;
            self.last_liquidity_recalculation = None;
            if config.show_gamma_liquidity_panel {
                self.recalculate_liquidity(calculated, now);
                self.last_liquidity_recalculation = None;
            }
        } else if liquidity_changed {
            self.last_liquidity_recalculation = None;
            self.recalculate_liquidity(calculated, now);
        }
    }

    /// Turns to another market; its order book is still to come.
    pub fn set_liquidity_reference(&mut self, reference: Option<LiquidityReference>, now: u64)
        ensures
            final(self)@ == if old(self)@.reference == reference {
                old(self)@
            } else {
                ChartModel {
                    reference,
                    metrics: None,
                    last_depth: None,
                    last_recalculation: None,
                    last_tick: now,
                    ..old(self)@
                }
            },
    {
        let same: bool = match (self.liquidity_reference, reference) {
            (Some(a), Some(b)) => a == b,
            (None, None) => true,
            _ => false,
        };
        if same {
            return ;
        }
        self.liquidity_reference = reference;
        self.liquidity_metrics = None;
        self.last_depth = None;
        self.last_liquidity_recalculation = None;
        self.last_tick = now;
    }

    /// Whether a new order book is worth a calculation.
    pub fn recalculation_due(&self, received_at: u64) -> (r: bool)
        ensures
            r == self@.due(received_at),
    {
        if self.liquidity_reference.is_none() || !self.config.show_gamma_liquidity_panel {
            return false;
        }
        let elapsed: bool = match self.last_liquidity_recalculation {
            Some(last) => saturating_sub_u64(received_at, last)
                >= LIQUIDITY_RECALCULATION_INTERVAL_MS,
            None => true,
        };
        self.liquidity_metrics.is_none() || elapsed
    }

    /// Takes an order book. `calculated` is where the figures with it are kept, if there are
    /// any and a calculation is due.
    pub fn insert_depth(
        &mut self,
        depth: DepthBook,
        calculated: Option<usize>,
        received_at: u64,
    )
        ensures
            final(self)@ == old(self)@.with_depth(depth, calculated, received_at),
    {
        let due: bool = self.recalculation_due(received_at);
        self.last_depth = Some(depth);
        if due {
            self.recalculate_liquidity(calculated, received_at);
            self.last_tick = received_at;
        }
    }

    pub fn liquidity_depth_state(&self, now: UnixMs) -> (r: LiquidityDepthState)
        ensures
            r == self@.depth_state(now),
    {
        if self.liquidity_reference.is_none() {
            return LiquidityDepthState::NoReference;
        }
        match self.last_depth {
            Some(depth) => {
                if saturating_sub_u64(now.ms, depth.observed_at.ms) > LIQUIDITY_STALE_AFTER_MS {
                    LiquidityDepthState::Stale
                } else if self.liquidity_metrics.is_some() {
                    LiquidityDepthState::Ready
                } else {
                    LiquidityDepthState::InvalidDepth
                }
            },
            None => LiquidityDepthState::WaitingForDepth,
        }
    }

    /// Whether fewer rows can be shown.
    pub fn can_zoom_in(&self, range: Option<StrikeRange>) -> (r: bool)
        ensures
            r == self@.zooms_in(range),
    {
        match range {
            Some(range) => {
                let floor: usize = if range.len < MIN_VISIBLE_STRIKES {
                    range.len
                } else {
                    MIN_VISIBLE_STRIKES
                };
                visible_count(range.scaled, range.len) > floor
            },
            None => false,
        }
    }

    /// Whether more rows can be shown.
    pub fn can_zoom_out(&self, range: Option<StrikeRange>) -> (r: bool)
        ensures
            r == self@.zooms_out(range),
    {
        match range {
            Some(range) => visible_count(range.scaled, range.len) < configured_count(
                self.config.max_visible_strikes,
                range.len,
            ),
            None => false,
        }
    }

    /// Changes the view; `range` are the strikes within the price range, none without a
    /// snapshot.
    pub fn update(&mut self, message: Message, range: Option<StrikeRange>, now: u64) -> (r: Action)
        requires
            range is Some ==> range->0.wf(),
        ensures
            r == Action::ViewChanged,
            final(self)@ == old(self)@.updated(message, range, now),
    {
        match message {
            Message::ZoomIn(fraction) => {
                if self.can_zoom_in(range) {
                    self.visible_fraction = fraction;
                }
            },
            Message::ZoomOut(fraction) => {
                if self.can_zoom_out(range) {
                    self.visible_fraction = fraction;
                }
            },
            Message::AutoFit => {
                self.auto_fit();
            },
            Message::Scrolled(rows) => {
                self.center_offset = shift_offset(self.center_offset, rows);
            },
            Message::DragStarted => {
                self.dragging = true;
                self.last_drag_y = None;
                self.drag_remainder = Bits32 { bits: 0 };
            },
            Message::Dragged { y, rows, remainder } => {
                if self.dragging {
                    if self.last_drag_y.is_some() {
                        self.center_offset = shift_offset(self.center_offset, rows);
                        self.drag_remainder = remainder;
                    }
                    self.last_drag_y = Some(y);
                }
            },
            Message::DragEnded => {
                self.dragging = false;
                self.last_drag_y = None;
                self.drag_remainder = Bits32 { bits: 0 };
            },
            Message::SelectLiquidityReference => {},
        }
        self.center_offset = clamp_offset(self.center_offset, range);
        self.last_tick = now;
        Action::ViewChanged
    }

    /// The visible rows as a range of places within the strikes in the price range.
    pub fn visible_strikes(&self, range: StrikeRange) -> (r: (usize, usize))
        requires
            range.wf(),
        ensures
            range.len == 0 ==> r == (0usize, 0usize),
            range.len > 0 ==> {
                &&& r.0 == first_row(range, self@.center_offset)
                &&& r.1 == r.0 + visible_rows(range.scaled, range.len)
                &&& r.1 <= range.len
            },
    {
        if range.len == 0 {
            return (0, 0);
        }
        let count: usize = visible_count(range.scaled, range.len);
        let moved: i128 = range.spot_index as i128 + self.center_offset as i128;
        let center: usize = if moved < 0 {
            0
        } else if moved > (range.len - 1) as i128 {
            range.len - 1
        } else {
            moved as usize
        };
        let half: usize = count / 2;
        let wanted: usize = if center > half {
            center - half
        } else {
            0
        };
        let last: usize = range.len - count;
        let start: usize = if wanted < last {
            wanted
        } else {
            last
        };
        (start, start + count)
    }
}

/// The view is never empty while there are strikes, and shows its center.
pub proof fn view_shows_its_center(range: StrikeRange, offset: i64)
    requires
        range.wf(),
        range.len > 0,
    ensures
        visible_rows(range.scaled, range.len) > 0,
        first_row(range, offset) <= center_row(range, offset) < first_row(range, offset)
            + visible_rows(range.scaled, range.len),
        0 <= first_row(range, offset),
        first_row(range, offset) + visible_rows(range.scaled, range.len) <= range.len,
{
}

/// After every message the center is a strike, or the offset is zero where there are
/// none.
pub proof fn center_stays_on_a_strike(
    chart: ChartModel,
    message: Message,
    range: StrikeRange,
    now: u64,
)
    requires
        range.wf(),
    ensures
        range.len > 0 ==> 0 <= range.spot_index + chart.updated(
            message,
            Some(range),
            now,
        ).center_offset < range.len,
        range.len == 0 ==> chart.updated(message, Some(range), now).center_offset == 0,
{
}

/// Scrolling does not zoom.
pub proof fn scrolling_does_not_zoom(
    chart: ChartModel,
    rows: i64,
    range: Option<StrikeRange>,
    now: u64,
)
    ensures
        chart.updated(Message::Scrolled(rows), range, now).visible_fraction
            == chart.visible_fraction,
{
}

/// Order books that follow each other within a minute do not put off the next
/// calculation: it comes a minute after the last one, whatever came between.
pub proof fn books_do_not_put_off_a_calculation(
    chart: ChartModel,
    between: DepthBook,
    ignored: Option<usize>,
    received_at: u64,
    later: u64,
)
    requires
        !chart.due(received_at),
    ensures
        chart.with_depth(between, ignored, received_at).due(later) == chart.due(later),
        chart.with_depth(between, ignored, received_at).metrics == chart.metrics,
        chart.with_depth(between, ignored, received_at).last_depth == Some(between),
{
}

/// An order book whose calculation is due gives figures that carry its moment and the
/// market; without figures, none of an earlier book are kept. The next calculation is due
/// after the interval, counted from this book.
pub proof fn due_book_gives_its_figures(
    chart: ChartModel,
    depth: DepthBook,
    calculated: Option<usize>,
    received_at: u64,
)
    requires
        chart.due(received_at),
        chart.snapshot is Some,
    ensures
        ({
            let after = chart.with_depth(depth, calculated, received_at);
            &&& after.last_depth == Some(depth)
            &&& after.last_recalculation == Some(received_at)
            &&& after.last_tick == received_at
            &&& match calculated {
                Some(slot) => after.metrics == Some(
                    GexLiquidityMetrics {
                        slot,
                        reference: chart.reference->0,
                        observed_at: depth.observed_at,
                    },
                ) && forall|later: u64| #[trigger]
                    after.due(later) == (units::sat_sub(later, received_at)
                        >= LIQUIDITY_RECALCULATION_INTERVAL_MS),
                None => after.metrics is None,
            }
        }),
{
}

/// The first order book of a market is calculated at once.
pub proof fn first_book_is_immediate(chart: ChartModel, received_at: u64)
    requires
        chart.reference is Some,
        chart.config.show_gamma_liquidity_panel,
        chart.metrics is None || chart.last_recalculation is None,
    ensures
        chart.due(received_at),
{
}

} // verus!
