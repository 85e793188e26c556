//! What new candles, figures and settings change on a chart of candles.
use vstd::prelude::*;
use rustc_hash::FxHashSet;
use crate::chart::kline::market::{Basis, ChartModel, KlineChart};
use crate::chart::kline::trades;
use crate::chart::kline::trades::{trades_of_bucket, trades_of_new_buckets};
use crate::connector::gex_keys::OptionsUnderlying;
use crate::connector::gex_proxy::GexFreshness;
use crate::connector::records::Trade;
use crate::text::{char_list, starts_with};
use crate::units;
use crate::units::{larger, UnixMs};

verus! {

/// How a request ended.
#[derive(Clone, Copy, Debug, PartialEq, Eq, Structural)]
pub enum RequestOutcome {
    Completed,
    /// No data was received.
    Failed,
}

pub open spec fn outcome_of(records: nat) -> RequestOutcome {
    if records == 0 {
        RequestOutcome::Failed
    } else {
        RequestOutcome::Completed
    }
}

/// An answer without data is a failure.
pub fn request_outcome(records: usize) -> (r: RequestOutcome)
    ensures
        r == outcome_of(records as nat),
{
    if records == 0 {
        RequestOutcome::Failed
    } else {
        RequestOutcome::Completed
    }
}

/// What a new state of the last candle changes.
#[derive(Debug)]
pub struct LatestUpdate {
    /// The held trades of a candle that has just come up.
    pub bucket_trades: Vec<Trade>,
    /// The newest candle on the horizontal axis.
    pub latest_x: u64,
}

/// What fetched candles change.
#[derive(Debug)]
pub struct HistoryUpdate {
    /// The held trades of the candles that were not known.
    pub bucket_trades: Vec<Trade>,
    pub outcome: RequestOutcome,
}

impl KlineChart {
    /// A new state of the last candle; `known` tells whether the series has the candle.
    /// Charts of ticks do not take it.
    pub fn update_latest_kline(&self, time: UnixMs, known: bool, latest_x: u64) -> (r: Option<
        LatestUpdate,
    >)
        ensures
            match self@.basis {
                Basis::Time(interval) => r matches Some(update) && update.latest_x
                    == units::max_u64(latest_x, time.ms) && update.bucket_trades@ == (if known {
                    Seq::empty()
                } else {
                    trades::of_bucket(self@.raw_trades, time.ms, interval)
                }),
                Basis::Tick(_) => r is None,
            },
    {
        match self.basis() {
            Basis::Time(interval) => {
                let bucket_trades: Vec<Trade> = if known {
                    Vec::new()
                } else {
                    trades_of_bucket(self.raw_trades(), time.ms, interval)
                };
                Some(LatestUpdate { bucket_trades, latest_x: larger(latest_x, time.ms) })
            },
            Basis::Tick(_) => None,
        }
    }

    /// Fetched candles; `known` are the candles that the series has. Charts of ticks do not
    /// take them.
    pub fn insert_hist_klines(&self, times: &Vec<u64>, known: &FxHashSet<u64>) -> (r: Option<
        HistoryUpdate,
    >)
        ensures
            match self@.basis {
                Basis::Time(interval) => r matches Some(update) && update.outcome == outcome_of(
                    times@.len(),
                ) && update.bucket_trades@ == trades::of_buckets(
                    self@.raw_trades,
                    times@.to_set().difference(known@),
                    interval,
                ),
                Basis::Tick(_) => r is None,
            },
    {
        match self.basis() {
            Basis::Time(interval) => Some(
                HistoryUpdate {
                    bucket_trades: trades_of_new_buckets(
                        self.raw_trades(),
                        times,
                        known,
                        interval,
                    ),
                    outcome: request_outcome(times.len()),
                },
            ),
            Basis::Tick(_) => None,
        }
    }

    /// A failed request; a request for trades is then no longer under way.
    pub fn mark_request_failed(&mut self, for_trades: bool)
        ensures
            for_trades ==> final(self)@ == (ChartModel {
                fetching_trades: false,
                ..old(self)@
            }),
            !for_trades ==> final(self)@ == old(self)@,
    {
        if for_trades {
            self.set_fetching_trades(false);
        }
    }
}

/// What tells one snapshot from another.
#[derive(Clone, Copy, Debug, PartialEq, Eq, Structural)]
pub struct SnapshotMark {
    pub observed_at: UnixMs,
    pub underlying: OptionsUnderlying,
}

/// What tells one state of a series from another: its length and its last moment.
#[derive(Clone, Copy, Debug, PartialEq, Eq, Structural)]
pub struct SeriesMark {
    pub len: usize,
    pub last: Option<i64>,
}

/// A series and how it stands.
#[derive(Debug)]
pub struct SeriesState {
    pub mark: SeriesMark,
    pub freshness: GexFreshness,
    pub error: Option<String>,
}

pub open spec fn error_text(error: Option<String>) -> Option<Seq<char>> {
    match error {
        Some(error) => Some(error@),
        None => None,
    }
}

impl SeriesState {
    /// Whether nothing has changed.
    pub open spec fn same(self, other: SeriesState) -> bool {
        &&& self.mark == other.mark
        &&& self.freshness == other.freshness
        &&& error_text(self.error) == error_text(other.error)
    }

    pub fn is_same(&self, other: &SeriesState) -> (r: bool)
        ensures
            r == self.same(*other),
    {
        let same_error: bool = match (&self.error, &other.error) {
            (Some(a), Some(b)) => {
                let first = char_list(a.as_str());
                let second = char_list(b.as_str());
                let equal: bool = first.len() == second.len() && starts_with(
                    &first,
                    &second,
                );
                proof {
                    if equal {
                        assert(first@.take(second@.len() as int) =~= first@);
                    } else if first@ == second@ {
                        assert(first@.take(second@.len() as int) =~= second@);
                    }
                }
                equal
            },
            (None, None) => true,
            _ => false,
        };
        self.mark.len == other.mark.len && same_moment(self.mark.last, other.mark.last)
            && self.freshness == other.freshness && same_error
    }
}

fn same_moment(a: Option<i64>, b: Option<i64>) -> (r: bool)
    ensures
        r == (a == b),
{
    match (a, b) {
        (Some(a), Some(b)) => a == b,
        (None, None) => true,
        _ => false,
    }
}

/// The gamma levels over a chart.
pub struct GexOverlay {
    pub snapshot: Option<SnapshotMark>,
    pub measured: SeriesState,
    pub proxy: SeriesState,
}

/// The moment of a snapshot.
pub open spec fn moment_of(snapshot: Option<SnapshotMark>) -> Option<UnixMs> {
    match snapshot {
        Some(mark) => Some(mark.observed_at),
        None => None,
    }
}

impl GexOverlay {
    /// Takes a snapshot and tells whether the chart is drawn anew: one of the same moment
    /// and underlying changes nothing.
    pub fn set_gex_snapshot(&mut self, snapshot: Option<SnapshotMark>) -> (redraw: bool)
        ensures
            redraw == (old(self).snapshot != snapshot),
            *final(self) == (GexOverlay { snapshot, ..*old(self) }),
    {
        let same: bool = match (self.snapshot, snapshot) {
            (Some(a), Some(b)) => a == b,
            (None, None) => true,
            _ => false,
        };
        if same {
            return false;
        }
        self.snapshot = snapshot;
        true
    }

    /// Takes all data and tells whether the chart is drawn anew: data with the same
    /// moments, lengths and states changes nothing.
    pub fn set_gex_overlay_data(
        &mut self,
        snapshot: Option<SnapshotMark>,
        measured: SeriesState,
        proxy: SeriesState,
    ) -> (redraw: bool)
        ensures
            redraw == !(moment_of(old(self).snapshot) == moment_of(snapshot)
                && old(self).measured.same(measured) && old(self).proxy.same(proxy)),
            *final(self) == if redraw {
                GexOverlay { snapshot, measured, proxy }
            } else {
                *old(self)
            },
    {
        let same_snapshot: bool = match (self.snapshot, snapshot) {
            (Some(a), Some(b)) => a.observed_at == b.observed_at,
            (None, None) => true,
            _ => false,
        };
        if same_snapshot && self.measured.is_same(&measured) && self.proxy.is_same(&proxy) {
            return false;
        }
        self.snapshot = snapshot;
        self.measured = measured;
        self.proxy = proxy;
        true
    }
}

/// An indicator of a chart.
#[derive(Clone, Copy, Debug, PartialEq, Eq, Structural)]
pub struct IndicatorSlot {
    /// The chart of this kind can have it.
    pub allowed: bool,
    /// The market has the data for it.
    pub offered: bool,
    /// It is drawn over the candles and not below them.
    pub overlay: bool,
    pub active: bool,
}

impl IndicatorSlot {
    /// It has a panel of its own.
    pub open spec fn has_panel(self) -> bool {
        self.offered && !self.overlay && self.active
    }
}

/// The number of panels below the candles.
pub open spec fn panel_count(slots: Seq<IndicatorSlot>) -> nat
    decreases slots.len(),
{
    if slots.len() == 0 {
        0
    } else {
        panel_count(slots.drop_last()) + if slots.last().has_panel() {
            1nat
        } else {
            0
        }
    }
}

fn count_panels(slots: &Vec<IndicatorSlot>) -> (r: usize)
    ensures
        r == panel_count(slots@),
{
    let mut count: usize = 0;
    let mut i: usize = 0;
    assert(slots@.take(0) =~= Seq::<IndicatorSlot>::empty());
    while i < slots.len()
        invariant
            i <= slots@.len(),
            count <= i,
            count == panel_count(slots@.take(i as int)),
        decreases slots@.len() - i,
    {
        assert(slots@.take(i + 1).drop_last() =~= slots@.take(i as int));
        assert(slots@.take(i + 1).last() == slots@[i as int]);
        if slots[i].offered && !slots[i].overlay && slots[i].active {
            count = count + 1;
        }
        i = i + 1;
    }
    assert(slots@.take(slots@.len() as int) =~= slots@);
    count
}

/// Switches an indicator on or off, and tells the number of panels before and after;
/// nothing for one that the chart cannot have.
pub fn toggle_indicator(slots: &mut Vec<IndicatorSlot>, at: usize) -> (r: Option<(usize, usize)>)
    requires
        at < old(slots)@.len(),
    ensures
        ({
            let slot = old(slots)@[at as int];
            let toggled = old(slots)@.update(
                at as int,
                IndicatorSlot { active: !slot.active, ..slot },
            );
            if slot.allowed {
                &&& final(slots)@ == toggled
                &&& r == Some(
                    (panel_count(old(slots)@) as usize, panel_count(toggled) as usize),
                )
            } else {
                final(slots)@ == old(slots)@ && r is None
            }
        }),
{
    let mut slot: IndicatorSlot = slots[at];
    if !slot.allowed {
        return None;
    }
    let before: usize = count_panels(slots);
    slot.active = !slot.active;
    slots.set(at, slot);
    let after: usize = count_panels(slots);
    Some((before, after))
}

/// The enabled indicators that have a panel, in their order.
pub open spec fn panels(slots: Seq<IndicatorSlot>, enabled: Seq<usize>) -> Seq<usize>
    decreases enabled.len(),
{
    if enabled.len() == 0 {
        Seq::empty()
    } else {
        let before = panels(slots, enabled.drop_last());
        let at = enabled.last();
        if at < slots.len() && slots[at as int].allowed && slots[at as int].has_panel() {
            before.push(at)
        } else {
            before
        }
    }
}

/// The enabled indicators that have a panel, in their order; none while nothing is
/// visible.
pub fn view_indicators(
    slots: &Vec<IndicatorSlot>,
    enabled: &Vec<usize>,
    earliest: u64,
    latest: u64,
) -> (r: Vec<usize>)
    ensures
        r@ == if earliest > latest {
            Seq::empty()
        } else {
            panels(slots@, enabled@)
        },
{
    let mut r: Vec<usize> = Vec::new();
    if earliest > latest {
        return r;
    }
    let mut i: usize = 0;
    assert(enabled@.take(0) =~= Seq::<usize>::empty());
    while i < enabled.len()
        invariant
            i <= enabled@.len(),
            r@ == panels(slots@, enabled@.take(i as int)),
        decreases enabled@.len() - i,
    {
        assert(enabled@.take(i + 1).drop_last() =~= enabled@.take(i as int));
        assert(enabled@.take(i + 1).last() == enabled@[i as int]);
        let at: usize = enabled[i];
        if at < slots.len() && slots[at].allowed && slots[at].offered && !slots[at].overlay
            && slots[at].active {
            r.push(at);
        }
        i = i + 1;
    }
    assert(enabled@.take(enabled@.len() as int) =~= enabled@);
    r
}

/// Toggling an indicator twice leaves everything as it was.
pub proof fn toggling_twice_changes_nothing(slots: Seq<IndicatorSlot>, at: int)
    requires
        0 <= at < slots.len(),
    ensures
        ({
            let once = slots.update(at, IndicatorSlot { active: !slots[at].active, ..slots[at] });
            once.update(at, IndicatorSlot { active: !once[at].active, ..once[at] }) == slots
        }),
{
    let once = slots.update(at, IndicatorSlot { active: !slots[at].active, ..slots[at] });
    assert(once.update(at, IndicatorSlot { active: !once[at].active, ..once[at] }) =~= slots);
}

} // verus!
