//! What a chart fetches and keeps, stated on ranges of time, candles and trades.
use vstd::prelude::*;
use crate::chart::kline::market;
use crate::chart::kline::market::{
    Basis, ChartKind, ChartModel, Config, FetchRange, FetchStep, FetchView, KlineChart,
    TradeFetchOutcome,
};
use crate::chart::kline::ranges;
use crate::chart::kline::sessions;
use crate::chart::kline::trades;
use crate::connector::intervals;
use crate::connector::records::Trade;
use crate::units::{Timeframe, UnixMs};

verus! {

/// A chart without candles asks first for the last 450 of them, up to now.
pub proof fn empty_charts_ask_for_candles(
    chart: ChartModel,
    view: FetchView,
    timeframe: Timeframe,
    bubbles: Option<(UnixMs, UnixMs)>,
)
    requires
        chart.basis == Basis::Time(timeframe),
        view.empty,
        view.now.ms >= 450 * timeframe.ms(),
    ensures
        chart.steps(view, bubbles).len() > 0,
        chart.steps(view, bubbles)[0] matches FetchStep::Request(FetchRange::Kline(from, to))
            && to == view.now && to.ms - from.ms == 450 * timeframe.ms(),
{
    let first = chart.initial_step(view, timeframe);
    assert(first.len() == 1);
    assert(market::INITIAL_CANDLES * timeframe.ms() == 450 * timeframe.ms());
}

/// Where candles before the first one are visible, they are asked for, and one more screen of
/// them; where none are, none are asked for.
pub proof fn visible_candles_are_asked_for(chart: ChartModel, view: FetchView, visible: (u64, u64))
    requires
        visible.0 <= visible.1,
    ensures
        visible.0 < view.kline_earliest.ms ==> {
            let steps = chart.visible_step(view, visible);
            &&& steps.len() == 1
            &&& steps[0] matches FetchStep::Request(FetchRange::Kline(from, to)) && {
                &&& to == view.kline_earliest
                &&& from.ms <= visible.0
                &&& visible.0 >= visible.1 - visible.0 ==> visible.0 - from.ms == visible.1
                    - visible.0
                &&& visible.0 < visible.1 - visible.0 ==> from.ms == 0
            }
        },
        visible.0 >= view.kline_earliest.ms ==> chart.visible_step(view, visible).len() == 0,
{
}

/// Candles before the first one are asked for where the average or the bubbles need them, from
/// the earlier of the two on.
pub proof fn overlays_ask_for_their_candles(
    chart: ChartModel,
    view: FetchView,
    timeframe: Timeframe,
    visible: (u64, u64),
    bubbles: Option<(UnixMs, UnixMs)>,
)
    ensures
        ({
            let steps = chart.overlay_step(view, timeframe, visible, bubbles);
            let needed = sessions::vwap_start(
                sessions::window_end(view.kline_latest.ms, timeframe.ms(), view.now.ms),
                visible.0,
                chart.config.vwap_anchor_ms,
            );
            let bubble_candle = (bubbles->0).0.ms - (bubbles->0).0.ms % timeframe.ms();
            let lacks_vwap = chart.overlays.vwap && needed < view.kline_earliest.ms;
            let lacks_bubbles = bubbles is Some && bubble_candle < view.kline_earliest.ms;
            &&& steps.len() == (if lacks_vwap || lacks_bubbles {
                1int
            } else {
                0
            })
            &&& lacks_vwap || lacks_bubbles ==> (steps[0] matches FetchStep::Request(
                FetchRange::Kline(from, to),
            ) && {
                &&& to == view.kline_earliest
                &&& lacks_vwap ==> from.ms <= needed
                &&& lacks_bubbles ==> from.ms <= bubble_candle
                &&& (lacks_vwap && from.ms == needed) || (lacks_bubbles && from.ms
                    == bubble_candle)
            })
        }),
{
    if bubbles is Some {
        crate::chart::kline::intake_laws::moments_lie_in_their_bucket(
            (bubbles->0).0.ms,
            timeframe,
        );
    }
}

/// Some moment of `[from, to)` is not covered.
pub open spec fn lacks(covered: Seq<(u64, u64)>, from: int, to: int) -> bool {
    exists|t: int| from <= t < to && !#[trigger] intervals::covers(covered, t)
}

/// A footprint asks for the trades of visible candles as long as some of them are not covered
/// up to the last closed candle, none are under way and they may be fetched; it asks for the
/// oldest gap.
pub proof fn footprints_ask_for_missing_trades(
    chart: ChartModel,
    view: FetchView,
    timeframe: Timeframe,
    from: UnixMs,
    to: UnixMs,
)
    requires
        chart.kind == ChartKind::Footprint,
        !chart.fetching_trades,
        view.trade_fetch_enabled,
        view.suggested_trades == Some((from, to)),
    ensures
        ({
            let target = sessions::historical_target(
                view.kline_latest.ms,
                timeframe.ms(),
                view.now.ms,
            );
            let end = if to.ms <= target {
                to.ms
            } else {
                target
            };
            let steps = chart.footprint_step(view, timeframe);
            &&& steps.len() <= 1
            &&& steps.len() == 1 <==> lacks(chart.covered_trades, from.ms as int, end as int)
            &&& steps.len() == 1 ==> (steps[0] matches FetchStep::Request(
                FetchRange::Trades(a, b),
            ) && {
                &&& from.ms <= a.ms < b.ms <= end
                &&& forall|t: int|
                    a.ms <= t < b.ms ==> !#[trigger] intervals::covers(chart.covered_trades, t)
                &&& forall|t: int|
                    from.ms <= t < a.ms ==> #[trigger] intervals::covers(chart.covered_trades, t)
                &&& b.ms == end || intervals::covers(chart.covered_trades, b.ms as int)
            })
        }),
{
    let target = sessions::historical_target(view.kline_latest.ms, timeframe.ms(), view.now.ms);
    let end = if to.ms <= target {
        to.ms
    } else {
        target
    };
    ranges::gaps_exist(chart.covered_trades, from.ms, end);
    match ranges::oldest_gap(chart.covered_trades, from.ms, end) {
        Some(gap) => {
            assert(!intervals::covers(chart.covered_trades, gap.0 as int));
        },
        None => {},
    }
}

/// Only footprints ask for the trades of visible candles, only while none are under way, and
/// only where that is allowed and the series suggests a range.
pub proof fn footprint_requests_have_their_reasons(
    chart: ChartModel,
    view: FetchView,
    timeframe: Timeframe,
)
    requires
        chart.kind != ChartKind::Footprint || chart.fetching_trades || !view.trade_fetch_enabled
            || view.suggested_trades is None,
    ensures
        chart.footprint_step(view, timeframe).len() == 0,
{
}

/// The trades that overlays need reach from the first candle or from the start of the first
/// visible session, and with an average from the start of its session, to the last closed
/// candle, and without an average no further than the visible range and the last candle.
pub proof fn overlays_need_the_trades_of_their_sessions(
    chart: ChartModel,
    view: FetchView,
    timeframe: Timeframe,
    visible: (u64, u64),
)
    ensures
        ({
            let (from, to) = chart.overlay_trades(view, timeframe, visible);
            let target = sessions::historical_target(
                view.kline_latest.ms,
                timeframe.ms(),
                view.now.ms,
            );
            let profile = sessions::session_start(
                visible.0,
                chart.config.session_volume_profile_interval_ms,
            );
            let average = sessions::vwap_start(
                sessions::window_end(view.kline_latest.ms, timeframe.ms(), view.now.ms),
                visible.0,
                chart.config.vwap_anchor_ms,
            );
            let earliest = view.kline_earliest.ms;
            &&& from >= earliest
            &&& from > earliest ==> {
                &&& from <= visible.0
                &&& chart.overlays.session_volume_profile ==> from <= profile
                &&& chart.overlays.vwap ==> from <= average
                &&& from == visible.0 || (chart.overlays.session_volume_profile && from == profile)
                    || (chart.overlays.vwap && from == average)
            }
            &&& chart.overlays.vwap ==> to == target
            &&& !chart.overlays.vwap ==> {
                &&& to <= target
                &&& to < target ==> to >= visible.1 && to >= view.kline_latest.ms && (to
                    == visible.1 || to == view.kline_latest.ms)
            }
        }),
{
}

/// A chart of candles with an average or session profiles asks for trades as long as some of
/// those that it needs are not covered and none are under way: at most an hour at once, at the
/// end of a gap.
pub proof fn overlays_ask_for_missing_trades(
    chart: ChartModel,
    view: FetchView,
    timeframe: Timeframe,
    visible: (u64, u64),
)
    requires
        chart.kind == ChartKind::Candles,
        chart.overlays.session_volume_profile || chart.overlays.vwap,
        !chart.fetching_trades,
    ensures
        ({
            let (from, to) = chart.overlay_trades(view, timeframe, visible);
            let steps = chart.trades_step(view, timeframe, visible);
            &&& steps.len() <= 1
            &&& steps.len() == 1 <==> lacks(chart.covered_trades, from as int, to as int)
            &&& steps.len() == 1 ==> (steps[0] matches FetchStep::Request(
                FetchRange::Trades(a, b),
            ) && {
                &&& from <= a.ms < b.ms <= to
                &&& b.ms - a.ms <= 3_600_000
                &&& forall|t: int|
                    a.ms <= t < b.ms ==> !#[trigger] intervals::covers(chart.covered_trades, t)
                &&& b.ms == to || intervals::covers(chart.covered_trades, b.ms as int)
                &&& b.ms - a.ms < 3_600_000 ==> a.ms == from || intervals::covers(
                    chart.covered_trades,
                    a.ms - 1,
                )
            })
        }),
{
    let (from, to) = chart.overlay_trades(view, timeframe, visible);
    let covered = chart.covered_trades;
    ranges::gaps_exist(covered, from, to);
    match ranges::newest_gap(covered, from, to) {
        Some(gap) => {
            assert(!intervals::covers(covered, gap.0 as int));
            let other = ranges::oldest_gap(covered, from, to)->0;
            assert(!intervals::covers(covered, other.0 as int));
            if other.0 > from {
                assert(intervals::covers(covered, other.0 - 1));
            }
            if gap.1 < to {
                assert(intervals::covers(covered, gap.1 as int));
            }
        },
        None => {},
    }
}

/// Without an average and session profiles, on footprints, and while trades are under way,
/// overlays ask for none.
pub proof fn overlay_requests_have_their_reasons(
    chart: ChartModel,
    view: FetchView,
    timeframe: Timeframe,
    visible: (u64, u64),
)
    requires
        chart.kind != ChartKind::Candles || chart.fetching_trades || (
        !chart.overlays.session_volume_profile && !chart.overlays.vwap),
    ensures
        chart.trades_step(view, timeframe, visible).len() == 0,
{
}

/// Bubbles are asked for as long as some of their window up to the last closed candle is not
/// covered: the newest quarter of an hour of it that is missing.
pub proof fn missing_bubbles_are_asked_for(
    chart: ChartModel,
    view: FetchView,
    timeframe: Timeframe,
    from: UnixMs,
    to: UnixMs,
)
    requires
        chart.kind == ChartKind::Candles,
        chart.overlays.volume_bubbles,
        chart.config.volume_bubbles.enabled,
        !chart.fetching_trades,
    ensures
        ({
            let target = sessions::historical_target(
                view.kline_latest.ms,
                timeframe.ms(),
                view.now.ms,
            );
            let end = if to.ms <= target {
                to.ms
            } else {
                target
            };
            let covered = chart.covered_summaries;
            let found = chart.bubble_gap(view, timeframe, Some((from, to)));
            &&& found is Some <==> lacks(covered, from.ms as int, end as int)
            &&& found matches Some(gap) ==> {
                &&& from.ms <= gap.0 < gap.1 <= end
                &&& gap.1 - gap.0 <= 900_000
                &&& forall|t: int| gap.0 <= t < gap.1 ==> !#[trigger] intervals::covers(covered, t)
                &&& forall|t: int| gap.1 <= t < end ==> #[trigger] intervals::covers(covered, t)
                &&& gap.1 - gap.0 < 900_000 ==> gap.0 == from.ms || intervals::covers(
                    covered,
                    gap.0 - 1,
                )
            }
        }),
{
    let target = sessions::historical_target(view.kline_latest.ms, timeframe.ms(), view.now.ms);
    let end = if to.ms <= target {
        to.ms
    } else {
        target
    };
    let covered = chart.covered_summaries;
    ranges::gaps_exist(covered, from.ms, end);
    match ranges::newest_gap(covered, from.ms, end) {
        Some(gap) => {
            assert(!intervals::covers(covered, gap.0 as int));
        },
        None => {},
    }
}

/// Bubbles are asked for on charts of candles that show them, and not while trades are under
/// way.
pub proof fn bubble_requests_have_their_reasons(
    chart: ChartModel,
    view: FetchView,
    timeframe: Timeframe,
    bubbles: Option<(UnixMs, UnixMs)>,
)
    requires
        chart.kind != ChartKind::Candles || chart.fetching_trades || !chart.overlays.volume_bubbles
            || !chart.config.volume_bubbles.enabled || bubbles is None,
    ensures
        chart.bubble_gap(view, timeframe, bubbles) is None,
{
}

/// What is tried comes in one order: candles, trades, bubbles, what the indicators ask for, and
/// candles missing in between. Bubbles that can be computed from held trades end the list; they
/// can where raw trades are wanted and one covered range holds them. Charts of ticks try
/// nothing, and without a size only the first candles are asked for.
pub proof fn requests_are_tried_in_order(
    chart: ChartModel,
    view: FetchView,
    bubbles: Option<(UnixMs, UnixMs)>,
)
    ensures
        chart.basis is Tick ==> chart.steps(view, bubbles).len() == 0,
        chart.basis matches Basis::Time(timeframe) ==> {
            let steps = chart.steps(view, bubbles);
            match view.visible {
                None => steps == chart.initial_step(view, timeframe),
                Some(visible) => {
                    let early = chart.initial_step(view, timeframe) + chart.visible_step(
                        view,
                        visible,
                    ) + chart.overlay_step(view, timeframe, visible, bubbles)
                        + chart.footprint_step(view, timeframe) + chart.trades_step(
                        view,
                        timeframe,
                        visible,
                    );
                    let asked = view.indicator_ranges@.map_values(
                        |range: FetchRange| FetchStep::Request(range),
                    );
                    let between = chart.integrity_step(view, timeframe, visible);
                    match chart.bubble_gap(view, timeframe, bubbles) {
                        None => steps == early + asked + between,
                        Some(gap) => {
                            let held = chart.config.volume_bubbles.use_raw_trades_when_available
                                && exists|i: int|
                                0 <= i < chart.covered_trades.len() && (
                                #[trigger] chart.covered_trades[i]).0 <= gap.0 && gap.1
                                    <= chart.covered_trades[i].1;
                            &&& held ==> steps == early.push(
                                FetchStep::SummarizeRawTrades(
                                    UnixMs { ms: gap.0 },
                                    UnixMs { ms: gap.1 },
                                ),
                            )
                            &&& !held ==> {
                                &&& steps.len() == early.len() + 1 + asked.len() + between.len()
                                &&& steps.take(early.len() as int) == early
                                &&& steps.skip(early.len() as int + 1) == asked + between
                                &&& steps[early.len() as int] matches FetchStep::Request(
                                    FetchRange::BubbleSummary {
                                        from,
                                        to,
                                        timeframe_ms,
                                        price_step,
                                        cluster_window_ms,
                                        cluster_price_ticks,
                                        ..
                                    },
                                ) && {
                                    &&& from.ms == gap.0 && to.ms == gap.1
                                    &&& timeframe_ms == timeframe.ms()
                                    &&& price_step == chart.tick_size
                                    &&& cluster_window_ms
                                        == chart.config.volume_bubbles.cluster_window_ms
                                    &&& cluster_price_ticks
                                        == chart.config.volume_bubbles.cluster_price_ticks
                                }
                            }
                        },
                    }
                },
            }
        },
{
    if chart.basis is Time && view.visible is Some {
        let timeframe = chart.basis->Time_0;
        let visible = view.visible->0;
        let early = chart.early_steps(view, timeframe, visible, bubbles);
        let asked = market::requests(view.indicator_ranges@);
        let between = chart.integrity_step(view, timeframe, visible);
        let steps = chart.steps(view, bubbles);
        match chart.bubble_gap(view, timeframe, bubbles) {
            None => {
                assert(steps =~= early + asked + between);
            },
            Some(gap) => {
                if chart.can_summarize(gap) {
                    assert(steps =~= early.push(
                        FetchStep::SummarizeRawTrades(UnixMs { ms: gap.0 }, UnixMs { ms: gap.1 }),
                    ));
                } else {
                    assert(steps.take(early.len() as int) =~= early);
                    assert(steps.skip(early.len() as int + 1) =~= asked + between);
                }
            },
        }
    }
}

/// A summary keeps as many clusters per candle as are shown, and as many as it is asked to.
pub proof fn summaries_keep_what_is_shown(config: market::VolumeBubbleConfig)
    ensures
        config.candidates() >= config.max_candidates_per_candle,
        config.candidates() >= config.max_bubbles_per_bar,
        config.candidates() == config.max_candidates_per_candle || config.candidates()
            == config.max_bubbles_per_bar,
{
}

proof fn lemma_extremes(moments: Seq<UnixMs>, a: u64, b: u64)
    ensures
        moments.len() == 0 ==> market::oldest(moments, a) == a && market::newest(moments, b) == b,
        forall|i: int|
            0 <= i < moments.len() ==> market::oldest(moments, a) <= (#[trigger] moments[i]).ms
                <= market::newest(moments, b),
        moments.len() > 0 ==> moments.contains(UnixMs { ms: market::oldest(moments, a) })
            && moments.contains(UnixMs { ms: market::newest(moments, b) }),
    decreases moments.len(),
{
    if moments.len() > 1 {
        let front = moments.drop_last();
        lemma_extremes(front, a, b);
        let last = moments.len() - 1;
        assert(moments[last] == moments.last());
        assert forall|i: int| 0 <= i < moments.len() implies market::oldest(moments, a) <= (
        #[trigger] moments[i]).ms <= market::newest(moments, b) by {
            if i < last {
                assert(front[i] == moments[i]);
            }
        }
        let low = UnixMs { ms: market::oldest(front, a) };
        let high = UnixMs { ms: market::newest(front, b) };
        let i = choose|i: int| 0 <= i < front.len() && front[i] == low;
        let j = choose|j: int| 0 <= j < front.len() && front[j] == high;
        assert(moments[i] == low);
        assert(moments[j] == high);
    } else if moments.len() == 1 {
        assert(moments[0] == UnixMs { ms: market::oldest(moments, a) });
    }
}

/// Candles missing in between are asked for with one candle on either side of the first and
/// the last of them.
pub proof fn missing_candles_are_asked_for(
    chart: ChartModel,
    view: FetchView,
    timeframe: Timeframe,
    visible: (u64, u64),
    missing: Vec<UnixMs>,
    first: int,
    last: int,
)
    requires
        view.missing_klines == Some(missing),
        0 <= first < missing@.len(),
        0 <= last < missing@.len(),
        forall|i: int|
            0 <= i < missing@.len() ==> missing@[first].ms <= (#[trigger] missing@[i]).ms
                <= missing@[last].ms,
        missing@[first].ms >= timeframe.ms(),
        missing@[last].ms + timeframe.ms() <= 0xffff_ffff_ffff_ffff,
    ensures
        chart.integrity_step(view, timeframe, visible).len() == 1,
        chart.integrity_step(view, timeframe, visible)[0] matches FetchStep::Request(
            FetchRange::Kline(from, to),
        ) && from.ms + timeframe.ms() == missing@[first].ms && to.ms - timeframe.ms()
            == missing@[last].ms,
{
    lemma_extremes(missing@, visible.0, visible.1);
    let low = UnixMs { ms: market::oldest(missing@, visible.0) };
    let high = UnixMs { ms: market::newest(missing@, visible.1) };
    let i = choose|i: int| 0 <= i < missing@.len() && missing@[i] == low;
    let j = choose|j: int| 0 <= j < missing@.len() && missing@[j] == high;
    assert(missing@[first].ms <= missing@[i].ms);
    assert(missing@[j].ms <= missing@[last].ms);
}

/// Nothing is asked for in between where nothing is missing.
pub proof fn complete_series_ask_for_nothing(
    chart: ChartModel,
    view: FetchView,
    timeframe: Timeframe,
    visible: (u64, u64),
)
    requires
        view.missing_klines is None,
    ensures
        chart.integrity_step(view, timeframe, visible).len() == 0,
{
}

/// Of a finished fetch everything is verified up to its end, or up to the moment before the
/// tail that was not reached. What is verified is then covered, and nothing else becomes so.
pub proof fn fetched_trades_are_covered(
    before: ChartModel,
    from: UnixMs,
    to: UnixMs,
    outcome: TradeFetchOutcome,
    verified: Option<(UnixMs, UnixMs)>,
    after: ChartModel,
    t: int,
)
    requires
        market::backfilled(before, Some(FetchRange::Trades(from, to)), outcome, verified, after),
    ensures
        ({
            let end = match outcome.unfilled_tail {
                Some(tail) => if tail.0.ms > to.ms {
                    to.ms as int
                } else if tail.0.ms == 0 {
                    0
                } else {
                    tail.0.ms - 1
                },
                None => to.ms as int,
            };
            &&& intervals::covers(after.covered_trades, t) <==> intervals::covers(
                before.covered_trades,
                t,
            ) || from.ms <= t < end
            &&& verified is Some <==> from.ms < end
            &&& verified matches Some(range) ==> range.0 == from && range.1.ms == end
            &&& after.raw_trades == before.raw_trades
            &&& after.covered_summaries == before.covered_summaries
        }),
{
}

/// The volume profile of a range is ready where one covered range of trades holds it up to the
/// last closed candle, or where it lies behind that candle altogether. On ticks it never is.
pub proof fn profiles_need_their_trades(chart: ChartModel, from: u64, to: u64, latest: u64, now: u64)
    ensures
        chart.basis is Tick ==> !chart.profile_ready(from, to, latest, now),
        chart.basis matches Basis::Time(timeframe) ==> {
            let target = sessions::historical_target(latest, timeframe.ms(), now);
            let end = if to <= target {
                to
            } else {
                target
            };
            chart.profile_ready(from, to, latest, now) <==> end <= from || exists|i: int|
                0 <= i < chart.covered_trades.len() && (#[trigger] chart.covered_trades[i]).0
                    <= from && end <= chart.covered_trades[i].1
        },
{
}

/// Settings that leave the window, the session, the number of clusters and the use of raw
/// trades as they are do not have bubbles fetched anew; any of these does, where bubbles are
/// shown.
pub proof fn only_what_matters_refetches_bubbles(chart: ChartModel, config: Config)
    ensures
        ({
            let was = chart.config.volume_bubbles;
            let is = config.volume_bubbles;
            let shown = chart.kind == ChartKind::Candles && chart.overlays.volume_bubbles
                && is.enabled;
            let same = was.history_window_minutes == is.history_window_minutes && was.session
                == is.session && was.candidates() == is.candidates()
                && was.use_raw_trades_when_available == is.use_raw_trades_when_available;
            &&& !shown || same ==> !chart.refetches_bubbles(config)
            &&& shown && !same ==> chart.refetches_bubbles(config)
        }),
{
}

/// Another session of profiles or another anchor of the average has trades looked for at once,
/// where the overlay is shown, and nothing else does.
pub proof fn only_what_matters_wakes_overlays(chart: ChartModel, config: Config)
    ensures
        ({
            let profiles = chart.overlays.session_volume_profile
                && chart.config.session_volume_profile_interval_ms
                != config.session_volume_profile_interval_ms;
            let average = chart.overlays.vwap && chart.config.vwap_anchor_ms
                != config.vwap_anchor_ms;
            &&& chart.kind == ChartKind::Candles && profiles ==> chart.wakes_overlays(config)
            &&& chart.kind == ChartKind::Candles && average ==> chart.wakes_overlays(config)
            &&& chart.kind == ChartKind::Footprint ==> !chart.wakes_overlays(config)
            &&& !profiles && !average ==> !chart.wakes_overlays(config)
        }),
{
}

/// Of the past a chart of time takes in the new trades whose candle the live feed has not
/// filled, in order. A chart of ticks takes in none.
pub proof fn the_past_does_not_double_the_live_feed(chart: ChartModel, incoming: Seq<Trade>)
    ensures
        chart.basis is Tick ==> KlineChart::historical(chart, incoming).len() == 0,
        chart.basis matches Basis::Time(interval) ==> KlineChart::historical(chart, incoming)
            == trades::accepted(chart.raw_trades, incoming).filter(
            |trade: Trade|
                !chart.live_trade_buckets.contains(
                    (trade.time.ms - trade.time.ms % interval.ms()) as u64,
                ),
        ),
{
    if chart.basis is Time {
        crate::chart::kline::intake_laws::buckets_divide_the_past(
            trades::accepted(chart.raw_trades, incoming),
            chart.live_trade_buckets,
            chart.basis->Time_0,
        );
    }
}

/// Bubbles have a window on charts of time that show them: the last minutes of the session
/// that Rome's clock shows just before the end of the latest candle or now.
pub proof fn bubbles_have_a_window_in_their_session(chart: ChartModel, view: FetchView)
    ensures
        chart.basis is Tick || !chart.overlays.volume_bubbles
            || !chart.config.volume_bubbles.enabled ==> chart.bubble_window(view) is None,
        chart.basis matches Basis::Time(timeframe) ==> chart.overlays.volume_bubbles
            && chart.config.volume_bubbles.enabled ==> {
            let end = sessions::window_end(view.kline_latest.ms, timeframe.ms(), view.now.ms);
            let last = if end == 0 {
                0
            } else {
                end - 1
            };
            let start = sessions::bubble_session_start(
                last as i64,
                chart.config.volume_bubbles.session,
            );
            &&& start is None ==> chart.bubble_window(view) is None
            &&& start is Some ==> chart.bubble_window(view) == sessions::window_in_session(
                end,
                sessions::window_ms(chart.config.volume_bubbles.history_window_minutes),
                start->0,
            )
        },
{
}

} // verus!
