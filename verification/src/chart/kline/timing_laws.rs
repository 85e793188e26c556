//! What sessions, gaps, layers, the crosshair and panels promise, stated on moments, ranges and
//! places themselves.
use vstd::prelude::*;
use crate::chart::kline::crosshair;
use crate::chart::kline::crosshair::CandleAxis;
use crate::chart::kline::layers;
use crate::chart::kline::layers::{Layer, LayerInput};
use crate::chart::kline::market::ChartKind;
use crate::chart::kline::moments;
use crate::chart::kline::ranges;
use crate::chart::kline::sessions;
use crate::chart::kline::sessions::VolumeBubbleSession;
use crate::chart::kline::summaries;
use crate::chart::kline::summaries::CandleTrades;
use crate::chart::kline::updates;
use crate::chart::kline::updates::IndicatorSlot;
use crate::connector::intervals;
use crate::connector::records::{BubbleCandidate, Trade};
use crate::order;
use crate::text;
use crate::units::{Timeframe, UnixMs};

verus! {

/// The data of an anchored average begins at or before the open of the session of the last
/// moment and at or before that of the first visible one, and with one of the two.
pub proof fn averages_cover_their_session(target_to: u64, visible_earliest: u64, anchor_ms: u64)
    requires
        target_to > 0,
        anchor_ms > 0,
    ensures
        ({
            let from = sessions::vwap_start(target_to, visible_earliest, anchor_ms);
            let last = sessions::session_start((target_to - 1) as u64, anchor_ms);
            let first = sessions::session_start(visible_earliest, anchor_ms);
            &&& from <= last
            &&& visible_earliest < target_to ==> from <= first && (from == last || from == first)
            &&& visible_earliest >= target_to ==> from == last
        }),
{
}

/// A fetch of the past ends with the end of the last candle once that candle has closed, and
/// with its start before.
pub proof fn fetches_stop_at_the_last_closed_candle(latest: u64, timeframe_ms: u64, now: u64)
    requires
        latest + timeframe_ms <= 0xffff_ffff_ffff_ffff,
    ensures
        now >= latest + timeframe_ms ==> sessions::historical_target(latest, timeframe_ms, now)
            == latest + timeframe_ms,
        now < latest + timeframe_ms ==> sessions::historical_target(latest, timeframe_ms, now)
            == latest,
{
}

/// A session that is chosen opens at its time in Rome: the Asian one at midnight, the one of
/// London at nine, the one of New York at half past three in the afternoon. Without a choice
/// the latest of these that has opened counts.
pub proof fn sessions_open_in_rome(minutes: int)
    requires
        0 <= minutes < 24 * 60,
    ensures
        sessions::opening_of(VolumeBubbleSession::Asian) == (0u32, 0u32),
        sessions::opening_of(VolumeBubbleSession::London) == (9u32, 0u32),
        sessions::opening_of(VolumeBubbleSession::NewYork) == (15u32, 30u32),
        forall|session: VolumeBubbleSession|
            session != VolumeBubbleSession::Auto ==> #[trigger] sessions::active_session(
                session,
                minutes,
            ) == session,
        ({
            let active = sessions::active_session(VolumeBubbleSession::Auto, minutes);
            let opened = |session: VolumeBubbleSession|
                {
                    let opening = sessions::opening_of(session);
                    opening.0 * 60 + opening.1 <= minutes
                };
            &&& active != VolumeBubbleSession::Auto
            &&& opened(active)
            &&& active == VolumeBubbleSession::Asian ==> !opened(VolumeBubbleSession::London)
            &&& active == VolumeBubbleSession::London ==> !opened(VolumeBubbleSession::NewYork)
        }),
{
}

/// An opening counts where a clock shows it, else the moment itself, and never one before the
/// epoch.
pub proof fn openings_count_where_a_clock_shows_them(opening: i64, millis: i64)
    ensures
        opening >= 0 ==> sessions::opening_ms(Some(opening), millis) == opening,
        opening < 0 ==> sessions::opening_ms(Some(opening), millis) == 0,
        sessions::opening_ms(None, millis) == sessions::opening_ms(Some(millis), opening),
{
}

/// The window of bubbles ends with the latest candle or now, whichever is first. It is as many
/// minutes long as asked for, at least one, as far as it lies in the session, and there is none
/// where nothing is left of it.
pub proof fn windows_lie_in_the_session(
    latest: u64,
    timeframe_ms: u64,
    now: u64,
    minutes: u64,
    session_start: u64,
)
    requires
        latest + timeframe_ms <= 0xffff_ffff_ffff_ffff,
        1 <= minutes,
        minutes * 60_000 <= 0xffff_ffff_ffff_ffff,
    ensures
        sessions::window_end(latest, timeframe_ms, now) == (if latest + timeframe_ms <= now {
            latest + timeframe_ms
        } else {
            now as int
        }),
        sessions::window_ms(minutes) == minutes * 60_000,
        sessions::window_ms(0) == 60_000,
        ({
            let to = sessions::window_end(latest, timeframe_ms, now);
            match sessions::window_in_session(to, sessions::window_ms(minutes), session_start) {
                Some((from, end)) => {
                    &&& end.ms == to
                    &&& from.ms < to
                    &&& from.ms >= session_start
                    &&& from.ms + minutes * 60_000 >= to
                    &&& from.ms == session_start || from.ms == 0 || from.ms + minutes * 60_000
                        == to
                },
                None => session_start >= to,
            }
        }),
{
}

/// A moment is covered where it lies in one of the ranges, its start included and its end not.
pub proof fn ranges_cover_their_moments(covered: Seq<(u64, u64)>, t: int)
    ensures
        intervals::covers(covered, t) <==> exists|i: int|
            0 <= i < covered.len() && (#[trigger] covered[i]).0 <= t < covered[i].1,
{
}

/// What is fetched next is the newest gap; where that is a tail of at most a minute at the live
/// edge, it is the oldest one. A gap `[a, b)` is called newest where all of it is open, all
/// behind it is covered and it cannot begin earlier, and oldest the other way round.
pub proof fn the_newest_gap_is_fetched_unless_it_is_a_short_tail(
    covered: Seq<(u64, u64)>,
    from: u64,
    to: u64,
    newest: (u64, u64),
    oldest: (u64, u64),
)
    requires
        from <= newest.0 < newest.1 <= to,
        forall|t: int|
            newest.0 <= t < newest.1 ==> !#[trigger] intervals::covers(covered, t),
        forall|t: int| newest.1 <= t < to ==> #[trigger] intervals::covers(covered, t),
        newest.0 == from || intervals::covers(covered, newest.0 - 1),
        from <= oldest.0 < oldest.1 <= to,
        forall|t: int|
            oldest.0 <= t < oldest.1 ==> !#[trigger] intervals::covers(covered, t),
        forall|t: int| from <= t < oldest.0 ==> #[trigger] intervals::covers(covered, t),
        oldest.1 == to || intervals::covers(covered, oldest.1 as int),
    ensures
        ranges::newest_gap(covered, from, to) == Some(newest),
        ranges::oldest_gap(covered, from, to) == Some(oldest),
        newest.1 == to && newest.1 - newest.0 <= 60_000 ==> ranges::selected_gap(covered, from, to)
            == Some(oldest),
        newest.1 < to || newest.1 - newest.0 > 60_000 ==> ranges::selected_gap(covered, from, to)
            == Some(newest),
{
    assert(ranges::is_newest_gap(covered, from, to, Some(newest)));
    assert(ranges::is_oldest_gap(covered, from, to, Some(oldest)));
    ranges::newest_gap_is_unique(covered, from, to, Some(newest));
    ranges::oldest_gap_is_unique(covered, from, to, Some(oldest));
}

/// Nothing is fetched where every moment is covered.
pub proof fn nothing_is_fetched_twice(covered: Seq<(u64, u64)>, from: u64, to: u64)
    requires
        forall|t: int| from <= t < to ==> #[trigger] intervals::covers(covered, t),
    ensures
        ranges::newest_gap(covered, from, to) is None,
        ranges::oldest_gap(covered, from, to) is None,
        ranges::selected_gap(covered, from, to) is None,
{
    assert(ranges::is_newest_gap(covered, from, to, None));
    assert(ranges::is_oldest_gap(covered, from, to, None));
    ranges::newest_gap_is_unique(covered, from, to, None);
    ranges::oldest_gap_is_unique(covered, from, to, None);
}

/// The place of a layer from back to front.
pub open spec fn depth(layer: Layer) -> int {
    match layer {
        Layer::PointsOfControl => 0,
        Layer::Clusters => 1,
        Layer::GexBackground => 2,
        Layer::SessionProfiles => 3,
        Layer::Vwap => 4,
        Layer::Candles => 5,
        Layer::Bubbles(_, _) => 6,
        Layer::GexForeground => 7,
        Layer::LastPrice => 8,
    }
}

/// A chart of candles draws each layer that is switched on once, from back to front, and the
/// candles and the last price always. Levels need data: a snapshot for those in front, a
/// snapshot or a proxy for those behind. Bubbles are drawn for the visible part of their
/// window.
pub proof fn candle_charts_draw_what_is_switched_on(input: LayerInput)
    requires
        input.kind == ChartKind::Candles,
    ensures
        ({
            let drawn = layers::layers_of(input);
            &&& forall|a: int, b: int|
                0 <= a < b < drawn.len() ==> depth(#[trigger] drawn[a]) < depth(
                    #[trigger] drawn[b],
                )
            &&& drawn.contains(Layer::Candles) && drawn.contains(Layer::LastPrice)
            &&& !drawn.contains(Layer::PointsOfControl) && !drawn.contains(Layer::Clusters)
            &&& drawn.contains(Layer::GexBackground) <==> input.gex_levels_enabled && (
            input.has_gex_snapshot || input.has_gex_proxy)
            &&& drawn.contains(Layer::GexForeground) <==> input.gex_levels_enabled
                && input.has_gex_snapshot
            &&& drawn.contains(Layer::SessionProfiles) <==> input.overlays.session_volume_profile
            &&& drawn.contains(Layer::Vwap) <==> input.overlays.vwap
            &&& forall|from: u64, to: u64|
                #[trigger] drawn.contains(Layer::Bubbles(from, to)) <==> {
                    &&& input.bubbles_enabled && input.overlays.volume_bubbles
                    &&& input.bubble_window is Some
                    &&& from >= input.earliest && from >= (input.bubble_window->0).0.ms
                    &&& from == input.earliest || from == (input.bubble_window->0).0.ms
                    &&& to <= input.latest && to <= (input.bubble_window->0).1.ms
                    &&& to == input.latest || to == (input.bubble_window->0).1.ms
                }
        }),
{
    let a = layers::layer_if(
        input.gex_levels_enabled && (input.has_gex_snapshot || input.has_gex_proxy),
        Layer::GexBackground,
    );
    let b = layers::layer_if(input.overlays.session_volume_profile, Layer::SessionProfiles);
    let c = layers::layer_if(input.overlays.vwap, Layer::Vwap);
    let d = seq![Layer::Candles];
    let e = layers::bubble_layer(input);
    let f = layers::layer_if(
        input.gex_levels_enabled && input.has_gex_snapshot,
        Layer::GexForeground,
    );
    let g = seq![Layer::LastPrice];
    lemma_in_front(Seq::empty(), a, 2);
    assert(Seq::<Layer>::empty() + a =~= a);
    lemma_in_front(a, b, 3);
    lemma_in_front(a + b, c, 4);
    lemma_in_front(a + b + c, d, 5);
    lemma_in_front(a + b + c + d, e, 6);
    lemma_in_front(a + b + c + d + e, f, 7);
    lemma_in_front(a + b + c + d + e + f, g, 8);
    assert(layers::layers_of(input) == a + b + c + d + e + f + g);
    lemma_only(a, Layer::GexBackground);
    lemma_only(b, Layer::SessionProfiles);
    lemma_only(c, Layer::Vwap);
    lemma_only(d, Layer::Candles);
    lemma_only(f, Layer::GexForeground);
    lemma_only(g, Layer::LastPrice);
    if e.len() > 0 {
        lemma_only(e, e[0]);
    }
}

/// The layers are in order, and none of them is in front of a depth.
spec fn ascends_to(list: Seq<Layer>, top: int) -> bool {
    &&& forall|a: int, b: int|
        0 <= a < b < list.len() ==> depth(#[trigger] list[a]) < depth(#[trigger] list[b])
    &&& forall|a: int| 0 <= a < list.len() ==> depth(#[trigger] list[a]) < top
}

proof fn lemma_in_front(list: Seq<Layer>, added: Seq<Layer>, at: int)
    requires
        ascends_to(list, at),
        added.len() <= 1,
        added.len() == 1 ==> depth(added[0]) == at,
    ensures
        ascends_to(list + added, at + 1),
        forall|layer: Layer| #[trigger]
            (list + added).contains(layer) == (list.contains(layer) || added.contains(layer)),
{
    let all = list + added;
    assert forall|layer: Layer| #[trigger]
        all.contains(layer) == (list.contains(layer) || added.contains(layer)) by {
        if list.contains(layer) {
            let i = choose|i: int| 0 <= i < list.len() && list[i] == layer;
            assert(all[i] == layer);
        }
        if added.contains(layer) {
            assert(all[list.len() as int] == layer);
        }
        if all.contains(layer) {
            let i = choose|i: int| 0 <= i < all.len() && all[i] == layer;
            if i < list.len() {
                assert(list[i] == layer);
            } else {
                assert(added[0] == layer);
            }
        }
    }
}

proof fn lemma_only(list: Seq<Layer>, layer: Layer)
    requires
        list.len() <= 1,
        list.len() == 1 ==> list[0] == layer,
    ensures
        forall|other: Layer| #[trigger]
            list.contains(other) == (list.len() == 1 && other == layer),
{
    assert(list.len() == 1 ==> list.contains(layer)) by {
        if list.len() == 1 {
            assert(list[0] == layer);
        }
    }
}

/// A footprint draws its points of control, its clusters and the last price.
pub proof fn footprints_draw_three_layers(input: LayerInput)
    requires
        input.kind == ChartKind::Footprint,
    ensures
        layers::layers_of(input) == seq![Layer::PointsOfControl, Layer::Clusters, Layer::LastPrice],
{
}

proof fn lemma_last_within(times: Seq<u64>, n: int, from: u64, to: u64)
    requires
        0 <= n <= times.len() <= usize::MAX,
    ensures
        match crosshair::last_within(times, n, from, to) {
            Some(i) => i < n && from <= times[i as int] <= to && forall|j: int|
                i < j < n ==> !(from <= #[trigger] times[j] <= to),
            None => forall|j: int| 0 <= j < n ==> !(from <= #[trigger] times[j] <= to),
        },
    decreases n,
{
    if n > 0 && !(from <= times[n - 1] <= to) {
        lemma_last_within(times, n - 1, from, to);
    }
}

/// On a chart of time the crosshair speaks of the candle that begins at its moment. Between
/// two visible candles it speaks of the earlier one, right of the visible range of the last
/// visible candle, and without a moment of the newest.
pub proof fn the_crosshair_speaks_of_the_candle_before_it(
    times: Vec<u64>,
    at: u64,
    visible: (u64, u64),
    i: int,
)
    requires
        times@.len() <= usize::MAX,
        0 <= i < times@.len(),
        forall|a: int, b: int|
            0 <= a < b < times@.len() ==> (#[trigger] times@[a]) < (#[trigger] times@[b]),
    ensures
        times@[i] == at ==> crosshair::crosshair_at(CandleAxis::Time(times), Some(at), visible)
            == Some(i as usize),
        visible.0 <= times@[i] < at <= visible.1 && (i + 1 == times@.len() || times@[i + 1] > at)
            ==> crosshair::crosshair_at(CandleAxis::Time(times), Some(at), visible) == Some(
            i as usize,
        ),
        visible.0 <= times@[i] <= visible.1 < at && (i + 1 == times@.len() || (times@[i + 1]
            > visible.1 && !times@.contains(at))) ==> crosshair::crosshair_at(
            CandleAxis::Time(times),
            Some(at),
            visible,
        ) == Some(i as usize),
        crosshair::crosshair_at(CandleAxis::Time(times), None, visible) == Some(
            (times@.len() - 1) as usize,
        ),
        times@[times@.len() - 1] < at && (forall|j: int|
            0 <= j < times@.len() ==> !(visible.0 <= #[trigger] times@[j] <= visible.1))
            ==> crosshair::crosshair_at(CandleAxis::Time(times), Some(at), visible) == Some(
            (times@.len() - 1) as usize,
        ),
{
    let n = times@.len() as int;
    lemma_last_within(times@, n, at, at);
    lemma_last_within(times@, n, visible.0, at);
    lemma_last_within(times@, n, visible.0, visible.1);
    assert forall|j: int| 0 <= j < n implies (j < i ==> #[trigger] times@[j] < times@[i]) && (i < j
        ==> times@[i] < times@[j]) by {}
    if i + 1 < n {
        assert forall|j: int| i + 1 < j < n implies times@[i + 1] < #[trigger] times@[j] by {}
    }
    match crosshair::last_within(times@, n, at, at) {
        Some(k) => {
            assert(times@.contains(at)) by {
                assert(times@[k as int] == at);
            }
        },
        None => {},
    }
}

/// On a chart of ticks positions are counted from the newest candle in trades. Beyond the
/// oldest candle the crosshair speaks of the visible one nearest to the newest.
pub proof fn the_crosshair_counts_ticks_from_the_newest(
    count: usize,
    interval: u16,
    at: u64,
    visible: (u64, u64),
    back: u64,
)
    requires
        interval > 0,
        back < count,
        back * interval <= at < back * interval + interval,
    ensures
        crosshair::crosshair_at(CandleAxis::Tick { count, interval }, Some(at), visible) == Some(
            (count - 1 - back) as usize,
        ),
        crosshair::crosshair_at(CandleAxis::Tick { count, interval }, None, visible) == Some(
            (count - 1) as usize,
        ),
{
    let i = interval as u64;
    vstd::arithmetic::div_mod::lemma_fundamental_div_mod_converse(
        at as int,
        i as int,
        back as int,
        at - back * i,
    );
}

/// At a position beyond the oldest candle of a chart of ticks the crosshair speaks of the
/// visible candle nearest to the newest, as long as the position lies in the visible range, and
/// of none left of it.
pub proof fn the_crosshair_stays_on_visible_ticks(
    count: usize,
    interval: u16,
    at: u64,
    visible: (u64, u64),
    back: u64,
)
    requires
        interval > 0,
        at >= count * interval,
        back < count,
        back * interval <= visible.0 < back * interval + interval,
    ensures
        visible.0 <= at <= visible.1 ==> crosshair::crosshair_at(
            CandleAxis::Tick { count, interval },
            Some(at),
            visible,
        ) == Some((count - 1 - back) as usize),
        visible.0 <= at && visible.1 < at ==> crosshair::crosshair_at(
            CandleAxis::Tick { count, interval },
            Some(at),
            visible,
        ) is None,
{
    let i = interval as u64;
    vstd::arithmetic::div_mod::lemma_fundamental_div_mod_converse(
        visible.0 as int,
        i as int,
        back as int,
        visible.0 - back * i,
    );
    vstd::arithmetic::div_mod::lemma_div_is_ordered(count * i, at as int, i as int);
    vstd::arithmetic::div_mod::lemma_div_by_multiple(count as int, i as int);
}

/// A moment is written with its day in front, and behind its time of day the milliseconds in
/// three digits.
pub proof fn moments_are_written_to_the_millisecond(date: Seq<char>, ms: u64)
    ensures
        ({
            let written = moments::dated(date, ms);
            let n = written.len() as int;
            &&& n >= date.len() + 9
            &&& written.take(date.len() as int) == date
            &&& written.skip(n - 4) == " UTC"@
            &&& written[n - 8] == '.'
            &&& text::digits_value(written.subrange(n - 7, n - 4)) == ms % 1_000
        }),
{
    reveal_strlit(" UTC");
    reveal_strlit(" ");
    reveal_strlit(".");
    let written = moments::dated(date, ms);
    let n = written.len() as int;
    let fraction = text::padded(ms as nat % 1_000, 3);
    text::lemma_padded_len(ms as nat % 1_000, 3);
    assert(vstd::arithmetic::power::pow(10, 3) == 1_000) by {
        reveal_with_fuel(vstd::arithmetic::power::pow, 4);
    }
    text::padded_digits_give_the_number(ms as nat % 1_000, 3);
    assert(written.subrange(n - 7, n - 4) =~= fraction);
    assert(written.take(date.len() as int) =~= date);
    assert(written.skip(n - 4) =~= " UTC"@);
}

/// Requests without data have failed, all others have not.
pub proof fn empty_answers_are_failures(records: nat)
    ensures
        updates::outcome_of(records) == updates::RequestOutcome::Failed <==> records == 0,
{
}

/// The panels are those of the active indicators that the market offers and that are not drawn
/// over the candles; their number is that of the slots that have one.
pub proof fn panels_are_counted(slots: Seq<IndicatorSlot>)
    ensures
        updates::panel_count(slots) == slots.filter(
            |slot: IndicatorSlot| slot.active && slot.offered && !slot.overlay,
        ).len(),
    decreases slots.len(),
{
    reveal(Seq::filter);
    if slots.len() > 0 {
        panels_are_counted(slots.drop_last());
    }
}

/// The shown panels are the enabled indicators that have one, in their order.
pub proof fn enabled_panels_are_shown(slots: Seq<IndicatorSlot>, enabled: Seq<usize>)
    ensures
        updates::panels(slots, enabled) == enabled.filter(
            |at: usize|
                at < slots.len() && slots[at as int].allowed && slots[at as int].active
                    && slots[at as int].offered && !slots[at as int].overlay,
        ),
    decreases enabled.len(),
{
    reveal(Seq::filter);
    if enabled.len() > 0 {
        enabled_panels_are_shown(slots, enabled.drop_last());
    }
}

/// A group of trades holds those of its candle within the range, in order: from the start of
/// the candle to its end.
pub proof fn groups_hold_the_trades_of_their_candle(
    trades: Seq<Trade>,
    from: UnixMs,
    to: UnixMs,
    interval: Timeframe,
    groups: Seq<CandleTrades>,
    k: int,
)
    requires
        summaries::is_partition(summaries::in_range(trades, from, to), interval, groups),
        0 <= k < groups.len(),
    ensures
        ({
            let start = groups[k].candle_time.ms;
            &&& groups[k].trades@ == trades.filter(
                |trade: Trade| from.ms <= trade.time.ms <= to.ms,
            ).filter(|trade: Trade| start <= trade.time.ms < start + interval.ms())
            &&& start as int % interval.ms() as int == 0
            &&& groups[k].trades@.len() > 0
        }),
{
    let start = groups[k].candle_time.ms;
    let inside = summaries::in_range(trades, from, to);
    let first = groups[k].trades@[0];
    crate::chart::kline::intake_laws::moments_lie_in_their_bucket(first.time.ms, interval);
    lemma_bucket_of_first(inside, start, interval);
    crate::chart::kline::intake_laws::a_bucket_holds_the_trades_of_its_time(
        inside,
        start,
        interval,
    );
}

proof fn lemma_bucket_of_first(list: Seq<Trade>, bucket: u64, interval: Timeframe)
    ensures
        crate::chart::kline::trades::of_bucket(list, bucket, interval).len() > 0
            ==> crate::chart::kline::trades::bucket_start(
            crate::chart::kline::trades::of_bucket(list, bucket, interval)[0].time.ms,
            interval,
        ) == bucket,
    decreases list.len(),
{
    if list.len() > 0 {
        lemma_bucket_of_first(list.drop_last(), bucket, interval);
    }
}

/// The kept clusters are as many as asked for or all of them, come from largest to smallest,
/// and none that was left out is larger.
pub proof fn the_largest_clusters_are_kept(
    candidates: Seq<BubbleCandidate>,
    max: usize,
    kept: Seq<BubbleCandidate>,
) -> (at: Seq<usize>)
    requires
        summaries::are_largest(candidates, max, kept),
        candidates.len() <= usize::MAX,
        forall|i: int|
            0 <= i < candidates.len() ==> (#[trigger] candidates[i]).total_qty.units >= 0,
    ensures
        kept.len() == if candidates.len() < max {
            candidates.len()
        } else {
            max as nat
        },
        at.len() == candidates.len(),
        forall|k: int| 0 <= k < at.len() ==> (#[trigger] at[k]) < candidates.len(),
        forall|p: usize| p < candidates.len() ==> #[trigger] at.contains(p),
        forall|k: int| 0 <= k < kept.len() ==> #[trigger] kept[k] == candidates[at[k] as int],
        forall|a: int, b: int|
            0 <= a < b < at.len() ==> {
                let x = candidates[(#[trigger] at[a]) as int].total_qty.units;
                let y = candidates[(#[trigger] at[b]) as int].total_qty.units;
                x > y || (x == y && at[a] < at[b])
            },
{
    let at = choose|at: Seq<usize>| #[trigger]
        summaries::are_largest_at(candidates, max, kept, at);
    let keys = summaries::size_keys(candidates);
    assert forall|a: int, b: int| 0 <= a < b < at.len() implies {
        let x = candidates[(#[trigger] at[a]) as int].total_qty.units;
        let y = candidates[(#[trigger] at[b]) as int].total_qty.units;
        x > y || (x == y && at[a] < at[b])
    } by {
        assert(order::precedes(keys, at[a] as int, at[b] as int));
        assert(candidates[at[a] as int].total_qty.units >= 0);
        assert(candidates[at[b] as int].total_qty.units >= 0);
    }
    at
}

} // verus!
