//! What the view of the strikes and its liquidity promise, stated on rows and moments.
use vstd::prelude::*;
use crate::chart::gex;
use crate::chart::gex::{
    ChartModel, Config, DepthBook, LiquidityDepthState, Message, StrikeRange,
};
use crate::units::{Bits32, Bits64, UnixMs};

verus! {

/// As many rows are visible as the fraction asks for, but at least five and at most all.
pub proof fn the_view_has_at_least_five_rows(scaled: usize, available: usize)
    ensures
        available <= 5 ==> gex::visible_rows(scaled, available) == available,
        available > 5 && scaled < 5 ==> gex::visible_rows(scaled, available) == 5,
        available > 5 && 5 <= scaled <= available ==> gex::visible_rows(scaled, available)
            == scaled,
        scaled > available ==> gex::visible_rows(scaled, available) == available,
{
}

/// As many rows are wanted as are configured, at least one and at most all.
pub proof fn configured_rows_are_kept_within_the_strikes(max_visible: usize, available: usize)
    ensures
        1 <= max_visible <= available ==> gex::configured_rows(max_visible, available)
            == max_visible,
        max_visible > available ==> gex::configured_rows(max_visible, available) == available,
        available > 0 ==> gex::configured_rows(0, available) == 1,
        gex::configured_rows(max_visible, 0) == 0,
{
}

/// The view is centered on the row that lies the offset away from the spot price. Away from
/// the ends the same number of rows lies on either side of it, up to one; at an end the view
/// begins or ends with the strikes.
pub proof fn the_view_is_centered(range: StrikeRange, offset: i64)
    requires
        range.wf(),
        range.len > 0,
        0 <= range.spot_index + offset < range.len,
    ensures
        ({
            let count = gex::visible_rows(range.scaled, range.len);
            let center = range.spot_index + offset;
            let first = gex::first_row(range, offset);
            let before = center - first;
            let after = first + count - 1 - center;
            &&& gex::center_row(range, offset) == center
            &&& first == 0 || first + count == range.len || before == after || before == after + 1
            &&& first == 0 || after <= before
            &&& first + count == range.len || before <= after + 1
        }),
{
}

/// Scrolling moves the center by as many rows as were scrolled, as far as there are strikes.
pub proof fn scrolling_moves_the_center(
    chart: ChartModel,
    rows: i64,
    range: StrikeRange,
    now: u64,
)
    requires
        range.wf(),
        range.len > 0,
        -0x8000_0000_0000_0000 <= chart.center_offset + rows <= 0x7fff_ffff_ffff_ffff,
    ensures
        ({
            let after = chart.updated(Message::Scrolled(rows), Some(range), now);
            let center = range.spot_index + chart.center_offset + rows;
            &&& 0 <= center < range.len ==> after.center_offset == chart.center_offset + rows
            &&& center < 0 ==> range.spot_index + after.center_offset == 0
            &&& center >= range.len ==> range.spot_index + after.center_offset == range.len - 1
            &&& after.dragging == chart.dragging
            &&& after.last_drag_y == chart.last_drag_y
            &&& after.drag_remainder == chart.drag_remainder
        }),
{
}

/// A drag moves the center from its second message on, by the rows that were dragged, keeps
/// what is left of the movement, and ends with nothing kept. Without a drag nothing moves.
pub proof fn drags_move_the_center(
    chart: ChartModel,
    y: Bits32,
    rows: i64,
    remainder: Bits32,
    range: StrikeRange,
    now: u64,
)
    requires
        range.wf(),
        range.len > 0,
        0 <= range.spot_index + chart.center_offset < range.len,
        0 <= range.spot_index + chart.center_offset + rows < range.len,
        -0x8000_0000_0000_0000 <= chart.center_offset + rows <= 0x7fff_ffff_ffff_ffff,
    ensures
        ({
            let dragged = Message::Dragged { y, rows, remainder };
            let started = chart.updated(Message::DragStarted, Some(range), now);
            let first = started.updated(dragged, Some(range), now);
            let second = first.updated(dragged, Some(range), now);
            let ended = second.updated(Message::DragEnded, Some(range), now);
            &&& started.dragging && started.last_drag_y is None && started.drag_remainder.bits == 0
            &&& started.center_offset == chart.center_offset
            &&& first.center_offset == chart.center_offset && first.last_drag_y == Some(y)
            &&& second.center_offset == chart.center_offset + rows
            &&& second.drag_remainder == remainder
            &&& second.last_drag_y == Some(y)
            &&& !ended.dragging && ended.last_drag_y is None && ended.drag_remainder.bits == 0
            &&& ended.center_offset == second.center_offset
            &&& !chart.dragging ==> chart.updated(dragged, Some(range), now).center_offset
                == chart.center_offset && chart.updated(dragged, Some(range), now).last_drag_y
                == chart.last_drag_y
            &&& ended.visible_fraction == chart.visible_fraction
        }),
{
}

/// Zooming in takes the new fraction as long as more than five rows, or than all, are visible.
/// Zooming out takes it as long as fewer rows are visible than are wanted. Fitting shows all
/// rows around the spot price.
pub proof fn zooming_stops_at_its_ends(
    chart: ChartModel,
    fraction: Bits64,
    range: StrikeRange,
    now: u64,
)
    requires
        range.wf(),
    ensures
        ({
            let count = gex::visible_rows(range.scaled, range.len);
            let wanted = gex::configured_rows(chart.config.max_visible_strikes, range.len);
            let inward = chart.updated(Message::ZoomIn(fraction), Some(range), now);
            let outward = chart.updated(Message::ZoomOut(fraction), Some(range), now);
            let fitted = chart.updated(Message::AutoFit, Some(range), now);
            &&& count > 5 ==> inward.visible_fraction == fraction
            &&& count <= 5 ==> inward.visible_fraction == chart.visible_fraction
            &&& count < wanted ==> outward.visible_fraction == fraction
            &&& count >= wanted ==> outward.visible_fraction == chart.visible_fraction
            &&& fitted.visible_fraction.bits == 0x3ff0_0000_0000_0000
            &&& fitted.center_offset == 0
            &&& !fitted.dragging
        }),
{
}

/// Every message is noted with its moment, and none touches the data.
pub proof fn messages_change_the_view_only(
    chart: ChartModel,
    message: Message,
    range: Option<StrikeRange>,
    now: u64,
)
    ensures
        ({
            let after = chart.updated(message, range, now);
            &&& after.last_tick == now
            &&& after.underlying == chart.underlying && after.snapshot == chart.snapshot
            &&& after.freshness == chart.freshness && after.config == chart.config
            &&& after.error == chart.error && after.reference == chart.reference
            &&& after.metrics == chart.metrics && after.last_depth == chart.last_depth
            &&& after.last_recalculation == chart.last_recalculation
            &&& message is SelectLiquidityReference ==> after.visible_fraction
                == chart.visible_fraction && after.dragging == chart.dragging
        }),
{
}

/// Numbers differ where their patterns do, but for the two zeros; what is no number differs
/// from everything.
pub proof fn figures_differ_as_numbers(a: Bits32, b: Bits32)
    ensures
        a.bits <= 0x7f80_0000 && b.bits <= 0x7f80_0000 ==> (gex::differ(a, b) <==> a.bits
            != b.bits),
        a.bits > 0x7f80_0000 && a.bits < 0x8000_0000 ==> gex::differ(a, b) && gex::differ(b, a),
        a.bits > 0xff80_0000 ==> gex::differ(a, b) && gex::differ(b, a),
        a.bits == 0 && b.bits == 0x8000_0000 ==> !gex::differ(a, b) && !gex::differ(b, a),
        0x8000_0000 < a.bits <= 0xff80_0000 && b.bits <= 0xff80_0000 && a.bits != b.bits
            ==> gex::differ(a, b),
        gex::differ(a, b) == gex::differ(b, a),
        a.bits <= 0x7f80_0000 || 0x8000_0000 <= a.bits <= 0xff80_0000 ==> !gex::differ(a, a),
{
}

/// A calculation is due where a market is chosen and its panel is shown: the first time, and
/// from a minute after the last one on.
pub proof fn calculations_come_once_a_minute(chart: ChartModel, received_at: u64)
    ensures
        chart.reference is None || !chart.config.show_gamma_liquidity_panel ==> !chart.due(
            received_at,
        ),
        chart.reference is Some && chart.config.show_gamma_liquidity_panel ==> match (
            chart.metrics,
            chart.last_recalculation,
        ) {
            (Some(_), Some(last)) => chart.due(received_at) <==> received_at >= last + 60_000,
            _ => chart.due(received_at),
        },
{
}

/// A calculation needs a market, a snapshot and an order book. Its figures are of that market
/// and of the moment of the book, and its moment is noted. Without one of the three there are
/// none.
pub proof fn figures_are_of_their_book(chart: ChartModel, calculated: Option<usize>, at: u64)
    ensures
        ({
            let after = chart.recalculated(calculated, at);
            let possible = chart.reference is Some && chart.snapshot is Some && chart.last_depth
                is Some;
            &&& !possible ==> after.metrics is None && after.last_recalculation
                == chart.last_recalculation
            &&& possible ==> after.last_recalculation == Some(at)
            &&& possible ==> (after.metrics is Some <==> calculated is Some)
            &&& possible && calculated is Some ==> {
                &&& (after.metrics->0).slot == calculated->0
                &&& (after.metrics->0).reference == chart.reference->0
                &&& (after.metrics->0).observed_at == (chart.last_depth->0).observed_at
            }
            &&& after.last_depth == chart.last_depth
            &&& after.config == chart.config
        }),
{
}

/// An order book is always kept; it is calculated, and the moment noted, only where that is
/// due.
pub proof fn books_are_kept(
    chart: ChartModel,
    depth: DepthBook,
    calculated: Option<usize>,
    received_at: u64,
)
    ensures
        ({
            let after = chart.with_depth(depth, calculated, received_at);
            &&& after.last_depth == Some(depth)
            &&& !chart.due(received_at) ==> after.metrics == chart.metrics
                && after.last_recalculation == chart.last_recalculation && after.last_tick
                == chart.last_tick
            &&& chart.due(received_at) ==> after.last_tick == received_at
            &&& chart.due(received_at) && chart.snapshot is Some ==> after.last_recalculation
                == Some(received_at) && (after.metrics is Some <==> calculated is Some)
            &&& chart.due(received_at) && chart.snapshot is None ==> after.metrics is None
        }),
{
}

/// Another configuration is taken whole. Hiding the panel drops the figures; showing it, or
/// another depth or sign while it is as it was, has them calculated anew; nothing else does.
pub proof fn settings_renew_the_figures_they_change(
    chart: ChartModel,
    config: Config,
    calculated: Option<usize>,
    now: u64,
)
    ensures
        ({
            let after = chart.with_config(config, calculated, now);
            let shown = config.show_gamma_liquidity_panel;
            let same_panel = chart.config.show_gamma_liquidity_panel == shown;
            let other_figures = gex::differ(
                chart.config.liquidity_depth_bps,
                config.liquidity_depth_bps,
            ) || chart.config.sign_model != config.sign_model;
            let possible = chart.reference is Some && chart.snapshot is Some && chart.last_depth
                is Some;
            &&& after.config == config
            &&& after.last_tick == now
            &&& after.last_depth == chart.last_depth
            &&& after.visible_fraction == chart.visible_fraction && after.center_offset
                == chart.center_offset
            &&& !same_panel && !shown ==> after.metrics is None && after.last_recalculation is None
            &&& !same_panel && shown ==> after.last_recalculation is None && (after.metrics is Some
                <==> possible && calculated is Some)
            &&& same_panel && other_figures ==> (after.metrics is Some <==> possible && calculated
                is Some)
            &&& same_panel && other_figures && possible ==> after.last_recalculation == Some(now)
            &&& same_panel && other_figures && !possible ==> after.last_recalculation is None
            &&& same_panel && !other_figures ==> after.metrics == chart.metrics
                && after.last_recalculation == chart.last_recalculation
        }),
{
}

/// An order book is stale from more than ten seconds of age on. Before that it is ready where
/// it gave figures and invalid where it gave none.
pub proof fn books_grow_stale(chart: ChartModel, now: UnixMs)
    ensures
        ({
            let state = chart.depth_state(now);
            &&& state == LiquidityDepthState::NoReference <==> chart.reference is None
            &&& chart.reference is Some ==> match chart.last_depth {
                None => state == LiquidityDepthState::WaitingForDepth,
                Some(depth) => {
                    &&& now.ms > depth.observed_at.ms + 10_000 ==> state
                        == LiquidityDepthState::Stale
                    &&& now.ms <= depth.observed_at.ms + 10_000 && chart.metrics is Some ==> state
                        == LiquidityDepthState::Ready
                    &&& now.ms <= depth.observed_at.ms + 10_000 && chart.metrics is None ==> state
                        == LiquidityDepthState::InvalidDepth
                },
            }
        }),
{
}

} // verus!
