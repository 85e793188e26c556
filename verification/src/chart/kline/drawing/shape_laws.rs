//! What moving, resizing and tying a shape to candles does to it, stated on its anchors.
use vstd::prelude::*;
use crate::chart::kline::drawing::geometry;
use crate::chart::kline::drawing::geometry::{
    DrawingAnchor, DrawingTool, DrawingX, GeometryModel,
};
use crate::units::{Price, UnixMs};

verus! {

/// The number of a position.
pub open spec fn position(x: DrawingX) -> int {
    match x {
        DrawingX::Time(moment) => moment.ms as int,
        DrawingX::Tick(tick) => tick as int,
    }
}

/// The position can follow a movement from `start` to `end` without leaving its range.
pub open spec fn x_can_follow(x: DrawingX, start: DrawingX, end: DrawingX) -> bool {
    &&& (x is Time) == (start is Time)
    &&& (x is Time) == (end is Time)
    &&& 0 <= position(x) + position(end) - position(start) <= 0xffff_ffff_ffff_ffff
}

/// The anchor can follow a movement from `start` to `end` without leaving its range.
pub open spec fn can_follow(anchor: DrawingAnchor, start: DrawingAnchor, end: DrawingAnchor) -> bool {
    &&& x_can_follow(anchor.x, start.x, end.x)
    &&& -0x8000_0000_0000_0000 <= anchor.price.units + end.price.units - start.price.units
        <= 0x7fff_ffff_ffff_ffff
}

/// A position and where it is after a movement lie as far apart as the ends of the movement.
pub open spec fn x_followed(x: DrawingX, moved: DrawingX, start: DrawingX, end: DrawingX) -> bool {
    &&& (moved is Time) == (x is Time)
    &&& position(moved) - position(x) == position(end) - position(start)
}

/// An anchor and where it is after a movement lie as far apart as the ends of the movement.
pub open spec fn followed(
    anchor: DrawingAnchor,
    moved: DrawingAnchor,
    start: DrawingAnchor,
    end: DrawingAnchor,
) -> bool {
    &&& x_followed(anchor.x, moved.x, start.x, end.x)
    &&& moved.price.units - anchor.price.units == end.price.units - start.price.units
}

/// A shape of two anchors keeps its kind, its width and its height when it is moved, and each
/// of its anchors moves as far as the movement goes.
pub proof fn moving_keeps_width_and_height(
    first: DrawingAnchor,
    second: DrawingAnchor,
    start: DrawingAnchor,
    end: DrawingAnchor,
)
    requires
        can_follow(first, start, end),
        can_follow(second, start, end),
    ensures
        GeometryModel::Rectangle(first, second).translated(start, end) matches
            GeometryModel::Rectangle(a, b) && {
            &&& followed(first, a, start, end)
            &&& followed(second, b, start, end)
            &&& position(b.x) - position(a.x) == position(second.x) - position(first.x)
            &&& b.price.units - a.price.units == second.price.units - first.price.units
        },
        GeometryModel::Fibonacci(first, second).translated(start, end) matches
            GeometryModel::Fibonacci(a, b) && {
            &&& followed(first, a, start, end)
            &&& followed(second, b, start, end)
            &&& position(b.x) - position(a.x) == position(second.x) - position(first.x)
            &&& b.price.units - a.price.units == second.price.units - first.price.units
        },
        GeometryModel::TrendLine(first, second).translated(start, end) matches
            GeometryModel::TrendLine(a, b) && {
            &&& followed(first, a, start, end)
            &&& followed(second, b, start, end)
            &&& position(b.x) - position(a.x) == position(second.x) - position(first.x)
            &&& b.price.units - a.price.units == second.price.units - first.price.units
        },
{
}

/// A freehand line moves point by point, and a text moves and keeps its content.
pub proof fn moving_keeps_lines_and_texts(
    points: Seq<DrawingAnchor>,
    anchor: DrawingAnchor,
    content: Seq<char>,
    start: DrawingAnchor,
    end: DrawingAnchor,
)
    requires
        can_follow(anchor, start, end),
        forall|i: int| 0 <= i < points.len() ==> can_follow(#[trigger] points[i], start, end),
    ensures
        GeometryModel::Text(anchor, content).translated(start, end) matches GeometryModel::Text(
            moved,
            kept,
        ) && followed(anchor, moved, start, end) && kept == content,
        GeometryModel::Freehand(points).translated(start, end) matches GeometryModel::Freehand(
            moved,
        ) && moved.len() == points.len() && (forall|i: int|
            0 <= i < points.len() ==> followed(points[i], #[trigger] moved[i], start, end)),
{
}

/// A horizontal line follows the price of a movement, a vertical line its position, and a
/// profile of volume its time. A profile keeps its length.
pub proof fn moving_keeps_lines_and_profiles(
    price: Price,
    x: DrawingX,
    first: UnixMs,
    second: UnixMs,
    start: DrawingAnchor,
    end: DrawingAnchor,
)
    requires
        -0x8000_0000_0000_0000 <= price.units + end.price.units - start.price.units
            <= 0x7fff_ffff_ffff_ffff,
        x_can_follow(x, start.x, end.x),
        x_can_follow(DrawingX::Time(first), start.x, end.x),
        x_can_follow(DrawingX::Time(second), start.x, end.x),
    ensures
        GeometryModel::HorizontalLine(price).translated(start, end) matches
            GeometryModel::HorizontalLine(moved) && moved.units - price.units == end.price.units
            - start.price.units,
        GeometryModel::VerticalLine(x).translated(start, end) matches GeometryModel::VerticalLine(
            moved,
        ) && x_followed(x, moved, start.x, end.x),
        GeometryModel::FixedRangeVolumeProfile(first, second).translated(start, end) matches
            GeometryModel::FixedRangeVolumeProfile(a, b) && a.ms - first.ms == position(end.x)
            - position(start.x) && b.ms - second.ms == position(end.x) - position(start.x) && b.ms
            - a.ms == second.ms - first.ms,
{
}

/// A position that is not of the kind of the movement stays, and one that would leave its
/// range stops at its end; so does a price.
pub proof fn movements_stop_at_the_ends(anchor: DrawingAnchor, start: DrawingAnchor, end: DrawingAnchor)
    ensures
        ({
            let moved = geometry::shifted_anchor(anchor, start, end);
            let x = position(anchor.x) + position(end.x) - position(start.x);
            let price = anchor.price.units + end.price.units - start.price.units;
            let same_kind = (anchor.x is Time) == (start.x is Time) && (anchor.x is Time) == (
            end.x is Time);
            &&& (moved.x is Time) == (anchor.x is Time)
            &&& !same_kind ==> moved.x == anchor.x
            &&& same_kind && x < 0 ==> position(moved.x) == 0
            &&& same_kind && x > 0xffff_ffff_ffff_ffff ==> position(moved.x)
                == 0xffff_ffff_ffff_ffff
            &&& price < -0x8000_0000_0000_0000 ==> moved.price.units == -0x8000_0000_0000_0000
            &&& price > 0x7fff_ffff_ffff_ffff ==> moved.price.units == 0x7fff_ffff_ffff_ffff
        }),
{
}

/// A corner of a rectangle that is dragged lies where it was dragged to, and the corner
/// opposite stays. The corners are numbered by the anchors that their position and their
/// price come from: the first, the second and the first, the first and the second, the second.
pub proof fn a_dragged_corner_follows_and_its_opposite_stays(
    first: DrawingAnchor,
    second: DrawingAnchor,
    anchor: DrawingAnchor,
)
    ensures
        GeometryModel::Rectangle(first, second).resized(anchor, 0) matches GeometryModel::Rectangle(
            a,
            b,
        ) && a == anchor && b == second,
        GeometryModel::Rectangle(first, second).resized(anchor, 1) matches GeometryModel::Rectangle(
            a,
            b,
        ) && b.x == anchor.x && a.price == anchor.price && a.x == first.x && b.price
            == second.price,
        GeometryModel::Rectangle(first, second).resized(anchor, 2) matches GeometryModel::Rectangle(
            a,
            b,
        ) && a.x == anchor.x && b.price == anchor.price && b.x == second.x && a.price
            == first.price,
        forall|handle: u8|
            handle >= 3 ==> (#[trigger] GeometryModel::Rectangle(first, second).resized(
                anchor,
                handle,
            ) matches GeometryModel::Rectangle(a, b) && a == first && b == anchor),
{
}

/// An end of a line or of a profile that is dragged lies where it was dragged to, and the
/// other end stays. What has no handles, and a profile dragged to a tick, stays as it is.
pub proof fn a_dragged_end_follows_and_the_other_stays(
    shape: GeometryModel,
    anchor: DrawingAnchor,
    handle: u8,
)
    ensures
        shape matches GeometryModel::Fibonacci(first, second) ==> shape.resized(anchor, handle)
            == if handle == 0 {
            GeometryModel::Fibonacci(anchor, second)
        } else {
            GeometryModel::Fibonacci(first, anchor)
        },
        shape matches GeometryModel::TrendLine(first, second) ==> shape.resized(anchor, handle)
            == if handle == 0 {
            GeometryModel::TrendLine(anchor, second)
        } else {
            GeometryModel::TrendLine(first, anchor)
        },
        shape matches GeometryModel::FixedRangeVolumeProfile(first, second) ==> match anchor.x {
            DrawingX::Time(moment) => shape.resized(anchor, handle) == if handle == 0 {
                GeometryModel::FixedRangeVolumeProfile(moment, second)
            } else {
                GeometryModel::FixedRangeVolumeProfile(first, moment)
            },
            DrawingX::Tick(_) => shape.resized(anchor, handle) == shape,
        },
        shape is Freehand || shape is HorizontalLine || shape is VerticalLine || shape is Text
            ==> shape.resized(anchor, handle) == shape,
{
}

/// Neither moving nor resizing makes a shape one of another tool, and no two kinds of shape
/// share a tool.
pub proof fn shapes_keep_their_tool(
    shape: GeometryModel,
    other: GeometryModel,
    start: DrawingAnchor,
    end: DrawingAnchor,
    handle: u8,
)
    ensures
        shape.translated(start, end).tool() == shape.tool(),
        shape.resized(end, handle).tool() == shape.tool(),
        shape.tool() != DrawingTool::Select,
        shape is Freehand <==> shape.tool() == DrawingTool::Pen,
        shape is HorizontalLine <==> shape.tool() == DrawingTool::HorizontalLine,
        shape is VerticalLine <==> shape.tool() == DrawingTool::VerticalLine,
        shape is Rectangle <==> shape.tool() == DrawingTool::Rectangle,
        shape is Fibonacci <==> shape.tool() == DrawingTool::Fibonacci,
        shape is TrendLine <==> shape.tool() == DrawingTool::TrendLine,
        shape is Text <==> shape.tool() == DrawingTool::Text,
        shape is FixedRangeVolumeProfile <==> shape.tool() == DrawingTool::FixedRangeVolumeProfile,
        shape.tool() == other.tool() ==> shape.name() == other.name(),
{
}

/// Each kind of shape has a name of its own.
pub proof fn shapes_of_different_tools_differ_in_name(shape: GeometryModel, other: GeometryModel)
    requires
        shape.tool() != other.tool(),
    ensures
        shape.name() != other.name(),
{
    reveal_strlit("Pen");
    reveal_strlit("Horizontal line");
    reveal_strlit("Vertical line");
    reveal_strlit("Rectangle");
    reveal_strlit("Fibonacci");
    reveal_strlit("Trend line");
    reveal_strlit("Text");
    reveal_strlit("Fixed Range VP");
    let a = shape.name();
    let b = other.name();
    if a == b {
        assert(a.len() == b.len());
        assert(a[0] == b[0]);
        assert(a[1] == b[1]);
    }
}

/// A moment is tied to a candle that no other is closer to, of two equally close ones to the
/// earlier.
pub proof fn moments_are_tied_to_the_closest_candle(keys: Seq<u64>, requested: UnixMs, i: int)
    requires
        geometry::ascending(keys),
        0 <= i < keys.len(),
    ensures
        geometry::snapped(keys, requested) is Some,
        keys.contains((geometry::snapped(keys, requested)->0).ms),
        ({
            let tied = (geometry::snapped(keys, requested)->0).ms;
            let moment = requested.ms;
            let closest = if tied >= moment {
                tied - moment
            } else {
                moment - tied
            };
            let away = if keys[i] >= moment {
                keys[i] - moment
            } else {
                moment - keys[i]
            };
            &&& closest <= away
            &&& closest == away ==> tied <= keys[i]
        }),
{
    geometry::lemma_nearest_exists(keys, requested.ms);
    let at = geometry::nearest(keys, requested.ms);
    assert(keys[at] == (geometry::snapped(keys, requested)->0).ms);
    if at < i {
        assert(keys[at] < keys[i]);
    }
    if i < at {
        assert(geometry::distance(keys[i], requested.ms) > geometry::distance(
            keys[at],
            requested.ms,
        ));
    }
    assert(geometry::distance(keys[i], requested.ms) >= geometry::distance(
        keys[at],
        requested.ms,
    ));
}

/// The first end of a profile is tied to its closest candle. The second one is too where the
/// candles between are at most ten thousand and cover at most a week; where they are not, it
/// is brought in as little as possible: one candle further it would reach too far.
pub proof fn profiles_reach_as_far_as_they_may(keys: Seq<u64>, first: UnixMs, second: UnixMs) -> (r: (
    int,
    int,
    int,
))
    requires
        geometry::ascending(keys),
        keys.len() > 0,
    ensures
        0 <= r.0 < keys.len(),
        0 <= r.1 < keys.len(),
        0 <= r.2 < keys.len(),
        Some(UnixMs { ms: keys[r.0] }) == geometry::snapped(keys, first),
        Some(UnixMs { ms: keys[r.1] }) == geometry::snapped(keys, second),
        geometry::normalized(keys, first, second) == Some(
            (UnixMs { ms: keys[r.0] }, UnixMs { ms: keys[r.2] }),
        ),
        r.0 <= r.1 ==> {
            &&& r.0 <= r.2 <= r.1
            &&& r.2 - r.0 < 10_000 && keys[r.2] - keys[r.0] <= 604_800_000
            &&& r.2 < r.1 ==> r.2 + 1 - r.0 >= 10_000 || keys[r.2 + 1] - keys[r.0] > 604_800_000
        },
        r.1 < r.0 ==> {
            &&& r.1 <= r.2 <= r.0
            &&& r.0 - r.2 < 10_000 && keys[r.0] - keys[r.2] <= 604_800_000
            &&& r.1 < r.2 ==> r.0 - (r.2 - 1) >= 10_000 || keys[r.0] - keys[r.2 - 1] > 604_800_000
        },
{
    geometry::lemma_nearest_exists(keys, first.ms);
    geometry::lemma_nearest_exists(keys, second.ms);
    let from = geometry::nearest(keys, first.ms);
    let to = geometry::nearest(keys, second.ms);
    geometry::lemma_reach_exists(keys, from, to);
    let end = geometry::reach(keys, from, to);
    if from < end {
        assert(keys[from] < keys[end]);
    }
    if end < from {
        assert(keys[end] < keys[from]);
    }
    if from <= to && end < to {
        assert(keys[from] < keys[end + 1]);
    }
    if to < from && to < end {
        assert(keys[end - 1] < keys[from]);
    }
    (from, to, end)
}

/// The view is moved to the middle of a shape of two anchors: twice its middle is the sum of
/// the two, up to one for the rounding.
pub proof fn the_focus_is_the_middle(first: DrawingAnchor, second: DrawingAnchor)
    requires
        (first.x is Time) == (second.x is Time),
    ensures
        GeometryModel::Rectangle(first, second).focus() == GeometryModel::Fibonacci(
            first,
            second,
        ).focus(),
        GeometryModel::Rectangle(first, second).focus() == GeometryModel::TrendLine(
            first,
            second,
        ).focus(),
        GeometryModel::Rectangle(first, second).focus() matches Some(middle) && {
            &&& (middle.x is Time) == (first.x is Time)
            &&& 2 * position(middle.x) <= position(first.x) + position(second.x) <= 2 * position(
                middle.x,
            ) + 1
            &&& -1 <= first.price.units + second.price.units - 2 * middle.price.units <= 1
            &&& first.price.units + second.price.units >= 0 ==> 2 * middle.price.units
                <= first.price.units + second.price.units
            &&& first.price.units + second.price.units <= 0 ==> 2 * middle.price.units
                >= first.price.units + second.price.units
        },
{
}

/// The view is moved to the price of a horizontal line, to the position of a vertical one, to
/// the first point of a freehand line, to a text, and to the middle of a profile. Only an
/// empty freehand line has no focus, and two anchors of different kinds take the position of
/// the first.
pub proof fn the_focus_is_on_the_shape(shape: GeometryModel)
    ensures
        shape.focus() is None <==> shape == GeometryModel::Freehand(Seq::<DrawingAnchor>::empty()),
        shape matches GeometryModel::Freehand(points) ==> points.len() > 0 ==> shape.focus() == Some(
            points[0],
        ),
        shape matches GeometryModel::HorizontalLine(price) ==> (shape.focus()->0).price == price
            && (shape.focus()->0).x == DrawingX::Tick(0),
        shape matches GeometryModel::VerticalLine(x) ==> (shape.focus()->0).x == x && (
        shape.focus()->0).price.units == 0,
        shape matches GeometryModel::Text(anchor, _) ==> shape.focus() == Some(anchor),
        shape matches GeometryModel::FixedRangeVolumeProfile(first, second) ==> {
            let middle = shape.focus()->0;
            &&& middle.x is Time
            &&& 2 * position(middle.x) <= first.ms + second.ms <= 2 * position(middle.x) + 1
            &&& middle.price.units == 0
        },
        shape matches GeometryModel::Rectangle(first, second) ==> (first.x is Time) != (
        second.x is Time) ==> (shape.focus()->0).x == first.x,
{
    if shape is Freehand && shape.focus() is None {
        assert(shape->Freehand_0 =~= Seq::<DrawingAnchor>::empty());
    }
}

} // verus!
