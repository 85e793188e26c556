//! The shapes that can be drawn on a chart, and how they are moved, resized and tied to
//! candles.
use vstd::prelude::*;
use crate::units;
use crate::units::{saturating_add_u64, saturating_sub_u64, Price, UnixMs};

verus! {

/// The longest range of a volume profile: a week.
pub const MAX_FIXED_VOLUME_PROFILE_RANGE_MS: u64 = 604_800_000;

/// The most candles of a volume profile.
pub const MAX_FIXED_VOLUME_PROFILE_CANDLES: usize = 10_000;

/// A position on the horizontal axis.
#[derive(Clone, Copy, Debug, PartialEq, Eq, Structural)]
pub enum DrawingX {
    Time(UnixMs),
    Tick(u64),
}

#[derive(Clone, Copy, Debug, PartialEq, Eq, Structural)]
pub struct DrawingAnchor {
    pub x: DrawingX,
    pub price: Price,
}

#[derive(Clone, Copy, Debug, PartialEq, Eq, Structural)]
pub enum DrawingTool {
    Select,
    Pen,
    HorizontalLine,
    VerticalLine,
    Rectangle,
    Fibonacci,
    TrendLine,
    Text,
    FixedRangeVolumeProfile,
}

#[derive(Debug)]
pub enum DrawingGeometry {
    Freehand { points: Vec<DrawingAnchor> },
    HorizontalLine { price: Price },
    VerticalLine { x: DrawingX },
    Rectangle { first: DrawingAnchor, second: DrawingAnchor },
    Fibonacci { first: DrawingAnchor, second: DrawingAnchor },
    TrendLine { first: DrawingAnchor, second: DrawingAnchor },
    Text { anchor: DrawingAnchor, content: String },
    FixedRangeVolumeProfile { first: UnixMs, second: UnixMs },
}

/// The contents of a shape.
#[verifier::ext_equal]
pub enum GeometryModel {
    Freehand(Seq<DrawingAnchor>),
    HorizontalLine(Price),
    VerticalLine(DrawingX),
    Rectangle(DrawingAnchor, DrawingAnchor),
    Fibonacci(DrawingAnchor, DrawingAnchor),
    TrendLine(DrawingAnchor, DrawingAnchor),
    Text(DrawingAnchor, Seq<char>),
    FixedRangeVolumeProfile(UnixMs, UnixMs),
}

impl View for DrawingGeometry {
    type V = GeometryModel;

    open spec fn view(&self) -> GeometryModel {
        match self {
            DrawingGeometry::Freehand { points } => GeometryModel::Freehand(points@),
            DrawingGeometry::HorizontalLine { price } => GeometryModel::HorizontalLine(*price),
            DrawingGeometry::VerticalLine { x } => GeometryModel::VerticalLine(*x),
            DrawingGeometry::Rectangle { first, second } => GeometryModel::Rectangle(
                *first,
                *second,
            ),
            DrawingGeometry::Fibonacci { first, second } => GeometryModel::Fibonacci(
                *first,
                *second,
            ),
            DrawingGeometry::TrendLine { first, second } => GeometryModel::TrendLine(
                *first,
                *second,
            ),
            DrawingGeometry::Text { anchor, content } => GeometryModel::Text(*anchor, content@),
            DrawingGeometry::FixedRangeVolumeProfile { first, second } => {
                GeometryModel::FixedRangeVolumeProfile(*first, *second)
            },
        }
    }
}

impl GeometryModel {
    /// The tool that draws the shape.
    pub open spec fn tool(self) -> DrawingTool {
        match self {
            GeometryModel::Freehand(_) => DrawingTool::Pen,
            GeometryModel::HorizontalLine(_) => DrawingTool::HorizontalLine,
            GeometryModel::VerticalLine(_) => DrawingTool::VerticalLine,
            GeometryModel::Rectangle(_, _) => DrawingTool::Rectangle,
            GeometryModel::Fibonacci(_, _) => DrawingTool::Fibonacci,
            GeometryModel::TrendLine(_, _) => DrawingTool::TrendLine,
            GeometryModel::Text(_, _) => DrawingTool::Text,
            GeometryModel::FixedRangeVolumeProfile(_, _) => DrawingTool::FixedRangeVolumeProfile,
        }
    }

    pub open spec fn name(self) -> Seq<char> {
        match self {
            GeometryModel::Freehand(_) => "Pen"@,
            GeometryModel::HorizontalLine(_) => "Horizontal line"@,
            GeometryModel::VerticalLine(_) => "Vertical line"@,
            GeometryModel::Rectangle(_, _) => "Rectangle"@,
            GeometryModel::Fibonacci(_, _) => "Fibonacci"@,
            GeometryModel::TrendLine(_, _) => "Trend line"@,
            GeometryModel::Text(_, _) => "Text"@,
            GeometryModel::FixedRangeVolumeProfile(_, _) => "Fixed Range VP"@,
        }
    }
}

pub fn geometry_tool(geometry: &DrawingGeometry) -> (r: DrawingTool)
    ensures
        r == geometry@.tool(),
{
    match geometry {
        DrawingGeometry::Freehand { .. } => DrawingTool::Pen,
        DrawingGeometry::HorizontalLine { .. } => DrawingTool::HorizontalLine,
        DrawingGeometry::VerticalLine { .. } => DrawingTool::VerticalLine,
        DrawingGeometry::Rectangle { .. } => DrawingTool::Rectangle,
        DrawingGeometry::Fibonacci { .. } => DrawingTool::Fibonacci,
        DrawingGeometry::TrendLine { .. } => DrawingTool::TrendLine,
        DrawingGeometry::Text { .. } => DrawingTool::Text,
        DrawingGeometry::FixedRangeVolumeProfile { .. } => DrawingTool::FixedRangeVolumeProfile,
    }
}

/// What a drawing is called in the list of drawings.
pub fn drawing_name(geometry: &DrawingGeometry) -> (r: &'static str)
    ensures
        r@ == geometry@.name(),
{
    match geometry {
        DrawingGeometry::Freehand { .. } => "Pen",
        DrawingGeometry::HorizontalLine { .. } => "Horizontal line",
        DrawingGeometry::VerticalLine { .. } => "Vertical line",
        DrawingGeometry::Rectangle { .. } => "Rectangle",
        DrawingGeometry::Fibonacci { .. } => "Fibonacci",
        DrawingGeometry::TrendLine { .. } => "Trend line",
        DrawingGeometry::Text { .. } => "Text",
        DrawingGeometry::FixedRangeVolumeProfile { .. } => "Fixed Range VP",
    }
}

/// A copy of a list of points.
pub fn copy_points(points: &Vec<DrawingAnchor>) -> (r: Vec<DrawingAnchor>)
    ensures
        r@ == points@,
{
    let mut r: Vec<DrawingAnchor> = Vec::new();
    let mut i: usize = 0;
    while i < points.len()
        invariant
            i <= points@.len(),
            r@ == points@.take(i as int),
        decreases points@.len() - i,
    {
        r.push(points[i]);
        assert(r@ =~= points@.take(i + 1));
        i = i + 1;
    }
    assert(points@.take(points@.len() as int) =~= points@);
    r
}

/// A copy of a shape.
pub fn copy_geometry(geometry: &DrawingGeometry) -> (r: DrawingGeometry)
    ensures
        r@ == geometry@,
{
    match geometry {
        DrawingGeometry::Freehand { points } => DrawingGeometry::Freehand {
            points: copy_points(points),
        },
        DrawingGeometry::HorizontalLine { price } => DrawingGeometry::HorizontalLine {
            price: *price,
        },
        DrawingGeometry::VerticalLine { x } => DrawingGeometry::VerticalLine { x: *x },
        DrawingGeometry::Rectangle { first, second } => DrawingGeometry::Rectangle {
            first: *first,
            second: *second,
        },
        DrawingGeometry::Fibonacci { first, second } => DrawingGeometry::Fibonacci {
            first: *first,
            second: *second,
        },
        DrawingGeometry::TrendLine { first, second } => DrawingGeometry::TrendLine {
            first: *first,
            second: *second,
        },
        DrawingGeometry::Text { anchor, content } => DrawingGeometry::Text {
            anchor: *anchor,
            content: content.clone(),
        },
        DrawingGeometry::FixedRangeVolumeProfile { first, second } => {
            DrawingGeometry::FixedRangeVolumeProfile { first: *first, second: *second }
        },
    }
}

/// Moments of candles in ascending order, each once.
pub open spec fn ascending(keys: Seq<u64>) -> bool {
    forall|i: int, j: int| 0 <= i < j < keys.len() ==> #[trigger] keys[i] < #[trigger] keys[j]
}

pub open spec fn distance(a: u64, b: u64) -> int {
    if a >= b {
        a - b
    } else {
        b - a
    }
}

/// The place of the candle that is closest to a moment, of two equally close ones the
/// earlier.
pub open spec fn is_nearest(keys: Seq<u64>, moment: u64, at: int) -> bool {
    &&& 0 <= at < keys.len()
    &&& forall|i: int|
        0 <= i < keys.len() ==> distance(#[trigger] keys[i], moment) >= distance(keys[at], moment)
    &&& forall|i: int|
        0 <= i < at ==> distance(#[trigger] keys[i], moment) > distance(keys[at], moment)
}

/// The number of candles before a moment.
fn count_before(keys: &Vec<u64>, moment: u64) -> (r: usize)
    requires
        ascending(keys@),
    ensures
        r <= keys@.len(),
        forall|i: int| 0 <= i < r ==> #[trigger] keys@[i] < moment,
        forall|i: int| r <= i < keys@.len() ==> #[trigger] keys@[i] >= moment,
{
    let mut low: usize = 0;
    let mut high: usize = keys.len();
    while low < high
        invariant
            ascending(keys@),
            low <= high <= keys@.len(),
            forall|i: int| 0 <= i < low ==> #[trigger] keys@[i] < moment,
            forall|i: int| high <= i < keys@.len() ==> #[trigger] keys@[i] >= moment,
        decreases high - low,
    {
        let middle: usize = low + (high - low) / 2;
        if keys[middle] < moment {
            proof {
                assert forall|i: int| 0 <= i < middle + 1 implies #[trigger] keys@[i] < moment by {
                    if i < middle {
                        assert(keys@[i] < keys@[middle as int]);
                    }
                }
            }
            low = middle + 1;
        } else {
            proof {
                assert forall|i: int| middle <= i < keys@.len() implies #[trigger] keys@[i]
                    >= moment by {
                    if i > middle {
                        assert(keys@[middle as int] < keys@[i]);
                    }
                }
            }
            high = middle;
        }
    }
    low
}

/// The place of the candle that is closest to a moment.
pub fn nearest_candle(keys: &Vec<u64>, moment: u64) -> (r: Option<usize>)
    requires
        ascending(keys@),
    ensures
        r is None <==> keys@.len() == 0,
        r is Some ==> is_nearest(keys@, moment, r->0 as int),
{
    let count: usize = keys.len();
    if count == 0 {
        return None;
    }
    let before: usize = count_before(keys, moment);
    if before == 0 {
        proof {
            assert forall|i: int| 0 <= i < keys@.len() implies distance(
                #[trigger] keys@[i],
                moment,
            ) >= distance(keys@[0], moment) by {
                if i > 0 {
                    assert(keys@[0] < keys@[i]);
                }
            }
        }
        return Some(0);
    }
    if before == count {
        proof {
            let last = count - 1;
            assert forall|i: int| 0 <= i < keys@.len() implies distance(
                #[trigger] keys@[i],
                moment,
            ) >= distance(keys@[last as int], moment) && (i < last ==> distance(keys@[i], moment)
                > distance(keys@[last as int], moment)) by {
                if i < last {
                    assert(keys@[i] < keys@[last as int]);
                }
            }
        }
        return Some(count - 1);
    }
    let earlier: u64 = keys[before - 1];
    let later: u64 = keys[before];
    proof {
        assert forall|i: int| 0 <= i < before implies distance(#[trigger] keys@[i], moment)
            >= moment - earlier && (i < before - 1 ==> distance(keys@[i], moment) > moment
            - earlier) by {
            if i < before - 1 {
                assert(keys@[i] < keys@[before - 1]);
            }
        }
        assert forall|i: int| before <= i < keys@.len() implies distance(
            #[trigger] keys@[i],
            moment,
        ) >= later - moment by {
            if i > before {
                assert(keys@[before as int] < keys@[i]);
            }
        }
    }
    if moment - earlier <= later - moment {
        Some(before - 1)
    } else {
        Some(before)
    }
}

/// There is one closest candle.
pub proof fn nearest_is_unique(keys: Seq<u64>, moment: u64, a: int, b: int)
    requires
        is_nearest(keys, moment, a),
        is_nearest(keys, moment, b),
    ensures
        a == b,
{
    if a < b {
        assert(distance(keys[a], moment) > distance(keys[b], moment));
    }
    if b < a {
        assert(distance(keys[b], moment) > distance(keys[a], moment));
    }
}

/// The place of the closest candle.
pub open spec fn nearest(keys: Seq<u64>, moment: u64) -> int {
    choose|at: int| is_nearest(keys, moment, at)
}

/// A moment tied to the closest candle; none where there are no candles.
pub open spec fn snapped(keys: Seq<u64>, requested: UnixMs) -> Option<UnixMs> {
    if keys.len() == 0 {
        None
    } else {
        Some(UnixMs { ms: keys[nearest(keys, requested.ms)] })
    }
}

/// The moment of the candle that is closest to a moment, of two equally close ones the
/// earlier.
pub fn snap_timestamp_to_candle(keys: &Vec<u64>, requested: UnixMs) -> (r: Option<UnixMs>)
    requires
        ascending(keys@),
    ensures
        r == snapped(keys@, requested),
{
    match nearest_candle(keys, requested.ms) {
        Some(at) => {
            proof {
                nearest_is_unique(keys@, requested.ms, at as int, nearest(keys@, requested.ms));
            }
            Some(UnixMs::new(keys[at]))
        },
        None => None,
    }
}

/// Whether a profile may reach from one candle to another: at most a week and ten
/// thousand candles.
pub open spec fn is_allowed(keys: Seq<u64>, first: int, second: int) -> bool {
    &&& distance(keys[first], keys[second]) <= MAX_FIXED_VOLUME_PROFILE_RANGE_MS
    &&& second - first < MAX_FIXED_VOLUME_PROFILE_CANDLES
    &&& first - second < MAX_FIXED_VOLUME_PROFILE_CANDLES
}

/// The candle between `first` and `second` that is the closest to `second` among those
/// that a profile may reach.
pub open spec fn is_reach(keys: Seq<u64>, first: int, second: int, r: int) -> bool {
    &&& is_allowed(keys, first, r)
    &&& if first <= second {
        &&& first <= r <= second
        &&& r < second ==> !is_allowed(keys, first, r + 1)
    } else {
        &&& second <= r <= first
        &&& second < r ==> !is_allowed(keys, first, r - 1)
    }
}

/// There is one such candle.
pub proof fn reach_is_unique(keys: Seq<u64>, first: int, second: int, a: int, b: int)
    requires
        ascending(keys),
        0 <= first < keys.len(),
        0 <= second < keys.len(),
        is_reach(keys, first, second, a),
        is_reach(keys, first, second, b),
    ensures
        a == b,
{
    let low = if a < b {
        a
    } else {
        b
    };
    let high = if a < b {
        b
    } else {
        a
    };
    if low < high {
        if first <= second {
            assert(keys[low + 1] <= keys[high]) by {
                if low + 1 < high {
                    assert(keys[low + 1] < keys[high]);
                }
            }
            assert(keys[first] < keys[low + 1]);
            assert(is_allowed(keys, first, low + 1));
        } else {
            assert(keys[low] <= keys[high - 1]) by {
                if low < high - 1 {
                    assert(keys[low] < keys[high - 1]);
                }
            }
            assert(keys[high - 1] < keys[first]);
            assert(is_allowed(keys, first, high - 1));
        }
    }
}

/// The place of that candle.
pub open spec fn reach(keys: Seq<u64>, first: int, second: int) -> int {
    choose|r: int| is_reach(keys, first, second, r)
}

/// The ends of a profile tied to candles and brought within the allowed reach; none
/// where there are no candles.
pub open spec fn normalized(keys: Seq<u64>, first: UnixMs, second: UnixMs) -> Option<
    (UnixMs, UnixMs),
> {
    if keys.len() == 0 {
        None
    } else {
        let from = nearest(keys, first.ms);
        let to = nearest(keys, second.ms);
        Some((UnixMs { ms: keys[from] }, UnixMs { ms: keys[reach(keys, from, to)] }))
    }
}

/// The ends of a profile tied to candles and brought within the allowed reach.
pub fn normalize_fixed_range(keys: &Vec<u64>, first: UnixMs, second: UnixMs) -> (r: Option<
    (UnixMs, UnixMs),
>)
    requires
        ascending(keys@),
    ensures
        r == normalized(keys@, first, second),
{
    let from: usize = match nearest_candle(keys, first.ms) {
        Some(from) => from,
        None => {
            return None;
        },
    };
    let to: usize = match nearest_candle(keys, second.ms) {
        Some(to) => to,
        None => {
            return None;
        },
    };
    let start: u64 = keys[from];
    let limit: usize = MAX_FIXED_VOLUME_PROFILE_CANDLES - 1;
    let mut end: usize = to;
    if to >= from {
        let latest: u64 = saturating_add_u64(start, MAX_FIXED_VOLUME_PROFILE_RANGE_MS);
        while end > from && (end - from > limit || keys[end] > latest)
            invariant
                ascending(keys@),
                from <= end <= to < keys@.len(),
                start == keys@[from as int],
                limit == MAX_FIXED_VOLUME_PROFILE_CANDLES - 1,
                latest == units::sat_add(start, MAX_FIXED_VOLUME_PROFILE_RANGE_MS),
                end < to ==> !is_allowed(keys@, from as int, end + 1),
            decreases end - from,
        {
            assert(keys@[from as int] < keys@[end as int]);
            end = end - 1;
        }
        proof {
            if end > from {
                assert(keys@[from as int] < keys@[end as int]);
            }
        }
    } else {
        let earliest: u64 = saturating_sub_u64(start, MAX_FIXED_VOLUME_PROFILE_RANGE_MS);
        while end < from && (from - end > limit || keys[end] < earliest)
            invariant
                ascending(keys@),
                to <= end <= from < keys@.len(),
                start == keys@[from as int],
                limit == MAX_FIXED_VOLUME_PROFILE_CANDLES - 1,
                earliest == units::sat_sub(start, MAX_FIXED_VOLUME_PROFILE_RANGE_MS),
                to < end ==> !is_allowed(keys@, from as int, end - 1),
            decreases from - end,
        {
            assert(keys@[end as int] < keys@[from as int]);
            end = end + 1;
        }
        proof {
            if end < from {
                assert(keys@[end as int] < keys@[from as int]);
            }
        }
    }
    proof {
        assert(is_reach(keys@, from as int, to as int, end as int));
        nearest_is_unique(keys@, first.ms, from as int, nearest(keys@, first.ms));
        nearest_is_unique(keys@, second.ms, to as int, nearest(keys@, second.ms));
        reach_is_unique(
            keys@,
            from as int,
            to as int,
            end as int,
            reach(keys@, from as int, to as int),
        );
    }
    Some((UnixMs::new(start), UnixMs::new(keys[end])))
}

/// A normalized profile starts and ends at candles, and is never longer than a week or
/// ten thousand candles.
pub proof fn normalized_range_is_bounded(keys: Seq<u64>, first: UnixMs, second: UnixMs)
    requires
        ascending(keys),
        keys.len() > 0,
    ensures
        normalized(keys, first, second) is Some,
        ({
            let range = normalized(keys, first, second)->0;
            &&& keys.contains(range.0.ms)
            &&& keys.contains(range.1.ms)
            &&& distance(range.0.ms, range.1.ms) <= MAX_FIXED_VOLUME_PROFILE_RANGE_MS
        }),
        exists|i: int, j: int|
            {
                &&& 0 <= i < keys.len()
                &&& 0 <= j < keys.len()
                &&& (normalized(keys, first, second)->0).0.ms == #[trigger] keys[i]
                &&& (normalized(keys, first, second)->0).1.ms == #[trigger] keys[j]
                &&& -MAX_FIXED_VOLUME_PROFILE_CANDLES < j - i < MAX_FIXED_VOLUME_PROFILE_CANDLES
            },
{
    let from = nearest(keys, first.ms);
    let to = nearest(keys, second.ms);
    lemma_nearest_exists(keys, first.ms);
    lemma_nearest_exists(keys, second.ms);
    lemma_reach_exists(keys, from, to);
    let end = reach(keys, from, to);
    assert(keys[from] == (normalized(keys, first, second)->0).0.ms);
    assert(keys[end] == (normalized(keys, first, second)->0).1.ms);
}

pub proof fn lemma_nearest_exists(keys: Seq<u64>, moment: u64)
    requires
        ascending(keys),
        keys.len() > 0,
    ensures
        is_nearest(keys, moment, nearest(keys, moment)),
    decreases keys.len(),
{
    let last = keys.len() - 1;
    if last == 0 {
        assert(is_nearest(keys, moment, 0));
    } else {
        let shorter = keys.drop_last();
        assert(ascending(shorter));
        lemma_nearest_exists(shorter, moment);
        let at = nearest(shorter, moment);
        assert(forall|i: int| 0 <= i < last ==> #[trigger] shorter[i] == keys[i]);
        if distance(keys[last], moment) < distance(keys[at], moment) {
            assert forall|i: int| 0 <= i < last implies distance(#[trigger] keys[i], moment)
                > distance(keys[last], moment) by {
                assert(distance(shorter[i], moment) >= distance(shorter[at], moment));
            }
            assert(is_nearest(keys, moment, last));
        } else {
            assert forall|i: int| 0 <= i < keys.len() implies distance(#[trigger] keys[i], moment)
                >= distance(keys[at], moment) by {
                if i < last {
                    assert(shorter[i] == keys[i]);
                }
            }
            assert forall|i: int| 0 <= i < at implies distance(#[trigger] keys[i], moment)
                > distance(keys[at], moment) by {
                assert(shorter[i] == keys[i]);
            }
            assert(is_nearest(keys, moment, at));
        }
    }
}

pub proof fn lemma_reach_exists(keys: Seq<u64>, first: int, second: int)
    requires
        ascending(keys),
        0 <= first < keys.len(),
        0 <= second < keys.len(),
    ensures
        is_reach(keys, first, second, reach(keys, first, second)),
        0 <= reach(keys, first, second) < keys.len(),
    decreases
            if first <= second {
                second - first
            } else {
                first - second
            },
{
    if is_allowed(keys, first, second) {
        assert(is_reach(keys, first, second, second));
    } else {
        let closer = if first <= second {
            second - 1
        } else {
            second + 1
        };
        lemma_reach_exists(keys, first, closer);
        let r = reach(keys, first, closer);
        assert(is_reach(keys, first, second, r));
    }
}

/// `value + to - from`, kept within the range of moments.
pub open spec fn shifted(value: u64, from: u64, to: u64) -> u64 {
    let moved = value + to - from;
    if moved < 0 {
        0
    } else if moved > u64::MAX {
        u64::MAX
    } else {
        moved as u64
    }
}

fn shift(value: u64, from: u64, to: u64) -> (r: u64)
    ensures
        r == shifted(value, from, to),
{
    let moved: i128 = value as i128 + to as i128 - from as i128;
    if moved < 0 {
        0
    } else if moved > u64::MAX as i128 {
        u64::MAX
    } else {
        moved as u64
    }
}

/// `value + to - from`, kept within the range of prices.
pub open spec fn shifted_price(value: Price, from: Price, to: Price) -> Price {
    let moved = value.units + to.units - from.units;
    Price {
        units: if moved < i64::MIN {
            i64::MIN
        } else if moved > i64::MAX {
            i64::MAX
        } else {
            moved as i64
        },
    }
}

fn shift_price(value: Price, from: Price, to: Price) -> (r: Price)
    ensures
        r == shifted_price(value, from, to),
{
    let moved: i128 = value.units as i128 + to.units as i128 - from.units as i128;
    let units: i64 = if moved < i64::MIN as i128 {
        i64::MIN
    } else if moved > i64::MAX as i128 {
        i64::MAX
    } else {
        moved as i64
    };
    Price { units }
}

/// The position after a movement from `start` to `end`, where all three are of one kind.
pub open spec fn shifted_x(x: DrawingX, start: DrawingX, end: DrawingX) -> DrawingX {
    match (x, start, end) {
        (DrawingX::Time(value), DrawingX::Time(from), DrawingX::Time(to)) => DrawingX::Time(
            UnixMs { ms: shifted(value.ms, from.ms, to.ms) },
        ),
        (DrawingX::Tick(value), DrawingX::Tick(from), DrawingX::Tick(to)) => DrawingX::Tick(
            shifted(value, from, to),
        ),
        _ => x,
    }
}

fn shift_x(x: DrawingX, start: DrawingX, end: DrawingX) -> (r: DrawingX)
    ensures
        r == shifted_x(x, start, end),
{
    match (x, start, end) {
        (DrawingX::Time(value), DrawingX::Time(from), DrawingX::Time(to)) => DrawingX::Time(
            UnixMs::new(shift(value.ms, from.ms, to.ms)),
        ),
        (DrawingX::Tick(value), DrawingX::Tick(from), DrawingX::Tick(to)) => DrawingX::Tick(
            shift(value, from, to),
        ),
        _ => x,
    }
}

pub open spec fn shifted_anchor(
    anchor: DrawingAnchor,
    start: DrawingAnchor,
    end: DrawingAnchor,
) -> DrawingAnchor {
    DrawingAnchor {
        x: shifted_x(anchor.x, start.x, end.x),
        price: shifted_price(anchor.price, start.price, end.price),
    }
}

/// The anchor after a movement from `start` to `end`.
pub fn translate_anchor(anchor: DrawingAnchor, start: DrawingAnchor, end: DrawingAnchor) -> (r:
    DrawingAnchor)
    ensures
        r == shifted_anchor(anchor, start, end),
{
    DrawingAnchor {
        x: shift_x(anchor.x, start.x, end.x),
        price: shift_price(anchor.price, start.price, end.price),
    }
}

impl GeometryModel {
    /// The shape after a movement from `start` to `end`.
    pub open spec fn translated(self, start: DrawingAnchor, end: DrawingAnchor) -> Self {
        match self {
            GeometryModel::Freehand(points) => GeometryModel::Freehand(
                points.map_values(|point: DrawingAnchor| shifted_anchor(point, start, end)),
            ),
            GeometryModel::HorizontalLine(price) => GeometryModel::HorizontalLine(
                shifted_price(price, start.price, end.price),
            ),
            GeometryModel::VerticalLine(x) => GeometryModel::VerticalLine(
                shifted_x(x, start.x, end.x),
            ),
            GeometryModel::Rectangle(first, second) => GeometryModel::Rectangle(
                shifted_anchor(first, start, end),
                shifted_anchor(second, start, end),
            ),
            GeometryModel::Fibonacci(first, second) => GeometryModel::Fibonacci(
                shifted_anchor(first, start, end),
                shifted_anchor(second, start, end),
            ),
            GeometryModel::TrendLine(first, second) => GeometryModel::TrendLine(
                shifted_anchor(first, start, end),
                shifted_anchor(second, start, end),
            ),
            GeometryModel::Text(anchor, content) => GeometryModel::Text(
                shifted_anchor(anchor, start, end),
                content,
            ),
            GeometryModel::FixedRangeVolumeProfile(first, second) => match (start.x, end.x) {
                (DrawingX::Time(from), DrawingX::Time(to)) => {
                    GeometryModel::FixedRangeVolumeProfile(
                        UnixMs { ms: shifted(first.ms, from.ms, to.ms) },
                        UnixMs { ms: shifted(second.ms, from.ms, to.ms) },
                    )
                },
                _ => self,
            },
        }
    }

    /// The shape after one of its handles has been dragged to `anchor`. A rectangle has a
    /// handle at each corner, lines and profiles one at each end.
    pub open spec fn resized(self, anchor: DrawingAnchor, handle: u8) -> Self {
        match self {
            GeometryModel::Rectangle(first, second) => if handle == 0 {
                GeometryModel::Rectangle(anchor, second)
            } else if handle == 1 {
                GeometryModel::Rectangle(
                    DrawingAnchor { price: anchor.price, ..first },
                    DrawingAnchor { x: anchor.x, ..second },
                )
            } else if handle == 2 {
                GeometryModel::Rectangle(
                    DrawingAnchor { x: anchor.x, ..first },
                    DrawingAnchor { price: anchor.price, ..second },
                )
            } else {
                GeometryModel::Rectangle(first, anchor)
            },
            GeometryModel::Fibonacci(first, second) => if handle == 0 {
                GeometryModel::Fibonacci(anchor, second)
            } else {
                GeometryModel::Fibonacci(first, anchor)
            },
            GeometryModel::TrendLine(first, second) => if handle == 0 {
                GeometryModel::TrendLine(anchor, second)
            } else {
                GeometryModel::TrendLine(first, anchor)
            },
            GeometryModel::FixedRangeVolumeProfile(first, second) => match anchor.x {
                DrawingX::Time(time) => if handle == 0 {
                    GeometryModel::FixedRangeVolumeProfile(time, second)
                } else {
                    GeometryModel::FixedRangeVolumeProfile(first, time)
                },
                DrawingX::Tick(_) => self,
            },
            _ => self,
        }
    }
}

/// The shape after a movement from `start` to `end`.
pub fn translate_geometry(geometry: &DrawingGeometry, start: DrawingAnchor, end: DrawingAnchor) -> (r:
    DrawingGeometry)
    ensures
        r@ == geometry@.translated(start, end),
{
    match geometry {
        DrawingGeometry::Freehand { points } => {
            let mut moved: Vec<DrawingAnchor> = Vec::new();
            let mut i: usize = 0;
            let ghost target = points@.map_values(
                |point: DrawingAnchor| shifted_anchor(point, start, end),
            );
            while i < points.len()
                invariant
                    i <= points@.len(),
                    target == points@.map_values(
                        |point: DrawingAnchor| shifted_anchor(point, start, end),
                    ),
                    moved@ == target.take(i as int),
                decreases points@.len() - i,
            {
                moved.push(translate_anchor(points[i], start, end));
                assert(moved@ =~= target.take(i + 1));
                i = i + 1;
            }
            assert(target.take(points@.len() as int) =~= target);
            DrawingGeometry::Freehand { points: moved }
        },
        DrawingGeometry::HorizontalLine { price } => DrawingGeometry::HorizontalLine {
            price: shift_price(*price, start.price, end.price),
        },
        DrawingGeometry::VerticalLine { x } => DrawingGeometry::VerticalLine {
            x: shift_x(*x, start.x, end.x),
        },
        DrawingGeometry::Rectangle { first, second } => DrawingGeometry::Rectangle {
            first: translate_anchor(*first, start, end),
            second: translate_anchor(*second, start, end),
        },
        DrawingGeometry::Fibonacci { first, second } => DrawingGeometry::Fibonacci {
            first: translate_anchor(*first, start, end),
            second: translate_anchor(*second, start, end),
        },
        DrawingGeometry::TrendLine { first, second } => DrawingGeometry::TrendLine {
            first: translate_anchor(*first, start, end),
            second: translate_anchor(*second, start, end),
        },
        DrawingGeometry::Text { anchor, content } => DrawingGeometry::Text {
            anchor: translate_anchor(*anchor, start, end),
            content: content.clone(),
        },
        DrawingGeometry::FixedRangeVolumeProfile { first, second } => match (start.x, end.x) {
            (DrawingX::Time(from), DrawingX::Time(to)) => {
                DrawingGeometry::FixedRangeVolumeProfile {
                    first: UnixMs::new(shift(first.ms, from.ms, to.ms)),
                    second: UnixMs::new(shift(second.ms, from.ms, to.ms)),
                }
            },
            _ => DrawingGeometry::FixedRangeVolumeProfile { first: *first, second: *second },
        },
    }
}

/// The shape after one of its handles has been dragged to `anchor`.
pub fn resize_geometry(geometry: &DrawingGeometry, anchor: DrawingAnchor, handle: u8) -> (r:
    DrawingGeometry)
    ensures
        r@ == geometry@.resized(anchor, handle),
{
    match geometry {
        DrawingGeometry::Rectangle { first, second } => {
            let mut first: DrawingAnchor = *first;
            let mut second: DrawingAnchor = *second;
            if handle == 0 {
                first = anchor;
            } else if handle == 1 {
                first.price = anchor.price;
                second.x = anchor.x;
            } else if handle == 2 {
                first.x = anchor.x;
                second.price = anchor.price;
            } else {
                second = anchor;
            }
            DrawingGeometry::Rectangle { first, second }
        },
        DrawingGeometry::Fibonacci { first, second } => {
            if handle == 0 {
                DrawingGeometry::Fibonacci { first: anchor, second: *second }
            } else {
                DrawingGeometry::Fibonacci { first: *first, second: anchor }
            }
        },
        DrawingGeometry::TrendLine { first, second } => {
            if handle == 0 {
                DrawingGeometry::TrendLine { first: anchor, second: *second }
            } else {
                DrawingGeometry::TrendLine { first: *first, second: anchor }
            }
        },
        DrawingGeometry::FixedRangeVolumeProfile { first, second } => match anchor.x {
            DrawingX::Time(time) => {
                if handle == 0 {
                    DrawingGeometry::FixedRangeVolumeProfile { first: time, second: *second }
                } else {
                    DrawingGeometry::FixedRangeVolumeProfile { first: *first, second: time }
                }
            },
            DrawingX::Tick(_) => copy_geometry(geometry),
        },
        _ => copy_geometry(geometry),
    }
}

/// Moving there and back leaves a shape of two anchors where it was, as long as nothing
/// leaves the range of numbers on the way.
pub proof fn moving_back_restores_an_anchor(
    anchor: DrawingAnchor,
    start: DrawingAnchor,
    end: DrawingAnchor,
)
    requires
        i64::MIN <= anchor.price.units + end.price.units - start.price.units <= i64::MAX,
        match (anchor.x, start.x, end.x) {
            (DrawingX::Time(value), DrawingX::Time(from), DrawingX::Time(to)) => 0 <= value.ms
                + to.ms - from.ms <= u64::MAX,
            (DrawingX::Tick(value), DrawingX::Tick(from), DrawingX::Tick(to)) => 0 <= value + to
                - from <= u64::MAX,
            _ => true,
        },
    ensures
        shifted_anchor(shifted_anchor(anchor, start, end), end, start) == anchor,
{
}

/// The middle of two numbers, rounded down.
pub open spec fn middle(a: u64, b: u64) -> u64 {
    ((a + b) / 2) as u64
}

fn middle_of(a: u64, b: u64) -> (r: u64)
    ensures
        r == middle(a, b),
{
    ((a as u128 + b as u128) / 2) as u64
}

/// The middle of two positions of one kind, otherwise the first.
pub open spec fn middle_x(first: DrawingX, second: DrawingX) -> DrawingX {
    match (first, second) {
        (DrawingX::Time(a), DrawingX::Time(b)) => DrawingX::Time(
            UnixMs { ms: middle(a.ms, b.ms) },
        ),
        (DrawingX::Tick(a), DrawingX::Tick(b)) => DrawingX::Tick(middle(a, b)),
        _ => first,
    }
}

pub fn midpoint_x(first: DrawingX, second: DrawingX) -> (r: DrawingX)
    ensures
        r == middle_x(first, second),
{
    match (first, second) {
        (DrawingX::Time(a), DrawingX::Time(b)) => DrawingX::Time(
            UnixMs::new(middle_of(a.ms, b.ms)),
        ),
        (DrawingX::Tick(a), DrawingX::Tick(b)) => DrawingX::Tick(middle_of(a, b)),
        _ => first,
    }
}

/// Half of a sum, rounded toward zero.
pub open spec fn middle_price(a: Price, b: Price) -> Price {
    let sum = a.units + b.units;
    Price {
        units: if sum >= 0 {
            (sum / 2) as i64
        } else {
            (-((-sum) / 2)) as i64
        },
    }
}

fn middle_price_of(a: Price, b: Price) -> (r: Price)
    ensures
        r == middle_price(a, b),
{
    let sum: i128 = a.units as i128 + b.units as i128;
    let half: i128 = if sum >= 0 {
        sum / 2
    } else {
        -((-sum) / 2)
    };
    Price { units: half as i64 }
}

impl GeometryModel {
    /// The place that the view is moved to when a drawing is focused; none for an empty
    /// freehand line.
    pub open spec fn focus(self) -> Option<DrawingAnchor> {
        match self {
            GeometryModel::HorizontalLine(price) => Some(
                DrawingAnchor { x: DrawingX::Tick(0), price },
            ),
            GeometryModel::VerticalLine(x) => Some(DrawingAnchor { x, price: Price { units: 0 } }),
            GeometryModel::Rectangle(first, second) => Some(
                DrawingAnchor {
                    x: middle_x(first.x, second.x),
                    price: middle_price(first.price, second.price),
                },
            ),
            GeometryModel::Fibonacci(first, second) => Some(
                DrawingAnchor {
                    x: middle_x(first.x, second.x),
                    price: middle_price(first.price, second.price),
                },
            ),
            GeometryModel::TrendLine(first, second) => Some(
                DrawingAnchor {
                    x: middle_x(first.x, second.x),
                    price: middle_price(first.price, second.price),
                },
            ),
            GeometryModel::Freehand(points) => if points.len() > 0 {
                Some(points[0])
            } else {
                None
            },
            GeometryModel::Text(anchor, _) => Some(anchor),
            GeometryModel::FixedRangeVolumeProfile(first, second) => Some(
                DrawingAnchor {
                    x: DrawingX::Time(UnixMs { ms: middle(first.ms, second.ms) }),
                    price: Price { units: 0 },
                },
            ),
        }
    }
}

/// The place that the view is moved to when a drawing is focused.
pub fn drawing_focus_anchor(geometry: &DrawingGeometry) -> (r: Option<DrawingAnchor>)
    ensures
        r == geometry@.focus(),
{
    match geometry {
        DrawingGeometry::HorizontalLine { price } => Some(
            DrawingAnchor { x: DrawingX::Tick(0), price: *price },
        ),
        DrawingGeometry::VerticalLine { x } => Some(
            DrawingAnchor { x: *x, price: Price { units: 0 } },
        ),
        DrawingGeometry::Rectangle { first, second } => Some(
            DrawingAnchor {
                x: midpoint_x(first.x, second.x),
                price: middle_price_of(first.price, second.price),
            },
        ),
        DrawingGeometry::Fibonacci { first, second } => Some(
            DrawingAnchor {
                x: midpoint_x(first.x, second.x),
                price: middle_price_of(first.price, second.price),
            },
        ),
        DrawingGeometry::TrendLine { first, second } => Some(
            DrawingAnchor {
                x: midpoint_x(first.x, second.x),
                price: middle_price_of(first.price, second.price),
            },
        ),
        DrawingGeometry::Freehand { points } => {
            if points.len() > 0 {
                Some(points[0])
            } else {
                None
            }
        },
        DrawingGeometry::Text { anchor, .. } => Some(*anchor),
        DrawingGeometry::FixedRangeVolumeProfile { first, second } => Some(
            DrawingAnchor {
                x: DrawingX::Time(UnixMs::new(middle_of(first.ms, second.ms))),
                price: Price { units: 0 },
            },
        ),
    }
}

} // verus!
