//! The layers of a candle chart, from back to front.
use vstd::prelude::*;
use crate::chart::kline::crosshair::CandleAxis;
use crate::chart::kline::market::{ChartKind, Overlays};
use crate::units;
use crate::units::{larger, smaller, UnixMs};

verus! {

#[derive(Clone, Copy, Debug, PartialEq, Eq, Structural)]
pub enum Layer {
    PointsOfControl,
    Clusters,
    GexBackground,
    SessionProfiles,
    Vwap,
    Candles,
    /// Bubbles of the range of time.
    Bubbles(u64, u64),
    GexForeground,
    LastPrice,
}

/// What decides which layers there are.
#[derive(Clone, Copy, Debug)]
pub struct LayerInput {
    pub kind: ChartKind,
    pub overlays: Overlays,
    pub bubbles_enabled: bool,
    pub gex_levels_enabled: bool,
    pub has_gex_snapshot: bool,
    pub has_gex_proxy: bool,
    /// The visible range.
    pub earliest: u64,
    pub latest: u64,
    /// The window of bubbles, where there is one.
    pub bubble_window: Option<(UnixMs, UnixMs)>,
}

pub open spec fn layer_if(condition: bool, layer: Layer) -> Seq<Layer> {
    if condition {
        seq![layer]
    } else {
        seq![]
    }
}

/// The layer of bubbles: the visible part of their window, where they are switched on.
pub open spec fn bubble_layer(input: LayerInput) -> Seq<Layer> {
    match input.bubble_window {
        Some((from, to)) => layer_if(
            input.bubbles_enabled && input.overlays.volume_bubbles,
            Layer::Bubbles(
                units::max_u64(input.earliest, from.ms),
                units::min_u64(input.latest, to.ms),
            ),
        ),
        None => seq![],
    }
}

/// The layers of a chart, from back to front.
pub open spec fn layers_of(input: LayerInput) -> Seq<Layer> {
    match input.kind {
        ChartKind::Footprint => seq![Layer::PointsOfControl, Layer::Clusters, Layer::LastPrice],
        ChartKind::Candles => layer_if(
            input.gex_levels_enabled && (input.has_gex_snapshot || input.has_gex_proxy),
            Layer::GexBackground,
        ) + layer_if(input.overlays.session_volume_profile, Layer::SessionProfiles) + layer_if(
            input.overlays.vwap,
            Layer::Vwap,
        ) + seq![Layer::Candles] + bubble_layer(input) + layer_if(
            input.gex_levels_enabled && input.has_gex_snapshot,
            Layer::GexForeground,
        ) + seq![Layer::LastPrice],
    }
}

/// The layers of a chart, from back to front.
pub fn draw_layers(input: &LayerInput) -> (r: Vec<Layer>)
    ensures
        r@ == layers_of(*input),
{
    let mut r: Vec<Layer> = Vec::new();
    match input.kind {
        ChartKind::Footprint => {
            r.push(Layer::PointsOfControl);
            r.push(Layer::Clusters);
        },
        ChartKind::Candles => {
            if input.gex_levels_enabled && (input.has_gex_snapshot || input.has_gex_proxy) {
                r.push(Layer::GexBackground);
            }
            if input.overlays.session_volume_profile {
                r.push(Layer::SessionProfiles);
            }
            if input.overlays.vwap {
                r.push(Layer::Vwap);
            }
            r.push(Layer::Candles);
            if input.bubbles_enabled && input.overlays.volume_bubbles {
                if let Some((from, to)) = input.bubble_window {
                    r.push(
                        Layer::Bubbles(
                            larger(input.earliest, from.ms),
                            smaller(input.latest, to.ms),
                        ),
                    );
                }
            }
            if input.gex_levels_enabled && input.has_gex_snapshot {
                r.push(Layer::GexForeground);
            }
        },
    }
    r.push(Layer::LastPrice);
    assert(r@ =~= layers_of(*input));
    r
}

/// The places of the candles that lie in `[earliest, latest]`: of a time axis by their
/// time, of a tick axis by their distance from the newest candle, which comes first.
pub open spec fn is_drawn_candle(axis: CandleAxis, earliest: u64, latest: u64, at: int) -> bool {
    match axis {
        CandleAxis::Time(times) => 0 <= at < times@.len() && earliest <= times@[at] <= latest,
        CandleAxis::Tick { count, .. } => 0 <= at < count && earliest <= count - 1 - at <= latest,
    }
}

/// The drawn candles, from left to right on a time axis and from right to left on a tick
/// axis.
pub fn render_data_source(axis: &CandleAxis, earliest: u64, latest: u64) -> (r: Vec<usize>)
    ensures
        forall|k: int|
            0 <= k < r@.len() ==> is_drawn_candle(
                *axis,
                earliest,
                latest,
                (#[trigger] r@[k]) as int,
            ),
        forall|at: usize| is_drawn_candle(*axis, earliest, latest, at as int) ==> #[trigger]
            r@.contains(at),
        axis is Time ==> forall|i: int, j: int| 0 <= i < j < r@.len() ==> r@[i] < r@[j],
        axis is Tick ==> forall|i: int, j: int| 0 <= i < j < r@.len() ==> r@[i] > r@[j],
{
    let mut r: Vec<usize> = Vec::new();
    match axis {
        CandleAxis::Time(times) => {
            let mut i: usize = 0;
            while i < times.len()
                invariant
                    i <= times@.len(),
                    *axis == CandleAxis::Time(*times),
                    forall|k: int|
                        0 <= k < r@.len() ==> (#[trigger] r@[k]) < i && is_drawn_candle(
                            *axis,
                            earliest,
                            latest,
                            r@[k] as int,
                        ),
                    forall|at: usize|
                        at < i && is_drawn_candle(*axis, earliest, latest, at as int)
                            ==> #[trigger] r@.contains(at),
                    forall|a: int, b: int| 0 <= a < b < r@.len() ==> r@[a] < r@[b],
                decreases times@.len() - i,
            {
                let ghost before = r@;
                if earliest <= times[i] && times[i] <= latest {
                    r.push(i);
                }
                proof {
                    lemma_drawn_grows(*axis, earliest, latest, before, r@, i);
                }
                i = i + 1;
            }
        },
        CandleAxis::Tick { count, .. } => {
            let mut index: usize = 0;
            while index < *count
                invariant
                    index <= *count,
                    axis is Tick,
                    axis->count == *count,
                    forall|k: int|
                        0 <= k < r@.len() ==> (#[trigger] r@[k]) >= *count - index
                            && is_drawn_candle(*axis, earliest, latest, r@[k] as int),
                    forall|at: usize|
                        at >= *count - index && is_drawn_candle(
                            *axis,
                            earliest,
                            latest,
                            at as int,
                        ) ==> #[trigger] r@.contains(at),
                    forall|a: int, b: int| 0 <= a < b < r@.len() ==> r@[a] > r@[b],
                decreases *count - index,
            {
                let ghost before = r@;
                let at: usize = *count - 1 - index;
                if index as u64 <= latest && index as u64 >= earliest {
                    r.push(at);
                }
                proof {
                    lemma_drawn_grows(*axis, earliest, latest, before, r@, at);
                }
                index = index + 1;
            }
        },
    }
    r
}

proof fn lemma_drawn_grows(
    axis: CandleAxis,
    earliest: u64,
    latest: u64,
    before: Seq<usize>,
    after: Seq<usize>,
    at: usize,
)
    requires
        after == if is_drawn_candle(axis, earliest, latest, at as int) {
            before.push(at)
        } else {
            before
        },
    ensures
        forall|other: usize| before.contains(other) ==> #[trigger] after.contains(other),
        is_drawn_candle(axis, earliest, latest, at as int) ==> after.contains(at),
{
    assert forall|other: usize| before.contains(other) implies #[trigger] after.contains(
        other,
    ) by {
        let k = choose|k: int| 0 <= k < before.len() && before[k] == other;
        assert(after[k] == other);
    }
    if is_drawn_candle(axis, earliest, latest, at as int) {
        assert(after[before.len() as int] == at);
    }
}

} // verus!
