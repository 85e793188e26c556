//! The levels of the remote proxy series as open stepped lines: which horizontal segments
//! and which vertical transitions are drawn.
//!
//! Levels are held by their bit patterns. All levels that are drawn are finite and
//! positive, and such numbers are equal exactly when their bit patterns are.
use vstd::prelude::*;
use crate::connector::records;
use crate::connector::records::{keep_oldest, Timed};
use crate::units;
use crate::units::{larger, saturating_add_u64, saturating_sub_u64, smaller, Bits64, UnixMs};

verus! {

/// The interval at which the remote series is observed.
pub const SOURCE_INTERVAL_MS: u64 = 300_000;

/// The longest gap between two observations that a line connects.
pub const MAX_TRANSITION_GAP_MS: u64 = 450_000;

#[derive(Clone, Copy, Debug, PartialEq, Eq, Structural)]
pub enum GexProxyRailSeries {
    Positive1,
    Positive2,
    Negative1,
    Negative2,
    GammaFlip,
}

/// One observation of the remote series, and where its other figures are kept.
#[derive(Clone, Copy, Debug, PartialEq, Eq, Structural)]
pub struct GexProxyHistoryPoint {
    pub observed_at: i64,
    pub flip_level: Option<Bits64>,
    pub call_wall: Option<Bits64>,
    pub put_wall: Option<Bits64>,
    pub positive_level_1: Option<Bits64>,
    pub positive_level_2: Option<Bits64>,
    pub negative_level_1: Option<Bits64>,
    pub negative_level_2: Option<Bits64>,
    pub slot: usize,
}

impl GexProxyRailSeries {
    pub open spec fn name(self) -> Seq<char> {
        match self {
            GexProxyRailSeries::Positive1 => "Positive Proxy P1"@,
            GexProxyRailSeries::Positive2 => "Positive Proxy P2"@,
            GexProxyRailSeries::Negative1 => "Negative Proxy N1"@,
            GexProxyRailSeries::Negative2 => "Negative Proxy N2"@,
            GexProxyRailSeries::GammaFlip => "Gamma Flip Proxy"@,
        }
    }

    pub fn label(self) -> (r: &'static str)
        ensures
            r@ == self.name(),
    {
        match self {
            GexProxyRailSeries::Positive1 => "Positive Proxy P1",
            GexProxyRailSeries::Positive2 => "Positive Proxy P2",
            GexProxyRailSeries::Negative1 => "Negative Proxy N1",
            GexProxyRailSeries::Negative2 => "Negative Proxy N2",
            GexProxyRailSeries::GammaFlip => "Gamma Flip Proxy",
        }
    }

    pub open spec fn field(self, point: GexProxyHistoryPoint) -> Option<Bits64> {
        match self {
            GexProxyRailSeries::Positive1 => point.positive_level_1,
            GexProxyRailSeries::Positive2 => point.positive_level_2,
            GexProxyRailSeries::Negative1 => point.negative_level_1,
            GexProxyRailSeries::Negative2 => point.negative_level_2,
            GexProxyRailSeries::GammaFlip => point.flip_level,
        }
    }

    /// The level of a point in this series, where it is a finite positive number.
    pub open spec fn level_of(self, point: GexProxyHistoryPoint) -> Option<Bits64> {
        match self.field(point) {
            Some(level) => if level.finite() && level.positive() {
                Some(level)
            } else {
                None
            },
            None => None,
        }
    }

    pub fn level(self, point: &GexProxyHistoryPoint) -> (r: Option<Bits64>)
        ensures
            r == self.level_of(*point),
    {
        let field: Option<Bits64> = match self {
            GexProxyRailSeries::Positive1 => point.positive_level_1,
            GexProxyRailSeries::Positive2 => point.positive_level_2,
            GexProxyRailSeries::Negative1 => point.negative_level_1,
            GexProxyRailSeries::Negative2 => point.negative_level_2,
            GexProxyRailSeries::GammaFlip => point.flip_level,
        };
        match field {
            Some(level) => if level.is_finite() && level.is_positive() {
                Some(level)
            } else {
                None
            },
            None => None,
        }
    }
}

/// A level at a moment of the chart.
#[derive(Clone, Copy, Debug, PartialEq, Eq, Structural)]
pub struct GexProxyRailSample {
    pub observed_at: u64,
    pub chart_bucket: u64,
    pub level: Bits64,
    pub point: GexProxyHistoryPoint,
}

impl Timed for GexProxyRailSample {
    open spec fn moment(&self) -> u64 {
        self.observed_at
    }

    fn timestamp(&self) -> (r: UnixMs) {
        UnixMs::new(self.observed_at)
    }
}

/// A horizontal piece of a line.
#[derive(Clone, Copy, Debug, PartialEq, Eq, Structural)]
pub struct GexProxyRailSegment {
    pub series: GexProxyRailSeries,
    pub start: u64,
    pub end: u64,
    pub level: Bits64,
    pub clipped_by_handoff: bool,
    pub point: GexProxyHistoryPoint,
}

/// A vertical piece of a line.
#[derive(Clone, Copy, Debug, PartialEq, Eq, Structural)]
pub struct GexProxyRailTransition {
    pub series: GexProxyRailSeries,
    pub at: u64,
    pub from_level: Bits64,
    pub to_level: Bits64,
    pub point: GexProxyHistoryPoint,
}

#[derive(Debug)]
pub struct GexProxyRailGeometry {
    pub segments: Vec<GexProxyRailSegment>,
    pub transitions: Vec<GexProxyRailTransition>,
}

/// The start of the chart bucket of a moment.
pub open spec fn chart_bucket_of(moment: u64, interval: u64) -> u64 {
    (moment / interval * interval) as u64
}

fn chart_bucket(moment: u64, interval: u64) -> (r: u64)
    requires
        interval > 0,
    ensures
        r == chart_bucket_of(moment, interval),
        r <= moment,
{
    proof {
        vstd::arithmetic::div_mod::lemma_fundamental_div_mod(moment as int, interval as int);
        vstd::arithmetic::mul::lemma_mul_is_commutative(
            (moment / interval) as int,
            interval as int,
        );
    }
    moment / interval * interval
}

/// The first chart bucket of the measured series, where the proxy series has to end.
pub open spec fn handoff_of(observed: Seq<u64>, interval: u64) -> Option<u64>
    decreases observed.len(),
{
    if observed.len() == 0 {
        None
    } else {
        let bucket = chart_bucket_of(observed.last(), units::max_u64(interval, 1));
        match handoff_of(observed.drop_last(), interval) {
            Some(earlier) => Some(units::min_u64(earlier, bucket)),
            None => Some(bucket),
        }
    }
}

/// The first chart bucket of the measured series, given when its snapshots were observed.
pub fn gex_proxy_handoff_timestamp(observed: &Vec<u64>, chart_interval_ms: u64) -> (r: Option<u64>)
    ensures
        r == handoff_of(observed@, chart_interval_ms),
{
    let interval: u64 = larger(chart_interval_ms, 1);
    let mut r: Option<u64> = None;
    let mut i: usize = 0;
    while i < observed.len()
        invariant
            i <= observed@.len(),
            interval == units::max_u64(chart_interval_ms, 1),
            r == handoff_of(observed@.take(i as int), chart_interval_ms),
        decreases observed@.len() - i,
    {
        assert(observed@.take(i + 1).drop_last() =~= observed@.take(i as int));
        let bucket: u64 = chart_bucket(observed[i], interval);
        r = match r {
            Some(earlier) => Some(smaller(earlier, bucket)),
            None => Some(bucket),
        };
        i = i + 1;
    }
    assert(observed@.take(observed@.len() as int) =~= observed@);
    r
}

/// The sample of a point: none before the epoch, without a level, or from the limit on.
pub open spec fn sample_of(
    series: GexProxyRailSeries,
    point: GexProxyHistoryPoint,
    interval: u64,
    limit: u64,
) -> Option<GexProxyRailSample> {
    if point.observed_at >= 0 && point.observed_at < limit && series.level_of(point) is Some {
        Some(
            GexProxyRailSample {
                observed_at: point.observed_at as u64,
                chart_bucket: chart_bucket_of(point.observed_at as u64, interval),
                level: series.level_of(point)->0,
                point,
            },
        )
    } else {
        None
    }
}

/// The samples of a list of points, in its order.
pub open spec fn candidates(
    series: GexProxyRailSeries,
    history: Seq<GexProxyHistoryPoint>,
    interval: u64,
    limit: u64,
) -> Seq<GexProxyRailSample>
    decreases history.len(),
{
    if history.len() == 0 {
        seq![]
    } else {
        let head = candidates(series, history.drop_last(), interval, limit);
        match sample_of(series, history.last(), interval, limit) {
            Some(sample) => head.push(sample),
            None => head,
        }
    }
}

/// The samples that no other one of the same chart bucket follows.
pub open spec fn last_per_bucket(samples: Seq<GexProxyRailSample>) -> Seq<GexProxyRailSample>
    decreases samples.len(),
{
    if samples.len() == 0 {
        seq![]
    } else {
        let head = last_per_bucket(samples.drop_last());
        if head.len() > 0 && head.last().chart_bucket == samples.last().chart_bucket {
            head.drop_last().push(samples.last())
        } else {
            head.push(samples.last())
        }
    }
}

/// The samples of a series: one of each moment, ascending, on charts that are coarser than
/// the source one of each chart bucket.
pub open spec fn is_series_samples(
    series: GexProxyRailSeries,
    history: Seq<GexProxyHistoryPoint>,
    interval: u64,
    limit: u64,
    samples: Seq<GexProxyRailSample>,
) -> bool {
    exists|all: Seq<GexProxyRailSample>| #[trigger]
        records::oldest_per_moment(candidates(series, history, interval, limit), all) && samples
            == (if interval < SOURCE_INTERVAL_MS {
            all
        } else {
            last_per_bucket(all)
        })
}

pub fn gex_proxy_series_samples(
    series: GexProxyRailSeries,
    history: &Vec<GexProxyHistoryPoint>,
    chart_interval_ms: u64,
    limit: u64,
) -> (r: Vec<GexProxyRailSample>)
    requires
        chart_interval_ms > 0,
    ensures
        is_series_samples(series, history@, chart_interval_ms, limit, r@),
{
    let mut list: Vec<GexProxyRailSample> = Vec::new();
    let mut i: usize = 0;
    while i < history.len()
        invariant
            chart_interval_ms > 0,
            i <= history@.len(),
            list@ == candidates(series, history@.take(i as int), chart_interval_ms, limit),
        decreases history@.len() - i,
    {
        assert(history@.take(i + 1).drop_last() =~= history@.take(i as int));
        let point: GexProxyHistoryPoint = history[i];
        if point.observed_at >= 0 && (point.observed_at as u64) < limit {
            if let Some(level) = series.level(&point) {
                let observed_at: u64 = point.observed_at as u64;
                list.push(
                    GexProxyRailSample {
                        observed_at,
                        chart_bucket: chart_bucket(observed_at, chart_interval_ms),
                        level,
                        point,
                    },
                );
            }
        }
        i = i + 1;
    }
    assert(history@.take(history@.len() as int) =~= history@);
    let all = keep_oldest(list);
    if chart_interval_ms < SOURCE_INTERVAL_MS {
        return all;
    }
    let mut r: Vec<GexProxyRailSample> = Vec::new();
    let mut k: usize = 0;
    while k < all.len()
        invariant
            k <= all@.len(),
            r@ == last_per_bucket(all@.take(k as int)),
        decreases all@.len() - k,
    {
        assert(all@.take(k + 1).drop_last() =~= all@.take(k as int));
        let sample: GexProxyRailSample = all[k];
        let count: usize = r.len();
        if count > 0 && r[count - 1].chart_bucket == sample.chart_bucket {
            let _ = r.pop();
        }
        r.push(sample);
        k = k + 1;
    }
    assert(all@.take(all@.len() as int) =~= all@);
    r
}

/// What bounds the lines of a chart.
#[derive(Clone, Copy, Debug, PartialEq, Eq, Structural)]
pub struct RailBounds {
    pub interval: u64,
    pub handoff: Option<u64>,
    pub chart_limit: u64,
}

/// The moment up to which a sample holds on its own: until the next one, at most one
/// source interval, and not past the chart.
pub open spec fn natural_end(
    samples: Seq<GexProxyRailSample>,
    i: int,
    bounds: RailBounds,
) -> u64 {
    let next_at = if i + 1 < samples.len() {
        samples[i + 1].observed_at
    } else {
        u64::MAX
    };
    units::min_u64(
        units::min_u64(units::sat_add(samples[i].observed_at, SOURCE_INTERVAL_MS), next_at),
        bounds.chart_limit,
    )
}

pub open spec fn segment_end(samples: Seq<GexProxyRailSample>, i: int, bounds: RailBounds) -> u64 {
    match bounds.handoff {
        Some(handoff) => units::min_u64(natural_end(samples, i, bounds), handoff),
        None => natural_end(samples, i, bounds),
    }
}

pub open spec fn is_clipped(samples: Seq<GexProxyRailSample>, i: int, bounds: RailBounds) -> bool {
    bounds.handoff is Some && bounds.handoff->0 <= natural_end(samples, i, bounds)
}

/// Whether the line steps from a sample to the next: they differ, are close together with
/// no chart bucket missing between them, and the handoff comes later.
pub open spec fn is_connected(samples: Seq<GexProxyRailSample>, i: int, bounds: RailBounds) -> bool {
    &&& i + 1 < samples.len()
    &&& 0 < units::sat_sub(samples[i + 1].observed_at, samples[i].observed_at)
        <= MAX_TRANSITION_GAP_MS
    &&& bounds.interval < SOURCE_INTERVAL_MS || samples[i + 1].chart_bucket <= units::sat_add(
        samples[i].chart_bucket,
        bounds.interval,
    )
    &&& bounds.handoff is Some ==> samples[i + 1].observed_at < bounds.handoff->0
    &&& !is_clipped(samples, i, bounds)
    &&& samples[i].level != samples[i + 1].level
}

/// The segments of the first `n` samples.
pub open spec fn segments_of(
    series: GexProxyRailSeries,
    samples: Seq<GexProxyRailSample>,
    bounds: RailBounds,
    n: nat,
) -> Seq<GexProxyRailSegment>
    decreases n,
{
    if n == 0 {
        seq![]
    } else {
        let i = n - 1;
        let head = segments_of(series, samples, bounds, i as nat);
        if segment_end(samples, i, bounds) > samples[i].observed_at {
            head.push(
                GexProxyRailSegment {
                    series,
                    start: samples[i].observed_at,
                    end: segment_end(samples, i, bounds),
                    level: samples[i].level,
                    clipped_by_handoff: is_clipped(samples, i, bounds),
                    point: samples[i].point,
                },
            )
        } else {
            head
        }
    }
}

/// The transitions out of the first `n` samples.
pub open spec fn transitions_of(
    series: GexProxyRailSeries,
    samples: Seq<GexProxyRailSample>,
    bounds: RailBounds,
    n: nat,
) -> Seq<GexProxyRailTransition>
    decreases n,
{
    if n == 0 {
        seq![]
    } else {
        let i = n - 1;
        let head = transitions_of(series, samples, bounds, i as nat);
        if is_connected(samples, i, bounds) {
            head.push(
                GexProxyRailTransition {
                    series,
                    at: samples[i + 1].observed_at,
                    from_level: samples[i].level,
                    to_level: samples[i + 1].level,
                    point: samples[i + 1].point,
                },
            )
        } else {
            head
        }
    }
}

/// Adds the segments and transitions of one series.
fn push_rails(
    geometry: &mut GexProxyRailGeometry,
    series: GexProxyRailSeries,
    samples: &Vec<GexProxyRailSample>,
    bounds: RailBounds,
)
    ensures
        final(geometry).segments@ == old(geometry).segments@ + segments_of(
            series,
            samples@,
            bounds,
            samples@.len(),
        ),
        final(geometry).transitions@ == old(geometry).transitions@ + transitions_of(
            series,
            samples@,
            bounds,
            samples@.len(),
        ),
{
    let ghost segments = geometry.segments@;
    let ghost transitions = geometry.transitions@;
    let mut i: usize = 0;
    assert(geometry.segments@ =~= segments + segments_of(series, samples@, bounds, 0));
    assert(geometry.transitions@ =~= transitions + transitions_of(series, samples@, bounds, 0));
    while i < samples.len()
        invariant
            i <= samples@.len(),
            geometry.segments@ == segments + segments_of(series, samples@, bounds, i as nat),
            geometry.transitions@ == transitions + transitions_of(
                series,
                samples@,
                bounds,
                i as nat,
            ),
        decreases samples@.len() - i,
    {
        let ghost segments_before = geometry.segments@;
        let ghost transitions_before = geometry.transitions@;
        let sample: GexProxyRailSample = samples[i];
        let has_next: bool = i + 1 < samples.len();
        let next_at: u64 = if has_next {
            samples[i + 1].observed_at
        } else {
            u64::MAX
        };
        let natural: u64 = smaller(
            smaller(saturating_add_u64(sample.observed_at, SOURCE_INTERVAL_MS), next_at),
            bounds.chart_limit,
        );
        let clipped: bool = match bounds.handoff {
            Some(handoff) => handoff <= natural,
            None => false,
        };
        let end: u64 = match bounds.handoff {
            Some(handoff) => smaller(natural, handoff),
            None => natural,
        };
        if end > sample.observed_at {
            geometry.segments.push(
                GexProxyRailSegment {
                    series,
                    start: sample.observed_at,
                    end,
                    level: sample.level,
                    clipped_by_handoff: clipped,
                    point: sample.point,
                },
            );
        }
        if has_next {
            let next: GexProxyRailSample = samples[i + 1];
            let gap: u64 = saturating_sub_u64(next.observed_at, sample.observed_at);
            let before_handoff: bool = match bounds.handoff {
                Some(handoff) => next.observed_at < handoff,
                None => true,
            };
            let no_missing_bucket: bool = bounds.interval < SOURCE_INTERVAL_MS
                || next.chart_bucket <= saturating_add_u64(sample.chart_bucket, bounds.interval);
            if gap > 0 && gap <= MAX_TRANSITION_GAP_MS && no_missing_bucket && before_handoff
                && !clipped && sample.level != next.level {
                geometry.transitions.push(
                    GexProxyRailTransition {
                        series,
                        at: next.observed_at,
                        from_level: sample.level,
                        to_level: next.level,
                        point: next.point,
                    },
                );
            }
        }
        proof {
            assert(geometry.segments@ =~= segments + segments_of(
                series,
                samples@,
                bounds,
                (i + 1) as nat,
            ));
            assert(geometry.transitions@ =~= transitions + transitions_of(
                series,
                samples@,
                bounds,
                (i + 1) as nat,
            ));
        }
        i = i + 1;
    }
}

/// The bounds of a chart.
pub open spec fn bounds_of(observed: Seq<u64>, chart_interval_ms: u64, latest_candle_time: u64) -> RailBounds {
    let interval = units::max_u64(chart_interval_ms, 1);
    RailBounds {
        interval,
        handoff: handoff_of(observed, interval),
        chart_limit: units::sat_add(latest_candle_time, interval),
    }
}

/// The moment from which no sample is drawn.
pub open spec fn limit_of(bounds: RailBounds) -> u64 {
    match bounds.handoff {
        Some(handoff) => units::min_u64(handoff, bounds.chart_limit),
        None => bounds.chart_limit,
    }
}

/// The lines of all series for the given samples, in the order of the series.
pub open spec fn is_geometry_of(
    p1: Seq<GexProxyRailSample>,
    p2: Seq<GexProxyRailSample>,
    n1: Seq<GexProxyRailSample>,
    n2: Seq<GexProxyRailSample>,
    flip: Seq<GexProxyRailSample>,
    bounds: RailBounds,
    segments: Seq<GexProxyRailSegment>,
    transitions: Seq<GexProxyRailTransition>,
) -> bool {
    &&& segments == segments_of(GexProxyRailSeries::Positive1, p1, bounds, p1.len()) + segments_of(
        GexProxyRailSeries::Positive2,
        p2,
        bounds,
        p2.len(),
    ) + segments_of(GexProxyRailSeries::Negative1, n1, bounds, n1.len()) + segments_of(
        GexProxyRailSeries::Negative2,
        n2,
        bounds,
        n2.len(),
    ) + segments_of(GexProxyRailSeries::GammaFlip, flip, bounds, flip.len())
    &&& transitions == transitions_of(GexProxyRailSeries::Positive1, p1, bounds, p1.len())
        + transitions_of(GexProxyRailSeries::Positive2, p2, bounds, p2.len()) + transitions_of(
        GexProxyRailSeries::Negative1,
        n1,
        bounds,
        n1.len(),
    ) + transitions_of(GexProxyRailSeries::Negative2, n2, bounds, n2.len()) + transitions_of(
        GexProxyRailSeries::GammaFlip,
        flip,
        bounds,
        flip.len(),
    )
}

/// The lines of a history. The gamma flip is left out unless it is asked for.
pub open spec fn is_geometry(
    history: Seq<GexProxyHistoryPoint>,
    bounds: RailBounds,
    show_gamma_flip: bool,
    segments: Seq<GexProxyRailSegment>,
    transitions: Seq<GexProxyRailTransition>,
) -> bool {
    let limit = limit_of(bounds);
    exists|
        p1: Seq<GexProxyRailSample>,
        p2: Seq<GexProxyRailSample>,
        n1: Seq<GexProxyRailSample>,
        n2: Seq<GexProxyRailSample>,
        flip: Seq<GexProxyRailSample>,
    |
        {
            &&& is_series_samples(
                GexProxyRailSeries::Positive1,
                history,
                bounds.interval,
                limit,
                p1,
            )
            &&& is_series_samples(
                GexProxyRailSeries::Positive2,
                history,
                bounds.interval,
                limit,
                p2,
            )
            &&& is_series_samples(
                GexProxyRailSeries::Negative1,
                history,
                bounds.interval,
                limit,
                n1,
            )
            &&& is_series_samples(
                GexProxyRailSeries::Negative2,
                history,
                bounds.interval,
                limit,
                n2,
            )
            &&& if show_gamma_flip {
                is_series_samples(
                    GexProxyRailSeries::GammaFlip,
                    history,
                    bounds.interval,
                    limit,
                    flip,
                )
            } else {
                flip.len() == 0
            }
            &&& #[trigger] is_geometry_of(p1, p2, n1, n2, flip, bounds, segments, transitions)
        }
}

/// The lines of the remote series on a chart, given when the snapshots of the measured
/// series were observed.
pub fn build_gex_proxy_geometry(
    proxy_history: &Vec<GexProxyHistoryPoint>,
    deribit_observed: &Vec<u64>,
    chart_interval_ms: u64,
    latest_candle_time: u64,
    show_gamma_flip: bool,
) -> (r: GexProxyRailGeometry)
    ensures
        is_geometry(
            proxy_history@,
            bounds_of(deribit_observed@, chart_interval_ms, latest_candle_time),
            show_gamma_flip,
            r.segments@,
            r.transitions@,
        ),
{
    let interval: u64 = larger(chart_interval_ms, 1);
    let handoff: Option<u64> = gex_proxy_handoff_timestamp(deribit_observed, interval);
    let chart_limit: u64 = saturating_add_u64(latest_candle_time, interval);
    let bounds = RailBounds { interval, handoff, chart_limit };
    let limit: u64 = match handoff {
        Some(handoff) => smaller(handoff, chart_limit),
        None => chart_limit,
    };
    let mut geometry = GexProxyRailGeometry { segments: Vec::new(), transitions: Vec::new() };
    let p1 = gex_proxy_series_samples(
        GexProxyRailSeries::Positive1,
        proxy_history,
        interval,
        limit,
    );
    let p2 = gex_proxy_series_samples(
        GexProxyRailSeries::Positive2,
        proxy_history,
        interval,
        limit,
    );
    let n1 = gex_proxy_series_samples(
        GexProxyRailSeries::Negative1,
        proxy_history,
        interval,
        limit,
    );
    let n2 = gex_proxy_series_samples(
        GexProxyRailSeries::Negative2,
        proxy_history,
        interval,
        limit,
    );
    let flip: Vec<GexProxyRailSample> = if show_gamma_flip {
        gex_proxy_series_samples(GexProxyRailSeries::GammaFlip, proxy_history, interval, limit)
    } else {
        Vec::new()
    };
    push_rails(&mut geometry, GexProxyRailSeries::Positive1, &p1, bounds);
    push_rails(&mut geometry, GexProxyRailSeries::Positive2, &p2, bounds);
    push_rails(&mut geometry, GexProxyRailSeries::Negative1, &n1, bounds);
    push_rails(&mut geometry, GexProxyRailSeries::Negative2, &n2, bounds);
    push_rails(&mut geometry, GexProxyRailSeries::GammaFlip, &flip, bounds);
    proof {
        assert(is_geometry_of(
            p1@,
            p2@,
            n1@,
            n2@,
            flip@,
            bounds,
            geometry.segments@,
            geometry.transitions@,
        )) by {
            assert(geometry.segments@ =~= segments_of(
                GexProxyRailSeries::Positive1,
                p1@,
                bounds,
                p1@.len(),
            ) + segments_of(GexProxyRailSeries::Positive2, p2@, bounds, p2@.len()) + segments_of(
                GexProxyRailSeries::Negative1,
                n1@,
                bounds,
                n1@.len(),
            ) + segments_of(GexProxyRailSeries::Negative2, n2@, bounds, n2@.len()) + segments_of(
                GexProxyRailSeries::GammaFlip,
                flip@,
                bounds,
                flip@.len(),
            ));
            assert(geometry.transitions@ =~= transitions_of(
                GexProxyRailSeries::Positive1,
                p1@,
                bounds,
                p1@.len(),
            ) + transitions_of(GexProxyRailSeries::Positive2, p2@, bounds, p2@.len())
                + transitions_of(GexProxyRailSeries::Negative1, n1@, bounds, n1@.len())
                + transitions_of(GexProxyRailSeries::Negative2, n2@, bounds, n2@.len())
                + transitions_of(GexProxyRailSeries::GammaFlip, flip@, bounds, flip@.len()));
        }
    }
    geometry
}

/// A segment that stays on the proxy's side of the handoff and on the chart, and is at
/// most one source interval long.
pub open spec fn is_sound_segment(segment: GexProxyRailSegment, bounds: RailBounds) -> bool {
    &&& segment.start < segment.end <= segment.start + SOURCE_INTERVAL_MS
    &&& segment.end <= bounds.chart_limit
    &&& bounds.handoff is Some ==> segment.end <= bounds.handoff->0
    &&& segment.clipped_by_handoff ==> bounds.handoff == Some(segment.end)
}

/// A transition between two different levels before the handoff.
pub open spec fn is_sound_transition(
    transition: GexProxyRailTransition,
    bounds: RailBounds,
) -> bool {
    &&& transition.from_level != transition.to_level
    &&& bounds.handoff is Some ==> transition.at < bounds.handoff->0
}

proof fn lemma_rails_are_sound(
    series: GexProxyRailSeries,
    samples: Seq<GexProxyRailSample>,
    bounds: RailBounds,
    n: nat,
)
    requires
        n <= samples.len(),
    ensures
        forall|i: int|
            0 <= i < segments_of(series, samples, bounds, n).len() ==> is_sound_segment(
                #[trigger] segments_of(series, samples, bounds, n)[i],
                bounds,
            ) && segments_of(series, samples, bounds, n)[i].series == series,
        forall|i: int|
            0 <= i < transitions_of(series, samples, bounds, n).len() ==> is_sound_transition(
                #[trigger] transitions_of(series, samples, bounds, n)[i],
                bounds,
            ) && transitions_of(series, samples, bounds, n)[i].series == series,
    decreases n,
{
    if n > 0 {
        lemma_rails_are_sound(series, samples, bounds, (n - 1) as nat);
    }
}

/// The lines of the remote series never pass the handoff or the chart, never bridge more
/// than one source interval, end at the handoff without a vertical piece, and step only
/// between different levels.
pub proof fn rails_stay_in_bounds(
    history: Seq<GexProxyHistoryPoint>,
    bounds: RailBounds,
    show_gamma_flip: bool,
    segments: Seq<GexProxyRailSegment>,
    transitions: Seq<GexProxyRailTransition>,
)
    requires
        is_geometry(history, bounds, show_gamma_flip, segments, transitions),
    ensures
        forall|i: int|
            0 <= i < segments.len() ==> is_sound_segment(#[trigger] segments[i], bounds),
        forall|i: int|
            0 <= i < transitions.len() ==> is_sound_transition(#[trigger] transitions[i], bounds),
{
    let limit = limit_of(bounds);
    let (p1, p2, n1, n2, flip) = choose|
        p1: Seq<GexProxyRailSample>,
        p2: Seq<GexProxyRailSample>,
        n1: Seq<GexProxyRailSample>,
        n2: Seq<GexProxyRailSample>,
        flip: Seq<GexProxyRailSample>,
    | #[trigger] is_geometry_of(p1, p2, n1, n2, flip, bounds, segments, transitions);
    lemma_rails_are_sound(GexProxyRailSeries::Positive1, p1, bounds, p1.len());
    lemma_rails_are_sound(GexProxyRailSeries::Positive2, p2, bounds, p2.len());
    lemma_rails_are_sound(GexProxyRailSeries::Negative1, n1, bounds, n1.len());
    lemma_rails_are_sound(GexProxyRailSeries::Negative2, n2, bounds, n2.len());
    lemma_rails_are_sound(GexProxyRailSeries::GammaFlip, flip, bounds, flip.len());
    let s1 = segments_of(GexProxyRailSeries::Positive1, p1, bounds, p1.len());
    let s2 = segments_of(GexProxyRailSeries::Positive2, p2, bounds, p2.len());
    let s3 = segments_of(GexProxyRailSeries::Negative1, n1, bounds, n1.len());
    let s4 = segments_of(GexProxyRailSeries::Negative2, n2, bounds, n2.len());
    let s5 = segments_of(GexProxyRailSeries::GammaFlip, flip, bounds, flip.len());
    assert forall|i: int| 0 <= i < segments.len() implies is_sound_segment(
        #[trigger] segments[i],
        bounds,
    ) by {
        let a = s1.len();
        let b = a + s2.len();
        let c = b + s3.len();
        let d = c + s4.len();
        if i < a {
            assert(segments[i] == s1[i]);
        } else if i < b {
            assert(segments[i] == s2[i - a]);
        } else if i < c {
            assert(segments[i] == s3[i - b]);
        } else if i < d {
            assert(segments[i] == s4[i - c]);
        } else {
            assert(segments[i] == s5[i - d]);
        }
    }
    let t1 = transitions_of(GexProxyRailSeries::Positive1, p1, bounds, p1.len());
    let t2 = transitions_of(GexProxyRailSeries::Positive2, p2, bounds, p2.len());
    let t3 = transitions_of(GexProxyRailSeries::Negative1, n1, bounds, n1.len());
    let t4 = transitions_of(GexProxyRailSeries::Negative2, n2, bounds, n2.len());
    let t5 = transitions_of(GexProxyRailSeries::GammaFlip, flip, bounds, flip.len());
    assert forall|i: int| 0 <= i < transitions.len() implies is_sound_transition(
        #[trigger] transitions[i],
        bounds,
    ) by {
        let a = t1.len();
        let b = a + t2.len();
        let c = b + t3.len();
        let d = c + t4.len();
        if i < a {
            assert(transitions[i] == t1[i]);
        } else if i < b {
            assert(transitions[i] == t2[i - a]);
        } else if i < c {
            assert(transitions[i] == t3[i - b]);
        } else if i < d {
            assert(transitions[i] == t4[i - c]);
        } else {
            assert(transitions[i] == t5[i - d]);
        }
    }
}

/// A point without levels of the five series draws nothing, whatever its walls are.
pub proof fn walls_are_not_drawn(
    series: GexProxyRailSeries,
    point: GexProxyHistoryPoint,
    interval: u64,
    limit: u64,
)
    requires
        point.positive_level_1 is None,
        point.positive_level_2 is None,
        point.negative_level_1 is None,
        point.negative_level_2 is None,
        point.flip_level is None,
    ensures
        sample_of(series, point, interval, limit) is None,
{
}

/// A marker of the measured series: whether it is shown, its label and its level.
#[derive(Clone, Copy, Debug)]
pub struct GexMarker {
    pub shown: bool,
    pub label: &'static str,
    pub level: Option<Bits64>,
}

/// The call wall, the put wall and the gamma flip of the measured series, in this order.
pub fn gex_deribit_markers(
    show_call_wall: bool,
    show_put_wall: bool,
    show_gamma_flip: bool,
    call_wall: Option<Bits64>,
    put_wall: Option<Bits64>,
    gamma_flip: Option<Bits64>,
) -> (r: (GexMarker, GexMarker, GexMarker))
    ensures
        r.0.shown == show_call_wall && r.0.label@ == "CW"@ && r.0.level == call_wall,
        r.1.shown == show_put_wall && r.1.label@ == "PW"@ && r.1.level == put_wall,
        r.2.shown == show_gamma_flip && r.2.label@ == "GF"@ && r.2.level == gamma_flip,
{
    (
        GexMarker { shown: show_call_wall, label: "CW", level: call_wall },
        GexMarker { shown: show_put_wall, label: "PW", level: put_wall },
        GexMarker { shown: show_gamma_flip, label: "GF", level: gamma_flip },
    )
}

} // verus!
