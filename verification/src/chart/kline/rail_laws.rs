//! What the lines of the remote series promise, stated on its observations and moments.
use vstd::prelude::*;
use crate::chart::kline::proxy_rails;
use crate::chart::kline::proxy_rails::{
    GexProxyHistoryPoint, GexProxyRailSample, GexProxyRailSegment, GexProxyRailSeries, RailBounds,
};
use crate::units::Bits64;

verus! {

/// A series takes its own level of an observation, where that is above zero and finite.
pub proof fn series_take_their_own_level(point: GexProxyHistoryPoint, level: Bits64)
    ensures
        ({
            let drawn = 0 < level.bits < 0x7ff0_0000_0000_0000;
            &&& GexProxyRailSeries::Positive1.level_of(point) == Some(level) <==> drawn
                && point.positive_level_1 == Some(level)
            &&& GexProxyRailSeries::Positive2.level_of(point) == Some(level) <==> drawn
                && point.positive_level_2 == Some(level)
            &&& GexProxyRailSeries::Negative1.level_of(point) == Some(level) <==> drawn
                && point.negative_level_1 == Some(level)
            &&& GexProxyRailSeries::Negative2.level_of(point) == Some(level) <==> drawn
                && point.negative_level_2 == Some(level)
            &&& GexProxyRailSeries::GammaFlip.level_of(point) == Some(level) <==> drawn
                && point.flip_level == Some(level)
        }),
{
    crate::unit_laws::finite_figures_lie_below_infinity(level, crate::units::Bits32 { bits: 0 });
}

/// A moment lies in the chart bucket that begins at or before it and ends after it, and buckets
/// begin at multiples of their length.
pub proof fn moments_lie_in_their_chart_bucket(moment: u64, interval: u64)
    requires
        interval > 0,
    ensures
        proxy_rails::chart_bucket_of(moment, interval) <= moment < proxy_rails::chart_bucket_of(
            moment,
            interval,
        ) + interval,
        proxy_rails::chart_bucket_of(moment, interval) as int % interval as int == 0,
{
    let m = moment as int;
    let length = interval as int;
    vstd::arithmetic::div_mod::lemma_fundamental_div_mod(m, length);
    vstd::arithmetic::div_mod::lemma_mod_multiples_basic(m / length, length);
    vstd::arithmetic::mul::lemma_mul_is_commutative(m / length, length);
}

/// The remote series hands over at the first chart bucket of the measured one: at the bucket of
/// some observation and after that of none. Without observations it does not hand over.
pub proof fn the_handoff_is_the_first_measured_bucket(observed: Seq<u64>, interval: u64)
    requires
        interval > 0,
    ensures
        proxy_rails::handoff_of(observed, interval) is Some <==> observed.len() > 0,
        proxy_rails::handoff_of(observed, interval) matches Some(handoff) ==> {
            &&& forall|i: int|
                0 <= i < observed.len() ==> handoff <= proxy_rails::chart_bucket_of(
                    #[trigger] observed[i],
                    interval,
                )
            &&& exists|i: int|
                0 <= i < observed.len() && handoff == proxy_rails::chart_bucket_of(
                    #[trigger] observed[i],
                    interval,
                )
        },
    decreases observed.len(),
{
    if observed.len() > 0 {
        let front = observed.drop_last();
        let last = observed.len() - 1;
        the_handoff_is_the_first_measured_bucket(front, interval);
        assert(observed[last] == observed.last());
        assert(forall|i: int| 0 <= i < front.len() ==> #[trigger] front[i] == observed[i]);
        let handoff = proxy_rails::handoff_of(observed, interval)->0;
        if front.len() > 0 {
            let before = proxy_rails::handoff_of(front, interval)->0;
            let i = choose|i: int|
                0 <= i < front.len() && before == proxy_rails::chart_bucket_of(
                    #[trigger] front[i],
                    interval,
                );
            assert(before == proxy_rails::chart_bucket_of(observed[i], interval));
        }
        assert forall|i: int| 0 <= i < observed.len() implies handoff
            <= proxy_rails::chart_bucket_of(#[trigger] observed[i], interval) by {
            if i < last {
                assert(front[i] == observed[i]);
            }
        }
    }
}

/// The lines end with the chart, one interval after its last candle, and where the measured
/// series begins.
pub proof fn lines_end_with_the_chart(observed: Seq<u64>, interval: u64, latest: u64)
    requires
        interval > 0,
        latest + interval <= 0xffff_ffff_ffff_ffff,
    ensures
        ({
            let bounds = proxy_rails::bounds_of(observed, interval, latest);
            &&& bounds.interval == interval
            &&& bounds.chart_limit == latest + interval
            &&& bounds.handoff == proxy_rails::handoff_of(observed, interval)
            &&& proxy_rails::limit_of(bounds) <= latest + interval
            &&& bounds.handoff matches Some(handoff) ==> proxy_rails::limit_of(bounds) <= handoff
                && (proxy_rails::limit_of(bounds) == handoff || proxy_rails::limit_of(bounds)
                == latest + interval)
            &&& bounds.handoff is None ==> proxy_rails::limit_of(bounds) == latest + interval
        }),
        proxy_rails::bounds_of(observed, 0, latest).interval == 1,
{
}

/// Exactly the observations of a history give samples that have a level of the series, are not
/// before the epoch and before the limit; each carries its moment, its level and its bucket,
/// and their order stays: `at` names them.
pub proof fn observations_give_samples(
    series: GexProxyRailSeries,
    history: Seq<GexProxyHistoryPoint>,
    interval: u64,
    limit: u64,
) -> (at: Seq<int>)
    ensures
        ({
            let samples = proxy_rails::candidates(series, history, interval, limit);
            &&& at.len() == samples.len()
            &&& forall|k: int|
                0 <= k < at.len() ==> 0 <= (#[trigger] at[k]) < history.len() && {
                    let sample = samples[k];
                    let point = history[at[k]];
                    &&& sample.point == point
                    &&& sample.observed_at == point.observed_at
                    &&& series.level_of(point) == Some(sample.level)
                    &&& sample.chart_bucket == proxy_rails::chart_bucket_of(
                        sample.observed_at,
                        interval,
                    )
                }
            &&& forall|a: int, b: int|
                0 <= a < b < at.len() ==> (#[trigger] at[a]) < (#[trigger] at[b])
        }),
        forall|i: int|
            0 <= i < history.len() ==> (#[trigger] at.contains(i) <==> 0 <= history[i].observed_at
                < limit && series.level_of(history[i]) is Some),
    decreases history.len(),
{
    if history.len() == 0 {
        seq![]
    } else {
        let front = history.drop_last();
        let last = history.len() - 1;
        let head = observations_give_samples(series, front, interval, limit);
        let before = proxy_rails::candidates(series, front, interval, limit);
        let all = proxy_rails::candidates(series, history, interval, limit);
        let taken = 0 <= history[last].observed_at < limit && series.level_of(history[last])
            is Some;
        let at = if taken {
            head.push(last)
        } else {
            head
        };
        assert(history[last] == history.last());
        assert forall|k: int| 0 <= k < at.len() implies 0 <= (#[trigger] at[k]) < history.len() && {
            let sample = all[k];
            let point = history[at[k]];
            &&& sample.point == point
            &&& sample.observed_at == point.observed_at
            &&& series.level_of(point) == Some(sample.level)
            &&& sample.chart_bucket == proxy_rails::chart_bucket_of(sample.observed_at, interval)
        } by {
            if k < head.len() {
                assert(at[k] == head[k]);
                assert(front[head[k]] == history[head[k]]);
                assert(all[k] == before[k]);
            }
        }
        assert forall|i: int| 0 <= i < history.len() implies (#[trigger] at.contains(i) <==> 0
            <= history[i].observed_at < limit && series.level_of(history[i]) is Some) by {
            if i < last {
                assert(front[i] == history[i]);
                if head.contains(i) {
                    let k = choose|k: int| 0 <= k < head.len() && head[k] == i;
                    assert(at[k] == i);
                }
                if at.contains(i) {
                    let k = choose|k: int| 0 <= k < at.len() && at[k] == i;
                    assert(head[k] == i);
                }
            } else {
                if taken {
                    assert(at[at.len() - 1] == i);
                } else if at.contains(i) {
                    let k = choose|k: int| 0 <= k < at.len() && at[k] == i;
                    assert(0 <= head[k] < front.len());
                }
            }
        }
        at
    }
}

/// On coarse charts the last sample of each bucket counts: exactly the samples that are not
/// followed by one of the same bucket, in order. `at` names them.
pub proof fn the_last_sample_of_a_bucket_counts(samples: Seq<GexProxyRailSample>) -> (at: Seq<int>)
    ensures
        ({
            let kept = proxy_rails::last_per_bucket(samples);
            &&& at.len() == kept.len()
            &&& forall|k: int|
                0 <= k < at.len() ==> 0 <= (#[trigger] at[k]) < samples.len() && kept[k]
                    == samples[at[k]]
            &&& forall|a: int, b: int|
                0 <= a < b < at.len() ==> (#[trigger] at[a]) < (#[trigger] at[b])
            &&& samples.len() > 0 ==> at.len() > 0 && at.last() == samples.len() - 1
        }),
        forall|i: int|
            0 <= i < samples.len() ==> (#[trigger] at.contains(i) <==> i + 1 == samples.len()
                || samples[i].chart_bucket != samples[i + 1].chart_bucket),
    decreases samples.len(),
{
    if samples.len() == 0 {
        seq![]
    } else {
        let front = samples.drop_last();
        let last = samples.len() - 1;
        let head = the_last_sample_of_a_bucket_counts(front);
        let before = proxy_rails::last_per_bucket(front);
        let all = proxy_rails::last_per_bucket(samples);
        assert(samples[last] == samples.last());
        let replaces = before.len() > 0 && before.last().chart_bucket
            == samples.last().chart_bucket;
        let base = if replaces {
            head.drop_last()
        } else {
            head
        };
        let at = base.push(last);
        if before.len() > 0 {
            assert(before.last() == front[head.last()]);
            assert(before.last() == samples[last - 1]);
        }
        assert forall|k: int| 0 <= k < at.len() implies 0 <= (#[trigger] at[k]) < samples.len()
            && all[k] == samples[at[k]] by {
            if k < base.len() {
                assert(at[k] == head[k]);
                assert(front[head[k]] == samples[head[k]]);
                assert(all[k] == before[k]);
            }
        }
        assert forall|a: int, b: int| 0 <= a < b < at.len() implies (#[trigger] at[a]) < (
        #[trigger] at[b]) by {
            assert(at[a] == head[a]);
            if b < base.len() {
                assert(at[b] == head[b]);
            } else {
                assert(head[a] < front.len());
            }
        }
        assert forall|i: int| 0 <= i < samples.len() implies (#[trigger] at.contains(i) <==> i + 1
            == samples.len() || samples[i].chart_bucket != samples[i + 1].chart_bucket) by {
            if i == last {
                assert(at[at.len() - 1] == i);
            } else {
                assert(front[i] == samples[i]);
                if i + 1 < last {
                    assert(front[i + 1] == samples[i + 1]);
                }
                if head.contains(i) {
                    let k = choose|k: int| 0 <= k < head.len() && head[k] == i;
                    if k < base.len() {
                        assert(at[k] == i);
                    } else {
                        assert(i == last - 1);
                        if at.contains(i) {
                            let m = choose|m: int| 0 <= m < at.len() && at[m] == i;
                            assert(m < base.len());
                            assert(head[m] == i && m < k);
                        }
                    }
                }
                if at.contains(i) {
                    let k = choose|k: int| 0 <= k < at.len() && at[k] == i;
                    assert(k < base.len());
                    assert(head[k] == i);
                    if i == last - 1 && replaces {
                        assert(head[k] < head[head.len() - 1]);
                    }
                }
            }
        }
        at
    }
}

/// A sample holds until the next one, at most five minutes, and not past the chart or the
/// handoff; its segment begins at its moment and ends at the first of these.
pub proof fn segments_end_where_their_sample_does(
    samples: Seq<GexProxyRailSample>,
    i: int,
    bounds: RailBounds,
)
    requires
        0 <= i < samples.len(),
        samples[i].observed_at + 300_000 <= 0xffff_ffff_ffff_ffff,
    ensures
        ({
            let end = proxy_rails::segment_end(samples, i, bounds);
            let own = samples[i].observed_at + 300_000;
            &&& end <= own
            &&& i + 1 < samples.len() ==> end <= samples[i + 1].observed_at
            &&& end <= bounds.chart_limit
            &&& bounds.handoff matches Some(handoff) ==> end <= handoff
            &&& end == own || (i + 1 < samples.len() && end == samples[i + 1].observed_at) || end
                == bounds.chart_limit || bounds.handoff == Some(end)
            &&& proxy_rails::is_clipped(samples, i, bounds) ==> bounds.handoff == Some(end)
            &&& bounds.handoff == Some(end) ==> proxy_rails::is_clipped(samples, i, bounds)
        }),
{
}

proof fn lemma_segments(
    series: GexProxyRailSeries,
    samples: Seq<GexProxyRailSample>,
    bounds: RailBounds,
    n: nat,
    segment: GexProxyRailSegment,
)
    requires
        n <= samples.len(),
    ensures
        proxy_rails::segments_of(series, samples, bounds, n).contains(segment) <==> exists|i: int|
            0 <= i < n && {
                &&& segment.series == series
                &&& segment.start == (#[trigger] samples[i]).observed_at
                &&& segment.end == proxy_rails::segment_end(samples, i, bounds)
                &&& segment.start < segment.end
                &&& segment.level == samples[i].level
                &&& segment.clipped_by_handoff == proxy_rails::is_clipped(samples, i, bounds)
                &&& segment.point == samples[i].point
            },
    decreases n,
{
    let all = proxy_rails::segments_of(series, samples, bounds, n);
    if n > 0 {
        let last = n - 1;
        lemma_segments(series, samples, bounds, last as nat, segment);
        let head = proxy_rails::segments_of(series, samples, bounds, last as nat);
        if head.contains(segment) {
            let k = choose|k: int| 0 <= k < head.len() && head[k] == segment;
            assert(all[k] == segment);
        }
        if proxy_rails::segment_end(samples, last, bounds) > samples[last].observed_at {
            let fresh = GexProxyRailSegment {
                series,
                start: samples[last].observed_at,
                end: proxy_rails::segment_end(samples, last, bounds),
                level: samples[last].level,
                clipped_by_handoff: proxy_rails::is_clipped(samples, last, bounds),
                point: samples[last].point,
            };
            assert(all[all.len() - 1] == fresh);
        }
        if all.contains(segment) {
            let k = choose|k: int| 0 <= k < all.len() && all[k] == segment;
            if k < head.len() {
                assert(head[k] == segment);
            }
        }
    }
}

/// Every sample that holds for some time has a segment at its level, and there are no others.
pub proof fn every_sample_has_its_segment(
    series: GexProxyRailSeries,
    samples: Seq<GexProxyRailSample>,
    bounds: RailBounds,
    segment: GexProxyRailSegment,
)
    ensures
        proxy_rails::segments_of(series, samples, bounds, samples.len()).contains(segment)
            <==> exists|i: int|
            0 <= i < samples.len() && {
                &&& segment.series == series
                &&& segment.start == (#[trigger] samples[i]).observed_at
                &&& segment.end == proxy_rails::segment_end(samples, i, bounds)
                &&& segment.start < segment.end
                &&& segment.level == samples[i].level
                &&& segment.clipped_by_handoff == proxy_rails::is_clipped(samples, i, bounds)
                &&& segment.point == samples[i].point
            },
{
    lemma_segments(series, samples, bounds, samples.len(), segment);
}

/// The line steps from a sample to the next where their levels differ, at most seven and a half
/// minutes lie between them, no chart bucket is missing between them on coarse charts, and the
/// next one comes before the handoff, which the first one does not touch.
pub proof fn lines_step_between_close_samples(
    samples: Seq<GexProxyRailSample>,
    i: int,
    bounds: RailBounds,
)
    requires
        0 <= i,
        i + 1 < samples.len(),
        samples[i].chart_bucket + bounds.interval <= 0xffff_ffff_ffff_ffff,
    ensures
        proxy_rails::is_connected(samples, i, bounds) <==> {
            &&& samples[i].level != samples[i + 1].level
            &&& samples[i].observed_at < samples[i + 1].observed_at
                <= samples[i].observed_at + 450_000
            &&& bounds.interval < 300_000 || samples[i + 1].chart_bucket <= samples[i].chart_bucket
                + bounds.interval
            &&& bounds.handoff matches Some(handoff) ==> samples[i + 1].observed_at < handoff
                && !proxy_rails::is_clipped(samples, i, bounds)
        },
{
}

proof fn lemma_transitions(
    series: GexProxyRailSeries,
    samples: Seq<GexProxyRailSample>,
    bounds: RailBounds,
    n: nat,
)
    requires
        n <= samples.len(),
    ensures
        forall|k: int|
            0 <= k < proxy_rails::transitions_of(series, samples, bounds, n).len() ==> {
                let step = #[trigger] proxy_rails::transitions_of(series, samples, bounds, n)[k];
                exists|i: int|
                    0 <= i < n && i + 1 < samples.len() && {
                        &&& proxy_rails::is_connected(samples, i, bounds)
                        &&& step.series == series
                        &&& step.from_level == (#[trigger] samples[i]).level
                        &&& step.to_level == samples[i + 1].level
                        &&& step.at == samples[i + 1].observed_at
                        &&& step.point == samples[i + 1].point
                    }
            },
        forall|i: int|
            0 <= i < n && #[trigger] proxy_rails::is_connected(samples, i, bounds) ==> exists|k: int|
                0 <= k < proxy_rails::transitions_of(series, samples, bounds, n).len() && {
                    let step = #[trigger] proxy_rails::transitions_of(series, samples, bounds, n)[k];
                    &&& step.series == series
                    &&& step.from_level == samples[i].level
                    &&& step.to_level == samples[i + 1].level
                    &&& step.at == samples[i + 1].observed_at
                    &&& step.point == samples[i + 1].point
                },
    decreases n,
{
    let all = proxy_rails::transitions_of(series, samples, bounds, n);
    if n > 0 {
        let last = n - 1;
        lemma_transitions(series, samples, bounds, last as nat);
        let head = proxy_rails::transitions_of(series, samples, bounds, last as nat);
        assert forall|k: int| 0 <= k < all.len() implies {
            let step = #[trigger] all[k];
            exists|i: int|
                0 <= i < n && i + 1 < samples.len() && {
                    &&& proxy_rails::is_connected(samples, i, bounds)
                    &&& step.series == series
                    &&& step.from_level == (#[trigger] samples[i]).level
                    &&& step.to_level == samples[i + 1].level
                    &&& step.at == samples[i + 1].observed_at
                    &&& step.point == samples[i + 1].point
                }
        } by {
            if k < head.len() {
                assert(all[k] == head[k]);
            } else {
                assert(samples[last].level == all[k].from_level);
            }
        }
        assert forall|i: int| 0 <= i < n && #[trigger] proxy_rails::is_connected(
            samples,
            i,
            bounds,
        ) implies exists|k: int|
            0 <= k < all.len() && {
                let step = #[trigger] all[k];
                &&& step.series == series
                &&& step.from_level == samples[i].level
                &&& step.to_level == samples[i + 1].level
                &&& step.at == samples[i + 1].observed_at
                &&& step.point == samples[i + 1].point
            } by {
            if i < last {
                let k = choose|k: int|
                    0 <= k < head.len() && {
                        let step = #[trigger] head[k];
                        &&& step.series == series
                        &&& step.from_level == samples[i].level
                        &&& step.to_level == samples[i + 1].level
                        &&& step.at == samples[i + 1].observed_at
                        &&& step.point == samples[i + 1].point
                    };
                assert(all[k] == head[k]);
            } else {
                assert(all[all.len() - 1].at == samples[i + 1].observed_at);
            }
        }
    }
}

/// Every step of the line has its vertical piece, at the moment of the later sample and from
/// the level before to its own.
pub proof fn every_step_has_its_transition(
    series: GexProxyRailSeries,
    samples: Seq<GexProxyRailSample>,
    bounds: RailBounds,
    i: int,
) -> (k: int)
    requires
        0 <= i < samples.len(),
        proxy_rails::is_connected(samples, i, bounds),
    ensures
        ({
            let steps = proxy_rails::transitions_of(series, samples, bounds, samples.len());
            &&& 0 <= k < steps.len()
            &&& steps[k].series == series
            &&& steps[k].from_level == samples[i].level
            &&& steps[k].to_level == samples[i + 1].level
            &&& steps[k].at == samples[i + 1].observed_at
            &&& steps[k].point == samples[i + 1].point
        }),
{
    lemma_transitions(series, samples, bounds, samples.len());
    let steps = proxy_rails::transitions_of(series, samples, bounds, samples.len());
    choose|k: int|
        0 <= k < steps.len() && {
            let step = #[trigger] steps[k];
            &&& step.series == series
            &&& step.from_level == samples[i].level
            &&& step.to_level == samples[i + 1].level
            &&& step.at == samples[i + 1].observed_at
            &&& step.point == samples[i + 1].point
        }
}

/// Every vertical piece is a step of the line.
pub proof fn every_transition_is_a_step(
    series: GexProxyRailSeries,
    samples: Seq<GexProxyRailSample>,
    bounds: RailBounds,
    k: int,
) -> (i: int)
    requires
        0 <= k < proxy_rails::transitions_of(series, samples, bounds, samples.len()).len(),
    ensures
        ({
            let step = proxy_rails::transitions_of(series, samples, bounds, samples.len())[k];
            &&& 0 <= i
            &&& i + 1 < samples.len()
            &&& proxy_rails::is_connected(samples, i, bounds)
            &&& step.series == series
            &&& step.from_level == samples[i].level
            &&& step.to_level == samples[i + 1].level
            &&& step.at == samples[i + 1].observed_at
        }),
{
    lemma_transitions(series, samples, bounds, samples.len());
    let step = proxy_rails::transitions_of(series, samples, bounds, samples.len())[k];
    choose|i: int|
        0 <= i < samples.len() && i + 1 < samples.len() && {
            &&& proxy_rails::is_connected(samples, i, bounds)
            &&& step.series == series
            &&& step.from_level == (#[trigger] samples[i]).level
            &&& step.to_level == samples[i + 1].level
            &&& step.at == samples[i + 1].observed_at
            &&& step.point == samples[i + 1].point
        }
}

} // verus!
