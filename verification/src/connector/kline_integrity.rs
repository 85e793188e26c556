//! Candle series that were stored with holes.
use vstd::prelude::*;
use crate::connector::intervals;
use crate::connector::intervals::merge_intervals;
use crate::connector::persistent_cache;
use crate::connector::persistent_cache::CacheSlice;
use crate::connector::records::Kline;
use crate::units;
use crate::units::{larger, saturating_add_u64, smaller, UnixMs};

verus! {

/// The first moment from which records of `timeframe_ms` belong to a request from `from`:
/// one that begins earlier may still reach into it.
pub fn reaching_into(from: UnixMs, timeframe_ms: u64) -> (r: UnixMs)
    ensures
        r.ms == units::sat_sub(from.ms, units::sat_sub(timeframe_ms, 1)),
{
    from.saturating_sub(units::saturating_sub_u64(timeframe_ms, 1))
}

/// The stretch of the request between the candle at `k` and the next one in which
/// candles are missing; empty where they follow each other.
pub open spec fn hole(
    candles: Seq<Kline>,
    k: int,
    timeframe_ms: u64,
    from: u64,
    to_exclusive: u64,
) -> (u64, u64) {
    (
        units::max_u64(units::sat_add(candles[k].time.ms, timeframe_ms), from),
        units::min_u64(candles[k + 1].time.ms, to_exclusive),
    )
}

/// Whether the moment `t` lies in a hole of the series.
pub open spec fn in_hole(
    candles: Seq<Kline>,
    timeframe_ms: u64,
    from: u64,
    to_exclusive: u64,
    t: int,
) -> bool {
    timeframe_ms > 0 && exists|k: int|
        0 <= k < candles.len() - 1 && (#[trigger] hole(
            candles,
            k,
            timeframe_ms,
            from,
            to_exclusive,
        )).0 <= t < hole(candles, k, timeframe_ms, from, to_exclusive).1
}

/// Turns every discontinuity of the cached candles back into a gap. Coverage alone does
/// not prove that a series is continuous: a truncated response may have been stored
/// around a missing candle.
pub fn reopen_holes(
    slice: CacheSlice<Kline>,
    timeframe_ms: u64,
    from: UnixMs,
    to_exclusive: UnixMs,
) -> (r: CacheSlice<Kline>)
    ensures
        r.records == slice.records,
        intervals::disjoint_ascending(persistent_cache::gap_pairs(r.gaps@)),
        forall|t: int| #[trigger]
            intervals::covers(persistent_cache::gap_pairs(r.gaps@), t) == (intervals::covers(
                persistent_cache::gap_pairs(slice.gaps@),
                t,
            ) || in_hole(slice.records@, timeframe_ms, from.ms, to_exclusive.ms, t)),
{
    let mut pairs: Vec<(u64, u64)> = Vec::new();
    let ghost known = persistent_cache::gap_pairs(slice.gaps@);
    for i in 0..slice.gaps.len()
        invariant
            known == persistent_cache::gap_pairs(slice.gaps@),
            pairs@ =~= known.take(i as int),
    {
        let (gap_from, gap_to) = slice.gaps[i];
        pairs.push((gap_from.as_u64(), gap_to.as_u64()));
    }
    assert(pairs@ =~= known);
    if timeframe_ms > 0 && slice.records.len() > 0 {
        let last: usize = slice.records.len() - 1;
        let mut k: usize = 0;
        while k < last
            invariant
                timeframe_ms > 0,
                k <= last,
                last == slice.records@.len() - 1,
                forall|t: int| #[trigger]
                    intervals::covers(pairs@, t) == (intervals::covers(known, t) || exists|m: int|
                        0 <= m < k && (#[trigger] hole(
                            slice.records@,
                            m,
                            timeframe_ms,
                            from.ms,
                            to_exclusive.ms,
                        )).0 <= t < hole(
                            slice.records@,
                            m,
                            timeframe_ms,
                            from.ms,
                            to_exclusive.ms,
                        ).1),
            decreases last - k,
        {
            let expected: u64 = saturating_add_u64(slice.records[k].time.ms, timeframe_ms);
            let next: u64 = slice.records[k + 1].time.ms;
            let ghost before = pairs@;
            let gap_from: u64 = larger(expected, from.ms);
            let gap_to: u64 = smaller(next, to_exclusive.ms);
            if next > expected && gap_from < gap_to {
                pairs.push((gap_from, gap_to));
            }
            proof {
                let here = hole(
                    slice.records@,
                    k as int,
                    timeframe_ms,
                    from.ms,
                    to_exclusive.ms,
                );
                assert(here == (gap_from, gap_to));
                assert forall|t: int| #[trigger] intervals::covers(pairs@, t) == (
                intervals::covers(known, t) || exists|m: int|
                    0 <= m < k + 1 && (#[trigger] hole(
                        slice.records@,
                        m,
                        timeframe_ms,
                        from.ms,
                        to_exclusive.ms,
                    )).0 <= t < hole(
                        slice.records@,
                        m,
                        timeframe_ms,
                        from.ms,
                        to_exclusive.ms,
                    ).1) by {
                    intervals::lemma_covers_push(before, (gap_from, gap_to), t);
                    assert(intervals::covers(before, t) || !intervals::covers(before, t));
                    if next > expected && gap_from < gap_to {
                        assert(intervals::covers(pairs@, t) == (intervals::covers(before, t)
                            || here.0 <= t < here.1));
                    } else {
                        assert(!(here.0 <= t < here.1));
                    }
                }
            }
            k = k + 1;
        }
    }
    let ghost all = pairs@;
    let merged = merge_intervals(pairs);
    let mut gaps: Vec<(UnixMs, UnixMs)> = Vec::new();
    for i in 0..merged.len()
        invariant
            gaps@.len() == i,
            forall|m: int|
                0 <= m < i ==> (#[trigger] gaps@[m]).0.ms == merged@[m].0 && gaps@[m].1.ms
                    == merged@[m].1,
    {
        let (gap_from, gap_to) = merged[i];
        gaps.push((UnixMs::new(gap_from), UnixMs::new(gap_to)));
    }
    proof {
        assert(persistent_cache::gap_pairs(gaps@) =~= merged@);
        assert forall|t: int| #[trigger] intervals::covers(merged@, t) == (intervals::covers(
            known,
            t,
        ) || in_hole(slice.records@, timeframe_ms, from.ms, to_exclusive.ms, t)) by {
            assert(intervals::covers(merged@, t) == intervals::covers(all, t));
        }
    }
    CacheSlice { records: slice.records, gaps }
}

/// A series without holes keeps its gaps.
pub proof fn continuous_candles_have_no_holes(
    candles: Seq<Kline>,
    timeframe_ms: u64,
    from: u64,
    to_exclusive: u64,
    t: int,
)
    requires
        forall|k: int|
            0 <= k < candles.len() - 1 ==> (#[trigger] candles[k + 1]).time.ms <= candles[k].time.ms
                + timeframe_ms,
    ensures
        !in_hole(candles, timeframe_ms, from, to_exclusive, t),
{
    if in_hole(candles, timeframe_ms, from, to_exclusive, t) {
        let k = choose|k: int|
            0 <= k < candles.len() - 1 && (#[trigger] hole(
                candles,
                k,
                timeframe_ms,
                from,
                to_exclusive,
            )).0 <= t < hole(candles, k, timeframe_ms, from, to_exclusive).1;
        assert(candles[k + 1].time.ms <= candles[k].time.ms + timeframe_ms);
    }
}

} // verus!
