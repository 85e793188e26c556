//! Which candle the crosshair speaks of, and what is shown at the cursor.
use vstd::prelude::*;

verus! {

/// The candles of a chart, as far as the crosshair needs them.
#[derive(Debug)]
pub enum CandleAxis {
    /// The times of the candles, ascending.
    Time(Vec<u64>),
    /// The number of candles and the trades per candle.
    Tick { count: usize, interval: u16 },
}

/// The last of the first `n` times that lies in `[from, to]`.
pub open spec fn last_within(times: Seq<u64>, n: int, from: u64, to: u64) -> Option<usize>
    decreases n,
{
    if n <= 0 {
        None
    } else if from <= times[n - 1] <= to {
        Some((n - 1) as usize)
    } else {
        last_within(times, n - 1, from, to)
    }
}

fn find_last_within(times: &Vec<u64>, from: u64, to: u64) -> (r: Option<usize>)
    ensures
        r == last_within(times@, times@.len() as int, from, to),
        r is Some ==> r->0 < times@.len(),
{
    let mut rest: usize = times.len();
    while rest > 0
        invariant
            rest <= times@.len(),
            last_within(times@, times@.len() as int, from, to) == last_within(
                times@,
                rest as int,
                from,
                to,
            ),
        decreases rest,
    {
        let time: u64 = times[rest - 1];
        if from <= time && time <= to {
            return Some(rest - 1);
        }
        rest = rest - 1;
    }
    None
}

/// The candle at a moment of a chart of time: the one that begins there; inside the
/// visible range the one before; right of it the last visible one; past the data the last
/// one. `right` says whether the moment lies right of the visible range.
pub open spec fn time_candle(times: Seq<u64>, at: u64, visible: (u64, u64), right: bool) -> Option<
    usize,
> {
    let n = times.len() as int;
    match last_within(times, n, at, at) {
        Some(i) => Some(i),
        None => {
            let before = if visible.0 <= at <= visible.1 {
                last_within(times, n, visible.0, at)
            } else {
                None
            };
            match before {
                Some(i) => Some(i),
                None => {
                    let edge = if right {
                        last_within(times, n, visible.0, visible.1)
                    } else {
                        None
                    };
                    match edge {
                        Some(i) => Some(i),
                        None => if n > 0 && at > times.last() {
                            Some((n - 1) as usize)
                        } else {
                            None
                        },
                    }
                },
            }
        },
    }
}

/// The candle at a position of a chart of ticks, which is counted from the newest one.
pub open spec fn tick_candle(count: usize, interval: u16, at: u64) -> Option<usize> {
    if (at / (interval as u64)) < count {
        Some((count - 1 - at / (interval as u64)) as usize)
    } else {
        None
    }
}

/// Whether a position lies right of the visible range: on a chart of time later, on a
/// chart of ticks nearer to the newest candle.
pub open spec fn is_right_of(axis_is_time: bool, at: u64, visible: (u64, u64)) -> bool {
    if axis_is_time {
        at > visible.1
    } else {
        at < visible.0
    }
}

/// The candle that the crosshair speaks of, without a position the newest one.
pub open spec fn crosshair_at(axis: CandleAxis, at: Option<u64>, visible: (u64, u64)) -> Option<usize> {
    match (axis, at) {
        (CandleAxis::Time(times), Some(at)) => time_candle(
            times@,
            at,
            visible,
            is_right_of(true, at, visible),
        ),
        (CandleAxis::Time(times), None) => if times@.len() > 0 {
            Some((times@.len() - 1) as usize)
        } else {
            None
        },
        (CandleAxis::Tick { count, interval }, Some(at)) => match tick_candle(
            count,
            interval,
            at,
        ) {
            Some(i) => Some(i),
            None => if visible.0 <= at <= visible.1 || is_right_of(false, at, visible) {
                tick_candle(count, interval, visible.0)
            } else {
                None
            },
        },
        (CandleAxis::Tick { count, .. }, None) => if count > 0 {
            Some((count - 1) as usize)
        } else {
            None
        },
    }
}

fn find_tick_candle(count: usize, interval: u16, at: u64) -> (r: Option<usize>)
    requires
        interval > 0,
    ensures
        r == tick_candle(count, interval, at),
{
    let index: u64 = at / interval as u64;
    if index < count as u64 {
        Some(count - 1 - index as usize)
    } else {
        None
    }
}

fn find_time_candle(times: &Vec<u64>, at: u64, visible: (u64, u64)) -> (r: Option<usize>)
    ensures
        r == time_candle(times@, at, visible, is_right_of(true, at, visible)),
{
    if let Some(i) = find_last_within(times, at, at) {
        return Some(i);
    }
    if visible.0 <= at && at <= visible.1 {
        if let Some(i) = find_last_within(times, visible.0, at) {
            return Some(i);
        }
    }
    if at > visible.1 {
        if let Some(i) = find_last_within(times, visible.0, visible.1) {
            return Some(i);
        }
    }
    let count: usize = times.len();
    if count > 0 && at > times[count - 1] {
        Some(count - 1)
    } else {
        None
    }
}

/// The candle that the crosshair speaks of.
pub fn crosshair_candle(axis: &CandleAxis, at: Option<u64>, visible: (u64, u64)) -> (r: Option<usize>)
    requires
        axis matches CandleAxis::Tick { interval, .. } ==> interval > 0,
    ensures
        r == crosshair_at(*axis, at, visible),
{
    match (axis, at) {
        (CandleAxis::Time(times), Some(at)) => find_time_candle(times, at, visible),
        (CandleAxis::Time(times), None) => {
            let count: usize = times.len();
            if count > 0 {
                Some(count - 1)
            } else {
                None
            }
        },
        (CandleAxis::Tick { count, interval }, Some(at)) => {
            match find_tick_candle(*count, *interval, at) {
                Some(i) => Some(i),
                None => if (visible.0 <= at && at <= visible.1) || at < visible.0 {
                    find_tick_candle(*count, *interval, visible.0)
                } else {
                    None
                },
            }
        },
        (CandleAxis::Tick { count, .. }, None) => {
            if *count > 0 {
                Some(*count - 1)
            } else {
                None
            }
        },
    }
}

/// Whatever candle is named is one of the chart.
pub proof fn named_candle_exists(axis: CandleAxis, at: Option<u64>, visible: (u64, u64))
    requires
        axis matches CandleAxis::Tick { interval, .. } ==> interval > 0,
        axis matches CandleAxis::Time(times) ==> times@.len() <= usize::MAX,
    ensures
        crosshair_at(axis, at, visible) is Some ==> crosshair_at(axis, at, visible)->0 < (
        match axis {
            CandleAxis::Time(times) => times@.len() as int,
            CandleAxis::Tick { count, .. } => count as int,
        }),
{
    match axis {
        CandleAxis::Time(times) => {
            let n = times@.len() as int;
            if let Some(at) = at {
                lemma_last_within(times@, n, at, at);
                lemma_last_within(times@, n, visible.0, at);
                lemma_last_within(times@, n, visible.0, visible.1);
            }
        },
        CandleAxis::Tick { .. } => {},
    }
}

proof fn lemma_last_within(times: Seq<u64>, n: int, from: u64, to: u64)
    requires
        n <= usize::MAX,
    ensures
        last_within(times, n, from, to) is Some ==> last_within(times, n, from, to)->0 < n,
    decreases n,
{
    if n > 0 {
        lemma_last_within(times, n - 1, from, to);
    }
}

/// What is shown at the cursor.
#[derive(Clone, Copy, Debug, PartialEq, Eq, Structural)]
pub enum CrosshairContent {
    /// The bubble under the cursor and its figures.
    Bubble,
    /// The levels under the cursor.
    GexLevels,
    /// The figures of the candle under the cursor.
    Candle,
    /// The figures of the newest candle.
    LatestCandle,
    Nothing,
}

/// What is shown: over the chart a bubble before the levels before the candle; elsewhere
/// the newest candle where labels are always visible.
pub fn crosshair_content(
    cursor_over_chart: bool,
    bubble_hit: bool,
    level_hit: bool,
    show_level_tooltip: bool,
    levels_enabled: bool,
    labels_always_visible: bool,
) -> (r: CrosshairContent)
    ensures
        r == (if cursor_over_chart {
            if bubble_hit {
                CrosshairContent::Bubble
            } else if show_level_tooltip && levels_enabled && level_hit {
                CrosshairContent::GexLevels
            } else {
                CrosshairContent::Candle
            }
        } else if labels_always_visible {
            CrosshairContent::LatestCandle
        } else {
            CrosshairContent::Nothing
        }),
{
    if cursor_over_chart {
        if bubble_hit {
            CrosshairContent::Bubble
        } else if show_level_tooltip && levels_enabled && level_hit {
            CrosshairContent::GexLevels
        } else {
            CrosshairContent::Candle
        }
    } else if labels_always_visible {
        CrosshairContent::LatestCandle
    } else {
        CrosshairContent::Nothing
    }
}

} // verus!
