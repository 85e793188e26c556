//! Trading sessions: where they begin, and which range of time an overlay needs.
use vstd::prelude::*;
use chrono::{Datelike, TimeZone, Timelike};
use crate::units;
use crate::units::{larger, saturating_add_u64, saturating_sub_u64, smaller, UnixMs};

verus! {

/// A week in milliseconds.
pub const WEEK_MS: u64 = 604_800_000;

/// The Unix epoch was a Thursday; three days later weeks begin on Monday.
pub const MONDAY_SHIFT: u64 = 259_200_000;

/// The start of the session that holds `timestamp`: a multiple of the interval, for weekly
/// sessions Monday at midnight.
pub open spec fn session_start(timestamp: u64, interval_ms: u64) -> u64 {
    if interval_ms == WEEK_MS {
        units::sat_sub(
            (units::sat_add(timestamp, MONDAY_SHIFT) / interval_ms * interval_ms) as u64,
            MONDAY_SHIFT,
        )
    } else {
        (timestamp / interval_ms * interval_ms) as u64
    }
}

/// The start of the session that holds `timestamp`.
pub fn align_session_start(timestamp: u64, interval_ms: u64) -> (r: u64)
    requires
        interval_ms > 0,
    ensures
        r == session_start(timestamp, interval_ms),
        r <= timestamp,
{
    proof {
        lemma_floor(timestamp, interval_ms);
        lemma_floor(units::sat_add(timestamp, MONDAY_SHIFT), interval_ms);
    }
    if interval_ms == WEEK_MS {
        let shifted: u64 = saturating_add_u64(timestamp, MONDAY_SHIFT);
        return saturating_sub_u64(shifted / interval_ms * interval_ms, MONDAY_SHIFT);
    }
    timestamp / interval_ms * interval_ms
}

proof fn lemma_floor(t: u64, width: u64)
    requires
        width > 0,
    ensures
        0 <= t / width * width <= t,
        t - t / width * width < width,
{
    vstd::arithmetic::div_mod::lemma_fundamental_div_mod(t as int, width as int);
    vstd::arithmetic::mul::lemma_mul_is_commutative((t / width) as int, width as int);
}

/// A session that is not weekly begins at or before the moment, lasts past it, and begins
/// where it says it begins.
pub proof fn session_holds_its_moments(timestamp: u64, interval_ms: u64)
    requires
        interval_ms > 0,
        interval_ms != WEEK_MS,
    ensures
        session_start(timestamp, interval_ms) <= timestamp < session_start(timestamp, interval_ms)
            + interval_ms,
        session_start(session_start(timestamp, interval_ms), interval_ms) == session_start(
            timestamp,
            interval_ms,
        ),
{
    lemma_floor(timestamp, interval_ms);
    let start = session_start(timestamp, interval_ms);
    vstd::arithmetic::div_mod::lemma_div_multiples_vanish(
        (timestamp / interval_ms) as int,
        interval_ms as int,
    );
    vstd::arithmetic::mul::lemma_mul_is_commutative(
        (timestamp / interval_ms) as int,
        interval_ms as int,
    );
    assert(start / interval_ms == timestamp / interval_ms);
}

/// A weekly session that lies after the first Monday begins on a Monday, at or before the
/// moment and less than a week before it.
pub proof fn weekly_session_begins_on_monday(timestamp: u64)
    requires
        345_600_000 <= timestamp <= u64::MAX - MONDAY_SHIFT,
    ensures
        session_start(timestamp, WEEK_MS) <= timestamp < session_start(timestamp, WEEK_MS) + WEEK_MS,
        (session_start(timestamp, WEEK_MS) - 345_600_000) % (WEEK_MS as int) == 0,
{
    let shifted = (timestamp + MONDAY_SHIFT) as u64;
    lemma_floor(shifted, WEEK_MS);
    let weeks = (shifted / WEEK_MS) as int;
    assert(weeks >= 1);
    let start = session_start(timestamp, WEEK_MS);
    assert(start == weeks * WEEK_MS - MONDAY_SHIFT);
    assert(start - 345_600_000 == (weeks - 1) * WEEK_MS);
    vstd::arithmetic::div_mod::lemma_mod_multiples_basic(weeks - 1, WEEK_MS as int);
}

/// A later moment does not lie in an earlier session.
pub proof fn session_starts_are_monotone(a: u64, b: u64, interval_ms: u64)
    requires
        a <= b,
        interval_ms > 0,
    ensures
        session_start(a, interval_ms) <= session_start(b, interval_ms),
{
    let x = units::sat_add(a, MONDAY_SHIFT);
    let y = units::sat_add(b, MONDAY_SHIFT);
    lemma_floor(b, interval_ms);
    lemma_floor(y, interval_ms);
    lemma_floor(a, interval_ms);
    lemma_floor(x, interval_ms);
    vstd::arithmetic::div_mod::lemma_div_is_ordered(a as int, b as int, interval_ms as int);
    vstd::arithmetic::div_mod::lemma_div_is_ordered(x as int, y as int, interval_ms as int);
    vstd::arithmetic::mul::lemma_mul_inequality(
        (a / interval_ms) as int,
        (b / interval_ms) as int,
        interval_ms as int,
    );
    vstd::arithmetic::mul::lemma_mul_inequality(
        (x / interval_ms) as int,
        (y / interval_ms) as int,
        interval_ms as int,
    );
}

/// Where the data of an anchored average has to begin: at the open of the session of the
/// last moment, or of the first visible moment if that is earlier.
pub open spec fn vwap_start(target_to: u64, visible_earliest: u64, anchor_ms: u64) -> u64 {
    let last = units::sat_sub(target_to, 1);
    units::min_u64(
        session_start(last, anchor_ms),
        session_start(units::min_u64(visible_earliest, last), anchor_ms),
    )
}

pub fn vwap_required_from(target_to: UnixMs, visible_earliest: UnixMs, anchor_ms: u64) -> (r: UnixMs)
    requires
        anchor_ms > 0,
    ensures
        r.ms == vwap_start(target_to.ms, visible_earliest.ms, anchor_ms),
{
    let last: u64 = saturating_sub_u64(target_to.ms, 1);
    let current: u64 = align_session_start(last, anchor_ms);
    let visible: u64 = align_session_start(smaller(visible_earliest.ms, last), anchor_ms);
    UnixMs::new(smaller(current, visible))
}

/// Where a historical fetch of trades ends: with the last candle that is closed.
pub open spec fn historical_target(kline_latest: u64, timeframe_ms: u64, now: u64) -> u64 {
    let end = units::sat_add(kline_latest, timeframe_ms);
    if now < end {
        kline_latest
    } else {
        end
    }
}

/// Historical fetches stop at the last fully closed candle; the trades of the open one
/// arrive through the live stream.
pub fn historical_trade_target_to(kline_latest: UnixMs, timeframe_ms: u64, now: UnixMs) -> (r: UnixMs)
    ensures
        r.ms == historical_target(kline_latest.ms, timeframe_ms, now.ms),
{
    let end: UnixMs = kline_latest.saturating_add(timeframe_ms);
    if now.ms < end.ms {
        kline_latest
    } else {
        end
    }
}

/// A session of the day whose bubbles are shown.
#[derive(Clone, Copy, Debug, PartialEq, Eq, Structural)]
pub enum VolumeBubbleSession {
    Auto,
    Asian,
    London,
    NewYork,
}

/// What `chrono` shows in the zone `Europe::Rome` of `chrono_tz` at a moment, where its
/// calendar reaches that far: year, month, day, hour, minute.
pub uninterp spec fn rome_clock_at(millis: i64) -> Option<(i32, u32, u32, u32, u32)>;

/// The earliest moment at which a clock in Rome shows a date and a time of day, if there
/// is one, in milliseconds.
pub uninterp spec fn rome_moment_of(
    year: i32,
    month: u32,
    day: u32,
    hour: u32,
    minute: u32,
) -> Option<i64>;

/// `DateTime::from_timestamp_millis`, `DateTime::with_timezone` with `Europe::Rome`, and the
/// fields of the result. The hour is below 24 and the minute below 60, and all of it
/// depends on the moment alone.
#[verifier::external_body]
fn rome_clock(millis: i64) -> (r: Option<(i32, u32, u32, u32, u32)>)
    ensures
        r == rome_clock_at(millis),
        r is Some ==> (r->0).3 < 24,
        r is Some ==> (r->0).4 < 60,
{
    let utc = chrono::DateTime::from_timestamp_millis(millis)?;
    let rome = utc.with_timezone(&chrono_tz::Europe::Rome);
    Some((rome.year(), rome.month(), rome.day(), rome.hour(), rome.minute()))
}

/// `TimeZone::with_ymd_and_hms` of `Europe::Rome` with zero seconds,
/// `MappedLocalTime::earliest` and `DateTime::timestamp_millis`, as the arguments alone
/// determine.
#[verifier::external_body]
fn rome_moment(year: i32, month: u32, day: u32, hour: u32, minute: u32) -> (r: Option<i64>)
    ensures
        r == rome_moment_of(year, month, day, hour, minute),
{
    let opening = chrono_tz::Europe::Rome.with_ymd_and_hms(year, month, day, hour, minute, 0);
    Some(opening.earliest()?.timestamp_millis())
}

/// The session that is under way at a time of day in Rome: the Asian one until nine, the
/// one of London until half past three, then the one of New York.
pub open spec fn active_session(session: VolumeBubbleSession, minutes: int) -> VolumeBubbleSession {
    if session != VolumeBubbleSession::Auto {
        session
    } else if minutes < 540 {
        VolumeBubbleSession::Asian
    } else if minutes < 930 {
        VolumeBubbleSession::London
    } else {
        VolumeBubbleSession::NewYork
    }
}

/// When a session opens in Rome: hour and minute.
pub open spec fn opening_of(session: VolumeBubbleSession) -> (u32, u32) {
    match session {
        VolumeBubbleSession::London => (9, 0),
        VolumeBubbleSession::NewYork => (15, 30),
        _ => (0, 0),
    }
}

/// The opening of the chosen session, or of the one under way, at a time of day in Rome.
pub fn session_opening(session: VolumeBubbleSession, hour: u32, minute: u32) -> (r: (u32, u32))
    requires
        hour < 24,
        minute < 60,
    ensures
        r == opening_of(active_session(session, hour * 60 + minute)),
{
    let minutes: u32 = hour * 60 + minute;
    let active: VolumeBubbleSession = if session != VolumeBubbleSession::Auto {
        session
    } else if minutes < 540 {
        VolumeBubbleSession::Asian
    } else if minutes < 930 {
        VolumeBubbleSession::London
    } else {
        VolumeBubbleSession::NewYork
    };
    match active {
        VolumeBubbleSession::London => (9, 0),
        VolumeBubbleSession::NewYork => (15, 30),
        VolumeBubbleSession::Auto => (0, 0),
        VolumeBubbleSession::Asian => (0, 0),
    }
}

/// The moment of an opening, or `millis` where no clock shows it, and never before the
/// epoch.
pub open spec fn opening_ms(opening: Option<i64>, millis: i64) -> u64 {
    let moment = match opening {
        Some(moment) => moment,
        None => millis,
    };
    if moment < 0 {
        0
    } else {
        moment as u64
    }
}

/// The start of the session, once the moment of its opening is known.
pub fn session_start_from(opening: Option<i64>, millis: i64) -> (r: UnixMs)
    ensures
        r.ms == opening_ms(opening, millis),
{
    let moment: i64 = match opening {
        Some(moment) => moment,
        None => millis,
    };
    if moment < 0 {
        UnixMs::new(0)
    } else {
        UnixMs::new(moment as u64)
    }
}

/// The start of the session of the day in Rome, as the clock there shows it.
pub open spec fn bubble_session_start(millis: i64, session: VolumeBubbleSession) -> Option<u64> {
    match rome_clock_at(millis) {
        Some((year, month, day, hour, minute)) => {
            let opening = opening_of(active_session(session, hour * 60 + minute));
            Some(opening_ms(rome_moment_of(year, month, day, opening.0, opening.1), millis))
        },
        None => None,
    }
}

/// The start of the chosen session of the day in Rome at the moment `millis`, or nothing
/// where the calendar does not reach that far.
pub fn current_volume_bubble_session_start_ms(millis: i64, session: VolumeBubbleSession) -> (r:
    Option<UnixMs>)
    ensures
        r == (match bubble_session_start(millis, session) {
            Some(ms) => Some(UnixMs { ms }),
            None => None,
        }),
{
    match rome_clock(millis) {
        Some((year, month, day, hour, minute)) => {
            let (open_hour, open_minute) = session_opening(session, hour, minute);
            let opening: Option<i64> = rome_moment(year, month, day, open_hour, open_minute);
            Some(session_start_from(opening, millis))
        },
        None => None,
    }
}

/// Where the window of bubbles ends: with the latest candle, but not in the future.
pub open spec fn window_end(kline_latest: u64, timeframe_ms: u64, now: u64) -> u64 {
    units::min_u64(units::sat_add(kline_latest, timeframe_ms), now)
}

/// The length of the window, at least a minute.
pub open spec fn window_ms(history_window_minutes: u64) -> u64 {
    let minutes = units::max_u64(history_window_minutes, 1);
    if minutes * 60_000 > u64::MAX {
        u64::MAX
    } else {
        (minutes * 60_000) as u64
    }
}

/// The window of bubbles, not before the session began; nothing where it is empty.
pub open spec fn window_in_session(window_to: u64, window: u64, session_start: u64) -> Option<
    (UnixMs, UnixMs),
> {
    let from = units::max_u64(units::sat_sub(window_to, window), session_start);
    if from < window_to {
        Some((UnixMs { ms: from }, UnixMs { ms: window_to }))
    } else {
        None
    }
}

/// The window once the start of the session is known.
pub fn effective_range_from(
    kline_latest: UnixMs,
    timeframe_ms: u64,
    now: UnixMs,
    history_window_minutes: u64,
    session_start: UnixMs,
) -> (r: Option<(UnixMs, UnixMs)>)
    ensures
        r == window_in_session(
            window_end(kline_latest.ms, timeframe_ms, now.ms),
            window_ms(history_window_minutes),
            session_start.ms,
        ),
{
    let window_to: u64 = smaller(saturating_add_u64(kline_latest.ms, timeframe_ms), now.ms);
    let minutes: u64 = larger(history_window_minutes, 1);
    let window: u64 = match minutes.checked_mul(60_000) {
        Some(ms) => ms,
        None => u64::MAX,
    };
    let from: u64 = larger(saturating_sub_u64(window_to, window), session_start.ms);
    if from < window_to {
        Some((UnixMs::new(from), UnixMs::new(window_to)))
    } else {
        None
    }
}

/// The range of time whose bubbles are shown: the last minutes before the end of the
/// latest candle, as far as they lie in the session.
pub fn volume_bubble_effective_range(
    kline_latest: UnixMs,
    timeframe_ms: u64,
    now: UnixMs,
    history_window_minutes: u64,
    session: VolumeBubbleSession,
) -> (r: Option<(UnixMs, UnixMs)>)
    ensures
        ({
            let window_to = window_end(kline_latest.ms, timeframe_ms, now.ms);
            r == (match bubble_session_start(units::sat_sub(window_to, 1) as i64, session) {
                Some(start) => window_in_session(
                    window_to,
                    window_ms(history_window_minutes),
                    start,
                ),
                None => None,
            })
        }),
{
    let window_to: u64 = smaller(saturating_add_u64(kline_latest.ms, timeframe_ms), now.ms);
    let last: u64 = saturating_sub_u64(window_to, 1);
    match current_volume_bubble_session_start_ms(last as i64, session) {
        Some(start) => effective_range_from(
            kline_latest,
            timeframe_ms,
            now,
            history_window_minutes,
            start,
        ),
        None => None,
    }
}

} // verus!
