//! Moments as text.
use vstd::prelude::*;
use crate::chart::kline::drawing::labels;
use crate::chart::kline::drawing::labels::{utc_clock, LAST_CALENDAR_MS};
use crate::text;
use crate::text::{push_decimal, push_padded, push_text};
use crate::units::UnixMs;

verus! {

/// The day of a moment in UTC as `chrono` writes it with `%Y-%m-%d`.
pub uninterp spec fn utc_date_of(ms: u64) -> Seq<char>;

/// `chrono::DateTime::from_timestamp_millis` and `format` with `%Y-%m-%d`: the day in UTC,
/// which the moment alone determines, and nothing for a moment after the last day of the
/// calendar.
#[verifier::external_body]
fn utc_date(ms: u64) -> (r: Option<String>)
    ensures
        r is Some <==> ms <= LAST_CALENDAR_MS,
        r is Some ==> r->0@ == utc_date_of(ms),
{
    let millis = i64::try_from(ms).ok()?;
    let moment = chrono::DateTime::from_timestamp_millis(millis)?;
    Some(moment.format("%Y-%m-%d").to_string())
}

/// A day with the time of day of a moment, to the millisecond.
pub open spec fn dated(date: Seq<char>, ms: u64) -> Seq<char> {
    date + " "@ + labels::clock_text(ms) + "."@ + text::padded(ms as nat % 1_000, 3) + " UTC"@
}

/// A moment as text: its day and time in UTC, or its number after the last day of the
/// calendar.
pub open spec fn moment_text(ms: u64) -> Seq<char> {
    if ms <= LAST_CALENDAR_MS {
        dated(utc_date_of(ms), ms)
    } else {
        text::decimal(ms as nat)
    }
}

/// A day with the time of day of a moment behind it.
pub fn with_time(date: &str, clock: &str, moment: UnixMs) -> (r: String)
    ensures
        r@ == date@ + " "@ + clock@ + "."@ + text::padded(moment.ms as nat % 1_000, 3) + " UTC"@,
{
    let mut out: String = String::new();
    push_text(&mut out, date);
    push_text(&mut out, " ");
    push_text(&mut out, clock);
    push_text(&mut out, ".");
    push_padded(&mut out, moment.ms % 1_000, 3);
    push_text(&mut out, " UTC");
    assert(out@ =~= date@ + " "@ + clock@ + "."@ + text::padded(moment.ms as nat % 1_000, 3)
        + " UTC"@);
    out
}

/// A moment as text.
pub fn moment_label(moment: UnixMs) -> (r: String)
    ensures
        r@ == moment_text(moment.ms),
{
    match (utc_date(moment.ms), utc_clock(moment.ms)) {
        (Some(date), Some(clock)) => with_time(date.as_str(), clock.as_str(), moment),
        _ => {
            let mut out: String = String::new();
            push_decimal(&mut out, moment.ms);
            assert(out@ =~= text::decimal(moment.ms as nat));
            out
        },
    }
}

} // verus!
