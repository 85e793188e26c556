//! What is remembered of failed requests, and when the next attempt is allowed.
use vstd::prelude::*;
use crate::units;
use crate::units::UnixMs;

verus! {

pub const FAILURE_BACKOFF_BASE_MS: u64 = 5_000;

pub const FAILURE_BACKOFF_MAX_MS: u64 = 120_000;

/// The failures of a source since its last success.
#[derive(Clone, Debug, PartialEq, Eq)]
pub struct FailureState {
    pub attempts: u32,
    pub retry_after: UnixMs,
    pub last_error: String,
}

/// The pause after the given number of failures: it doubles with each, up to a bound.
pub open spec fn backoff_ms(attempts: nat) -> nat
    decreases attempts,
{
    if attempts <= 1 {
        FAILURE_BACKOFF_BASE_MS as nat
    } else if 2 * backoff_ms((attempts - 1) as nat) > FAILURE_BACKOFF_MAX_MS {
        FAILURE_BACKOFF_MAX_MS as nat
    } else {
        2 * backoff_ms((attempts - 1) as nat)
    }
}

/// The number of failures once one more has happened.
pub open spec fn attempts_after(previous: Option<FailureState>) -> u32 {
    match previous {
        Some(failure) => if failure.attempts == u32::MAX {
            u32::MAX
        } else {
            (failure.attempts + 1) as u32
        },
        None => 1,
    }
}

/// The moment before which no retry is made after one more failure at `now`.
pub open spec fn retry_after(previous: Option<FailureState>, now: u64) -> u64 {
    units::sat_add(now, backoff_ms(attempts_after(previous) as nat) as u64)
}

/// `after` is `previous` with one more failure, of the given text, at `now`.
pub open spec fn failed_again(
    previous: Option<FailureState>,
    after: Option<FailureState>,
    error: Seq<char>,
    now: u64,
) -> bool {
    &&& after is Some
    &&& after->0.attempts == attempts_after(previous)
    &&& after->0.retry_after.ms == retry_after(previous, now)
    &&& after->0.last_error@ == error
}

/// Whether a failure still keeps a source from being asked at `now`.
pub open spec fn is_waiting(failure: Option<FailureState>, now: u64) -> bool {
    failure is Some && now < failure->0.retry_after.ms
}

/// The pause lies between the base and the bound, and does not shrink with further
/// failures.
pub proof fn backoff_is_bounded_and_monotone(a: nat, b: nat)
    requires
        a <= b,
    ensures
        FAILURE_BACKOFF_BASE_MS <= backoff_ms(a) <= backoff_ms(b) <= FAILURE_BACKOFF_MAX_MS,
    decreases b,
{
    if b > 1 {
        backoff_is_bounded_and_monotone(if a == b {
            (b - 1) as nat
        } else {
            a
        }, (b - 1) as nat);
        if a == b {
            backoff_is_bounded_and_monotone((b - 1) as nat, (b - 1) as nat);
        }
    }
}

/// The pause after the given number of failures.
fn backoff(attempts: u32) -> (r: u64)
    ensures
        r == backoff_ms(attempts as nat),
{
    let mut delay: u64 = FAILURE_BACKOFF_BASE_MS;
    let mut counted: u32 = 1;
    while counted < attempts && delay < FAILURE_BACKOFF_MAX_MS
        invariant
            counted >= 1,
            delay == backoff_ms(counted as nat),
            attempts >= 1 ==> counted <= attempts,
            attempts == 0 ==> counted == 1,
            delay <= FAILURE_BACKOFF_MAX_MS,
        decreases attempts - counted,
    {
        delay = if delay * 2 > FAILURE_BACKOFF_MAX_MS {
            FAILURE_BACKOFF_MAX_MS
        } else {
            delay * 2
        };
        counted = counted + 1;
    }
    proof {
        if attempts >= 1 {
            backoff_is_bounded_and_monotone(counted as nat, attempts as nat);
        }
    }
    delay
}

/// One more failure after `previous`.
pub fn record_failure(previous: &Option<FailureState>, error: String, now: UnixMs) -> (r: Option<
    FailureState,
>)
    ensures
        failed_again(*previous, r, error@, now.ms),
{
    let attempts: u32 = match previous {
        Some(failure) => if failure.attempts == u32::MAX {
            u32::MAX
        } else {
            failure.attempts + 1
        },
        None => 1,
    };
    let delay: u64 = backoff(attempts);
    proof {
        backoff_is_bounded_and_monotone(attempts as nat, attempts as nat);
    }
    Some(FailureState { attempts, retry_after: now.saturating_add(delay), last_error: error })
}

/// Whether a failure still keeps a source from being asked.
pub fn waits(failure: &Option<FailureState>, now: UnixMs) -> (r: bool)
    ensures
        r == is_waiting(*failure, now.ms),
{
    match failure {
        Some(failure) => now.ms < failure.retry_after.ms,
        None => false,
    }
}

/// Whether `interval` milliseconds have passed since `last`, or there is no `last`.
pub open spec fn is_expired(last: Option<UnixMs>, now: u64, interval: u64) -> bool {
    match last {
        Some(moment) => units::sat_sub(now, moment.ms) >= interval,
        None => true,
    }
}

pub fn expired(last: Option<UnixMs>, now: UnixMs, interval: u64) -> (r: bool)
    ensures
        r == is_expired(last, now.ms, interval),
{
    match last {
        Some(moment) => now.saturating_diff(moment) >= interval,
        None => true,
    }
}

} // verus!
