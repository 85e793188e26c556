//! How long a chain is left alone after failures in a row.
use vstd::arithmetic::power2::pow2;
use vstd::prelude::*;
use crate::connector::failure;
use crate::connector::failure::{FAILURE_BACKOFF_BASE_MS, FAILURE_BACKOFF_MAX_MS};
use crate::connector::gex::{ChainState, GexDataCoordinator};
use crate::connector::gex_deribit::{ChainSnapshot, DeribitState};
use crate::connector::gex_derive::InstrumentList;
use crate::connector::gex_keys::{GexFetchKind, OptionsUnderlying};
use crate::units;

verus! {

use vstd::arithmetic::power2::{lemma2_to64, lemma_pow2_strictly_increases, lemma_pow2_unfold};

/// Five seconds, doubled with each failure after the first, and two minutes at most.
pub open spec fn pause_ms(failures: nat) -> nat
    recommends
        failures >= 1,
{
    let doubled = FAILURE_BACKOFF_BASE_MS as nat * pow2((failures - 1) as nat);
    if doubled < FAILURE_BACKOFF_MAX_MS {
        doubled
    } else {
        FAILURE_BACKOFF_MAX_MS as nat
    }
}

/// The pause of the `n`-th failure in a row in closed form.
pub proof fn pauses_double_up_to_two_minutes(n: nat)
    requires
        n >= 1,
    ensures
        failure::backoff_ms(n) == pause_ms(n),
    decreases n,
{
    lemma2_to64();
    if n > 1 {
        let shorter = (n - 1) as nat;
        pauses_double_up_to_two_minutes(shorter);
        lemma_pow2_unfold(shorter);
        if n > 6 {
            lemma_pow2_strictly_increases(5, shorter);
            if n > 7 {
                lemma_pow2_strictly_increases(5, (n - 2) as nat);
            }
        }
    }
}

/// An answer that is an error, or holds nothing, with the words that are kept of it.
pub open spec fn is_failed_answer(
    before: DeribitState,
    after: DeribitState,
    error: Seq<char>,
    now: u64,
) -> bool {
    ||| exists|result: Result<InstrumentList, String>| #[trigger]
        DeribitState::instruments_completed(before, result, now, after) && match result {
            Ok(values) => values.count == 0 && error == "empty instrument metadata"@,
            Err(words) => error == words@,
        }
    ||| exists|result: Result<ChainSnapshot, String>, revision: u64| #[trigger]
        DeribitState::snapshot_completed(before, result, now, revision, after) && match result {
            Ok(value) => value.contracts == 0 && error == "empty option chain"@,
            Err(words) => error == words@,
        }
}

/// The states of a chain since its last success. Each entry of `failures` is a failed answer
/// with its words and its moment, or a step that leaves the failures as they are.
pub open spec fn is_failing_run(
    states: Seq<ChainState>,
    failures: Seq<Option<(Seq<char>, u64)>>,
) -> bool {
    &&& states.len() == failures.len() + 1
    &&& states[0].deribit.failure is None
    &&& forall|k: int|
        0 <= k < failures.len() ==> match #[trigger] failures[k] {
            Some((error, now)) => is_failed_answer(
                states[k].deribit,
                states[k + 1].deribit,
                error,
                now,
            ),
            None => states[k + 1].deribit.failure == states[k].deribit.failure,
        }
}

/// The number of failures among the steps.
pub open spec fn failure_count(failures: Seq<Option<(Seq<char>, u64)>>) -> nat
    decreases failures.len(),
{
    if failures.len() == 0 {
        0
    } else {
        failure_count(failures.drop_last()) + if failures.last() is Some {
            1nat
        } else {
            0nat
        }
    }
}

/// The last failure among the steps.
pub open spec fn last_failure(failures: Seq<Option<(Seq<char>, u64)>>) -> Option<(Seq<char>, u64)>
    decreases failures.len(),
{
    if failures.len() == 0 {
        None
    } else if failures.last() is Some {
        failures.last()
    } else {
        last_failure(failures.drop_last())
    }
}

/// Reconnecting, a change of who asks, and requests that are under way leave the failures of
/// a chain as they are.
pub proof fn reconnects_keep_failures(
    state: ChainState,
    kind: Option<GexFetchKind>,
    consumers: usize,
)
    ensures
        state.forced().deribit.failure == state.deribit.failure,
        GexDataCoordinator::begun(state, kind).deribit.failure == state.deribit.failure,
        GexDataCoordinator::consumed(state, consumers).deribit.failure == state.deribit.failure,
{
}

proof fn lemma_run(states: Seq<ChainState>, failures: Seq<Option<(Seq<char>, u64)>>)
    requires
        is_failing_run(states, failures),
    ensures
        match states.last().deribit.failure {
            None => failure_count(failures) == 0 && last_failure(failures) is None,
            Some(kept) => {
                &&& failure_count(failures) >= 1
                &&& last_failure(failures) is Some
                &&& kept.attempts == (if failure_count(failures) > u32::MAX {
                    u32::MAX as nat
                } else {
                    failure_count(failures)
                })
                &&& kept.retry_after.ms == units::sat_add(
                    (last_failure(failures)->0).1,
                    failure::backoff_ms(kept.attempts as nat) as u64,
                )
                &&& kept.last_error@ == (last_failure(failures)->0).0
            },
        },
    decreases failures.len(),
{
    if failures.len() > 0 {
        let n = failures.len() - 1;
        let shorter = failures.drop_last();
        let earlier = states.drop_last();
        assert forall|k: int| 0 <= k < shorter.len() implies match #[trigger] shorter[k] {
            Some((error, now)) => is_failed_answer(
                earlier[k].deribit,
                earlier[k + 1].deribit,
                error,
                now,
            ),
            None => earlier[k + 1].deribit.failure == earlier[k].deribit.failure,
        } by {
            assert(shorter[k] == failures[k]);
        }
        lemma_run(earlier, shorter);
        assert(earlier.last() == states[n]);
        assert(states.last() == states[n + 1]);
        match failures[n] {
            Some((error, now)) => {
                assert(failure::failed_again(
                    states[n].deribit.failure,
                    states[n + 1].deribit.failure,
                    error,
                    now,
                ));
            },
            None => {},
        }
    }
}

/// After the `n`-th failure in a row, at `now`, nothing is requested of the chain before
/// `now + min(5 s * 2^(n-1), 2 min)`, however often the connection is made anew. From then on
/// the failure is no obstacle any more. The words of the last failure are kept.
pub proof fn failures_in_a_row_pause_requests(
    coordinator: GexDataCoordinator,
    underlying: OptionsUnderlying,
    states: Seq<ChainState>,
    failures: Seq<Option<(Seq<char>, u64)>>,
    t: u64,
)
    requires
        is_failing_run(states, failures),
        failure_count(failures) >= 1,
        coordinator.chain(underlying) == states.last(),
    ensures
        last_failure(failures) is Some,
        ({
            let (error, now) = last_failure(failures)->0;
            let state = coordinator.chain(underlying);
            let retry_at = units::sat_add(now, pause_ms(failure_count(failures)) as u64);
            &&& t < retry_at ==> coordinator.chain_due(underlying, t, true) is None
                && state.forced().deribit.due(t) is None
            &&& t >= retry_at ==> state.deribit.due(t) == (DeribitState {
                failure: None,
                ..state.deribit
            }).due(t)
            &&& state.deribit.failure matches Some(kept) && kept.last_error@ == error
                && kept.retry_after.ms == retry_at
        }),
{
    lemma_run(states, failures);
    let n = failure_count(failures);
    pauses_double_up_to_two_minutes(n);
    let kept = states.last().deribit.failure->0;
    if n > u32::MAX {
        failure::backoff_is_bounded_and_monotone(8, u32::MAX as nat);
        failure::backoff_is_bounded_and_monotone(8, n);
        pauses_double_up_to_two_minutes(8);
        lemma2_to64();
    }
}

/// The failures of one underlying leave the requests of the other one alone.
pub proof fn failures_leave_other_underlyings_alone(
    before: GexDataCoordinator,
    after: GexDataCoordinator,
    failed: OptionsUnderlying,
    other: OptionsUnderlying,
    t: u64,
    online: bool,
)
    requires
        other != failed,
        after.differs_at(before, failed),
    ensures
        after.chain_due(other, t, online) == before.chain_due(other, t, online),
{
}

} // verus!
