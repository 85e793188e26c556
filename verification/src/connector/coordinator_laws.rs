//! What the coordination of all sources of gamma exposure promises.
use vstd::prelude::*;
use crate::connector::gex;
use crate::connector::gex::{ChainState, GexDataCoordinator, StoredChain};
use crate::connector::gex_deribit::DerivedLookup;
use crate::connector::gex_keys::{
    GexFetchKind, OptionsChainKey, OptionsProvider, OptionsUnderlying, SeriesModel,
};
use crate::connector::gex_proxy::GexFreshness;
use crate::units::UnixMs;

verus! {

/// Of an underlying that someone asks for and of which nothing is known, the instruments of its
/// chain, the remote series and the instruments of the maker trades are asked for at once, the
/// trades not before.
pub proof fn new_underlyings_are_asked_for(
    coordinator: GexDataCoordinator,
    underlying: OptionsUnderlying,
    now: UnixMs,
)
    requires
        coordinator.chain(underlying).subscribers > 0,
        coordinator.chain(underlying).deribit.untouched(),
        coordinator.chain(underlying).proxy.untouched(),
        coordinator.chain(underlying).derive.untouched(),
    ensures
        coordinator.chain_due(underlying, now.ms, true) == Some(
            GexFetchKind::Instruments(
                OptionsChainKey { provider: OptionsProvider::Deribit, underlying },
            ),
        ),
        coordinator.proxy_due(underlying, now.ms, true),
        coordinator.derive_instruments_due(underlying, now.ms, true),
        coordinator.derive_trades_due(underlying, now, true) is None,
{
}

/// Once there are instruments, trades are asked for up to now: the first time those of two
/// hours, afterwards from ten seconds before the last that was seen.
pub proof fn maker_trades_are_asked_for_up_to_now(
    coordinator: GexDataCoordinator,
    underlying: OptionsUnderlying,
    now: UnixMs,
)
    requires
        ({
            let state = coordinator.chain(underlying);
            &&& state.subscribers > 0
            &&& state.derive.instruments is Some && state.derive.instruments->0.count > 0
            &&& !state.derive.trades_in_flight
            &&& state.derive.force_trades
        }),
        now.ms >= 7_200_000,
    ensures
        coordinator.derive_trades_due(underlying, now, true) matches Some(request)
            && request.underlying == underlying && request.to == now
            && match coordinator.chain(underlying).derive.watermark {
            Some(seen) => seen.ms >= 10_000 ==> request.from.ms + 10_000 == seen.ms,
            None => request.from.ms + 7_200_000 == now.ms,
        },
{
}

/// The first consumer of an underlying has everything of it refreshed; further ones, and those
/// that leave, change nothing but their number.
pub proof fn the_first_consumer_refreshes(before: ChainState, count: usize, now: u64)
    ensures
        ({
            let after = GexDataCoordinator::consumed(before, count);
            &&& after.subscribers == count
            &&& after.deribit.raw == before.deribit.raw
            &&& after.proxy.history == before.proxy.history
            &&& after.derive.trades == before.derive.trades
            &&& before.subscribers == 0 && count > 0 ==> {
                &&& after.proxy.is_due(now) <==> !before.proxy.in_flight
                &&& after.derive.instruments_due(now) <==> !before.derive.instruments_in_flight
                &&& after.deribit.force_refresh && after.derive.force_trades
            }
            &&& before.subscribers > 0 || count == 0 ==> after.deribit == before.deribit
                && after.proxy == before.proxy && after.derive == before.derive
        }),
{
}

/// An underlying has as many consumers as it is listed.
pub proof fn consumers_are_counted(list: Seq<OptionsUnderlying>, underlying: OptionsUnderlying)
    ensures
        gex::occurrences(list, underlying) == list.filter(
            |one: OptionsUnderlying| one == underlying,
        ).len(),
    decreases list.len(),
{
    reveal(Seq::filter);
    if list.len() > 0 {
        consumers_are_counted(list.drop_last(), underlying);
    }
}

/// Every stored chain with contracts takes a revision of its own, in order.
pub proof fn stored_chains_take_a_revision_each(first: u64, stored: Seq<StoredChain>)
    requires
        first + stored.len() <= 0xffff_ffff_ffff_ffff,
    ensures
        GexDataCoordinator::loaded_revision(first, stored) == first + stored.filter(
            |chain: StoredChain| chain.value.contracts > 0,
        ).len(),
        stored.filter(|chain: StoredChain| chain.value.contracts > 0).len() <= stored.len(),
    decreases stored.len(),
{
    reveal(Seq::filter);
    if stored.len() > 0 {
        stored_chains_take_a_revision_each(first, stored.drop_last());
    }
}

/// Of the stored chains of an underlying the last one with contracts is taken in, as stale, and
/// as received when it was observed. Nothing else changes.
pub proof fn the_last_stored_chain_is_taken_in(
    before: ChainState,
    underlying: OptionsUnderlying,
    first: u64,
    stored: Seq<StoredChain>,
    at: int,
    now: u64,
)
    requires
        0 <= at < stored.len(),
        stored[at].key.underlying == underlying,
        stored[at].value.contracts > 0,
        forall|i: int|
            at < i < stored.len() ==> (#[trigger] stored[i]).key.underlying != underlying
                || stored[i].value.contracts == 0,
    ensures
        ({
            let after = GexDataCoordinator::loaded_chain(before, underlying, first, stored);
            &&& after.deribit.raw is Some
            &&& after.deribit.raw->0.value == stored[at].value
            &&& after.deribit.raw->0.received_at == stored[at].value.observed_at
            &&& before.deribit.failure is None ==> after.deribit.freshness_at(now)
                == GexFreshness::Stale
            &&& after.subscribers == before.subscribers
            &&& after.proxy == before.proxy
            &&& after.derive == before.derive
            &&& after.deribit.instruments == before.deribit.instruments
        }),
    decreases stored.len(),
{
    let front = stored.drop_last();
    lemma_loaded_rest(before, underlying, first, front);
    if at < front.len() {
        assert(front[at] == stored[at]);
        assert forall|i: int| at < i < front.len() implies (#[trigger] front[i]).key.underlying
            != underlying || front[i].value.contracts == 0 by {
            assert(front[i] == stored[i]);
        }
        assert(stored[stored.len() - 1] == stored.last());
        the_last_stored_chain_is_taken_in(before, underlying, first, front, at, now);
    }
}

proof fn lemma_loaded_rest(
    before: ChainState,
    underlying: OptionsUnderlying,
    first: u64,
    stored: Seq<StoredChain>,
)
    ensures
        ({
            let after = GexDataCoordinator::loaded_chain(before, underlying, first, stored);
            &&& after.deribit.failure == before.deribit.failure
            &&& after.deribit.instruments == before.deribit.instruments
            &&& after.subscribers == before.subscribers
            &&& after.proxy == before.proxy
            &&& after.derive == before.derive
        }),
    decreases stored.len(),
{
    if stored.len() > 0 {
        lemma_loaded_rest(before, underlying, first, stored.drop_last());
    }
}

/// What was stored of other underlyings, or holds no contracts, leaves an underlying as it was.
pub proof fn other_stored_chains_change_nothing(
    before: ChainState,
    underlying: OptionsUnderlying,
    first: u64,
    stored: Seq<StoredChain>,
)
    requires
        forall|i: int|
            0 <= i < stored.len() ==> (#[trigger] stored[i]).key.underlying != underlying
                || stored[i].value.contracts == 0,
    ensures
        GexDataCoordinator::loaded_chain(before, underlying, first, stored) == before,
    decreases stored.len(),
{
    if stored.len() > 0 {
        let front = stored.drop_last();
        assert forall|i: int| 0 <= i < front.len() implies (#[trigger] front[i]).key.underlying
            != underlying || front[i].value.contracts == 0 by {
            assert(front[i] == stored[i]);
        }
        assert(stored[stored.len() - 1] == stored.last());
        other_stored_chains_change_nothing(before, underlying, first, front);
    }
}

/// After everything stored was dropped there is no market data to derive anything from, and no
/// history; the other sources and the consumers stay.
pub proof fn dropped_data_is_gone(
    before: ChainState,
    after: ChainState,
    key: SeriesModel,
    now: u64,
)
    requires
        GexDataCoordinator::invalidated(before, after),
    ensures
        after.deribit.lookup(key) == DerivedLookup::NoData,
        after.deribit.histories.entries_of(key).len() == 0,
        before.deribit.failure is None ==> after.deribit.freshness_at(now) == GexFreshness::Loading,
        after.proxy == before.proxy,
        after.derive == before.derive,
        after.subscribers == before.subscribers,
        after.deribit.instruments == before.deribit.instruments,
{
}

} // verus!
