//! Coordinates the option data of all underlyings: who asks for it, which requests are to
//! be made when, and what the answers change.
//!
//! The coordinator decides; it makes no request itself and reads no file. Lists of
//! requests name Bitcoin before Ether.
use vstd::prelude::*;
use rustc_hash::FxHashMap;
use crate::connector::gex_deribit;
use crate::connector::gex_deribit::{ChainRequest, ChainSnapshot, DeribitState, DerivedLookup};
use crate::connector::gex_derive::{DeriveState, InstrumentList};
use crate::connector::gex_history;
use crate::connector::gex_history::{MakerTradeRef, ProxyRef, SnapshotRef};
use crate::connector::gex_keys::{
    DerivedGexSeriesKey, GexFetchKind, OptionsChainKey, OptionsProvider, OptionsUnderlying,
    SeriesModel,
};
use crate::connector::gex_proxy;
use crate::connector::gex_proxy::{GexFreshness, ProxyResponse, ProxyState, PROXY_WINDOW_MS};
use crate::connector::gex_series;
use crate::connector::gex_series::HistoryEntry;
use crate::connector::records;
use crate::fx;
use crate::units;
use crate::units::UnixMs;

verus! {

#[derive(Clone, Copy, Debug, PartialEq, Eq, Structural)]
pub enum GexHistoryError {
    CacheUnavailable,
}

impl GexHistoryError {
    pub fn describe(self) -> (r: String)
        ensures
            r@ == "local GEX history cache is unavailable"@,
    {
        match self {
            GexHistoryError::CacheUnavailable => {
                "local GEX history cache is unavailable".to_owned()
            },
        }
    }
}

/// Reads the history of a series from the local cache.
#[derive(Clone, Copy, Debug, PartialEq, Eq, Structural)]
pub struct LocalGexHistoryProvider;

impl LocalGexHistoryProvider {
    /// What the local cache gave, or the error where there is no cache.
    pub fn load_range<T>(self, read: Option<T>) -> (r: Result<T, GexHistoryError>)
        ensures
            match read {
                Some(found) => r == Ok::<T, GexHistoryError>(found),
                None => r == Err::<T, GexHistoryError>(GexHistoryError::CacheUnavailable),
            },
    {
        match read {
            Some(found) => Ok(found),
            None => Err(GexHistoryError::CacheUnavailable),
        }
    }
}

/// The answer to a request for a chain.
#[derive(Debug)]
pub enum GexFetchResult {
    Instruments { key: OptionsChainKey, result: Result<InstrumentList, String> },
    Snapshot { key: OptionsChainKey, result: Result<ChainSnapshot, String> },
}

#[derive(Debug)]
pub struct DeriveInstrumentsFetchResult {
    pub underlying: OptionsUnderlying,
    pub result: Result<InstrumentList, String>,
}

#[derive(Debug)]
pub struct DeriveTradesFetchResult {
    pub underlying: OptionsUnderlying,
    pub result: Result<Vec<MakerTradeRef>, String>,
}

/// A request for the maker trades of a range of time.
#[derive(Clone, Copy, Debug, PartialEq, Eq, Structural)]
pub struct DeriveTradeFetchRequest {
    pub underlying: OptionsUnderlying,
    pub from: UnixMs,
    pub to: UnixMs,
}

/// Everything that is known of one underlying.
#[derive(Debug)]
pub struct ChainState {
    pub subscribers: usize,
    pub deribit: DeribitState,
    pub proxy: ProxyState,
    pub derive: DeriveState,
}

impl ChainState {
    pub open spec fn untouched(self) -> bool {
        &&& self.subscribers == 0
        &&& self.deribit.untouched()
        &&& self.proxy.untouched()
        &&& self.derive.untouched()
    }

    fn new() -> (r: Self)
        ensures
            r.untouched(),
    {
        ChainState {
            subscribers: 0,
            deribit: DeribitState::new(),
            proxy: ProxyState::new(),
            derive: DeriveState::new(),
        }
    }

    /// Whether anyone asks for the data.
    pub open spec fn is_active(self) -> bool {
        self.subscribers > 0
    }

    /// The state with all four requests forced.
    pub open spec fn forced(self) -> Self {
        ChainState {
            deribit: DeribitState { force_refresh: true, ..self.deribit },
            proxy: ProxyState { force_refresh: true, ..self.proxy },
            derive: DeriveState { force_instruments: true, force_trades: true, ..self.derive },
            ..self
        }
    }

    fn force(&mut self)
        ensures
            *final(self) == old(self).forced(),
    {
        self.deribit.force_refresh = true;
        self.proxy.force_refresh = true;
        self.derive.force_instruments = true;
        self.derive.force_trades = true;
    }
}

/// The items that are there, first to last.
pub open spec fn listed<T>(first: Option<T>, second: Option<T>) -> Seq<T> {
    match (first, second) {
        (Some(a), Some(b)) => seq![a, b],
        (Some(a), None) => seq![a],
        (None, Some(b)) => seq![b],
        (None, None) => seq![],
    }
}

fn list<T>(first: Option<T>, second: Option<T>) -> (r: Vec<T>)
    ensures
        r@ == listed(first, second),
{
    let mut r: Vec<T> = Vec::new();
    if let Some(item) = first {
        r.push(item);
    }
    if let Some(item) = second {
        r.push(item);
    }
    assert(r@ =~= listed(first, second));
    r
}

/// How often an underlying occurs in a list.
pub open spec fn occurrences(list: Seq<OptionsUnderlying>, underlying: OptionsUnderlying) -> nat
    decreases list.len(),
{
    if list.len() == 0 {
        0
    } else {
        occurrences(list.drop_last(), underlying) + if list.last() == underlying {
            1nat
        } else {
            0nat
        }
    }
}

fn count(list: &Vec<OptionsUnderlying>, underlying: OptionsUnderlying) -> (r: usize)
    ensures
        r == occurrences(list@, underlying),
{
    let mut r: usize = 0;
    let mut i: usize = 0;
    while i < list.len()
        invariant
            i <= list@.len(),
            r <= i,
            r == occurrences(list@.take(i as int), underlying),
        decreases list@.len() - i,
    {
        assert(list@.take(i + 1).drop_last() =~= list@.take(i as int));
        if list[i] == underlying {
            r = r + 1;
        }
        i = i + 1;
    }
    assert(list@.take(list@.len() as int) =~= list@);
    r
}

/// The schema of the market data that is stored between runs.
pub const STORED_SCHEMA: u32 = 1;

/// A chain that was stored, and its market data.
#[derive(Clone, Copy, Debug)]
pub struct StoredChain {
    pub key: OptionsChainKey,
    pub value: ChainSnapshot,
}

#[derive(Debug)]
pub struct GexDataCoordinator {
    chains: FxHashMap<u64, ChainState>,
    next_revision: u64,
    persist_heatmap: bool,
}

impl GexDataCoordinator {
    /// The state of every underlying is there.
    pub closed spec fn wf(self) -> bool {
        &&& self.chains@.dom().contains(OptionsUnderlying::Btc.code())
        &&& self.chains@.dom().contains(OptionsUnderlying::Eth.code())
    }

    pub closed spec fn chain(self, underlying: OptionsUnderlying) -> ChainState {
        self.chains@[underlying.code()]
    }

    /// The number that the next market data gets.
    pub closed spec fn revision(self) -> u64 {
        self.next_revision
    }

    /// Whether histories are stored.
    pub closed spec fn persistent(self) -> bool {
        self.persist_heatmap
    }

    /// Nothing but the state of `underlying` has changed.
    pub open spec fn differs_at(self, before: Self, underlying: OptionsUnderlying) -> bool {
        &&& self.wf()
        &&& self.revision() == before.revision()
        &&& self.persistent() == before.persistent()
        &&& forall|other: OptionsUnderlying|
            other != underlying ==> #[trigger] self.chain(other) == before.chain(other)
    }

    /// Nothing but the states of the underlyings has changed.
    pub open spec fn same_settings(self, before: Self) -> bool {
        &&& self.wf()
        &&& self.revision() == before.revision()
        &&& self.persistent() == before.persistent()
    }

    fn take(&mut self, underlying: OptionsUnderlying) -> (r: ChainState)
        requires
            old(self).wf(),
        ensures
            r == old(self).chain(underlying),
            final(self).chains@ == old(self).chains@.remove(underlying.code()),
            final(self).next_revision == old(self).next_revision,
            final(self).persist_heatmap == old(self).persist_heatmap,
    {
        match fx::remove(&mut self.chains, underlying.map_key()) {
            Some(state) => state,
            None => ChainState::new(),
        }
    }

    fn put(&mut self, underlying: OptionsUnderlying, state: ChainState)
        ensures
            final(self).chains@ == old(self).chains@.insert(underlying.code(), state),
            final(self).next_revision == old(self).next_revision,
            final(self).persist_heatmap == old(self).persist_heatmap,
    {
        fx::insert(&mut self.chains, underlying.map_key(), state);
    }

    fn at(&self, underlying: OptionsUnderlying) -> (r: Option<&ChainState>)
        requires
            self.wf(),
        ensures
            r == Some(&self.chain(underlying)),
    {
        fx::get(&self.chains, underlying.map_key())
    }

    /// A coordinator that knows nothing yet.
    pub fn new(persist_heatmap: bool) -> (r: Self)
        ensures
            r.wf(),
            r.revision() == 1,
            r.persistent() == persist_heatmap,
            forall|u: OptionsUnderlying| (#[trigger] r.chain(u)).untouched(),
    {
        let mut r = GexDataCoordinator { chains: fx::new_map(), next_revision: 1, persist_heatmap };
        r.put(OptionsUnderlying::Btc, ChainState::new());
        r.put(OptionsUnderlying::Eth, ChainState::new());
        assert forall|u: OptionsUnderlying| (#[trigger] r.chain(u)).untouched() by {
            match u {
                OptionsUnderlying::Btc => {},
                OptionsUnderlying::Eth => {},
            }
        }
        r
    }

    /// Takes in market data that was stored earlier. Each chain that is not empty gets the
    /// next revision.
    pub fn load_snapshot(&mut self, key: OptionsChainKey, value: ChainSnapshot)
        requires
            old(self).wf(),
        ensures
            final(self).wf(),
            final(self).persistent() == old(self).persistent(),
            forall|other: OptionsUnderlying|
                other != key.underlying ==> #[trigger] final(self).chain(other) == old(self).chain(
                    other,
                ),
            if value.contracts > 0 {
                &&& final(self).revision() == units::sat_add(old(self).revision(), 1)
                &&& final(self).chain(key.underlying) == (ChainState {
                    deribit: DeribitState {
                        raw: Some(
                            gex_deribit::CachedRawSnapshot {
                                value,
                                received_at: value.observed_at,
                                revision: old(self).revision(),
                                loaded_from_disk: true,
                            },
                        ),
                        ..old(self).chain(key.underlying).deribit
                    },
                    ..old(self).chain(key.underlying)
                })
            } else {
                &&& final(self).revision() == old(self).revision()
                &&& final(self).chain(key.underlying) == old(self).chain(key.underlying)
            },
    {
        let mut state = self.take(key.underlying);
        if state.deribit.load_snapshot(value, self.next_revision) {
            self.next_revision = self.next_revision.saturating_add(1);
        }
        self.put(key.underlying, state);
    }

    /// The revision that is next after stored market data was taken in.
    pub open spec fn loaded_revision(first: u64, stored: Seq<StoredChain>) -> u64
        decreases stored.len(),
    {
        if stored.len() == 0 {
            first
        } else {
            let head = Self::loaded_revision(first, stored.drop_last());
            if stored.last().value.contracts > 0 {
                units::sat_add(head, 1)
            } else {
                head
            }
        }
    }

    /// The state of an underlying after stored market data was taken in: the last chain of
    /// it that is not empty, with its revision.
    pub open spec fn loaded_chain(
        before: ChainState,
        underlying: OptionsUnderlying,
        first: u64,
        stored: Seq<StoredChain>,
    ) -> ChainState
        decreases stored.len(),
    {
        if stored.len() == 0 {
            before
        } else {
            let head = Self::loaded_chain(before, underlying, first, stored.drop_last());
            let last = stored.last();
            if last.key.underlying == underlying && last.value.contracts > 0 {
                ChainState {
                    deribit: DeribitState {
                        raw: Some(
                            gex_deribit::CachedRawSnapshot {
                                value: last.value,
                                received_at: last.value.observed_at,
                                revision: Self::loaded_revision(first, stored.drop_last()),
                                loaded_from_disk: true,
                            },
                        ),
                        ..head.deribit
                    },
                    ..head
                }
            } else {
                head
            }
        }
    }

    /// Takes in what was stored earlier, in order, where it is of the current schema.
    pub fn load_persistent(&mut self, schema: u32, stored: &Vec<StoredChain>)
        requires
            old(self).wf(),
        ensures
            final(self).wf(),
            final(self).persistent() == old(self).persistent(),
            schema != STORED_SCHEMA ==> *final(self) == *old(self),
            schema == STORED_SCHEMA ==> final(self).revision() == Self::loaded_revision(
                old(self).revision(),
                stored@,
            ) && forall|u: OptionsUnderlying| #[trigger]
                final(self).chain(u) == Self::loaded_chain(
                    old(self).chain(u),
                    u,
                    old(self).revision(),
                    stored@,
                ),
    {
        if schema != STORED_SCHEMA {
            return ;
        }
        let mut i: usize = 0;
        while i < stored.len()
            invariant
                i <= stored@.len(),
                self.wf(),
                self.persistent() == old(self).persistent(),
                self.revision() == Self::loaded_revision(
                    old(self).revision(),
                    stored@.take(i as int),
                ),
                forall|u: OptionsUnderlying| #[trigger]
                    self.chain(u) == Self::loaded_chain(
                        old(self).chain(u),
                        u,
                        old(self).revision(),
                        stored@.take(i as int),
                    ),
            decreases stored@.len() - i,
        {
            assert(stored@.take(i + 1).drop_last() =~= stored@.take(i as int));
            self.load_snapshot(stored[i].key, stored[i].value);
            i = i + 1;
        }
        assert(stored@.take(stored@.len() as int) =~= stored@);
    }

    /// What becoming an underlying of `count` consumers does to its state: one that had
    /// none before has everything refreshed.
    pub open spec fn consumed(before: ChainState, count: usize) -> ChainState {
        let state = ChainState { subscribers: count, ..before };
        if count > 0 && before.subscribers == 0 {
            state.forced()
        } else {
            state
        }
    }

    fn consume(&mut self, underlying: OptionsUnderlying, consumers: usize)
        requires
            old(self).wf(),
        ensures
            final(self).differs_at(*old(self), underlying),
            final(self).chain(underlying) == Self::consumed(
                old(self).chain(underlying),
                consumers,
            ),
    {
        let mut state = self.take(underlying);
        if consumers > 0 && state.subscribers == 0 {
            state.force();
        }
        state.subscribers = consumers;
        self.put(underlying, state);
    }

    /// Sets who asks for data, one entry per consumer.
    pub fn set_consumers(&mut self, consumers: &Vec<OptionsUnderlying>)
        requires
            old(self).wf(),
        ensures
            final(self).same_settings(*old(self)),
            forall|u: OptionsUnderlying| #[trigger]
                final(self).chain(u) == Self::consumed(
                    old(self).chain(u),
                    occurrences(consumers@, u) as usize,
                ),
    {
        let btc: usize = count(consumers, OptionsUnderlying::Btc);
        let eth: usize = count(consumers, OptionsUnderlying::Eth);
        self.consume(OptionsUnderlying::Btc, btc);
        self.consume(OptionsUnderlying::Eth, eth);
        assert forall|u: OptionsUnderlying| #[trigger]
            self.chain(u) == Self::consumed(
                old(self).chain(u),
                occurrences(consumers@, u) as usize,
            ) by {
            match u {
                OptionsUnderlying::Btc => {},
                OptionsUnderlying::Eth => {},
            }
        }
    }

    pub fn subscriber_count(&self, underlying: OptionsUnderlying) -> (r: usize)
        requires
            self.wf(),
        ensures
            r == self.chain(underlying).subscribers,
    {
        match self.at(underlying) {
            Some(state) => state.subscribers,
            None => 0,
        }
    }

    fn reconnect_at(&mut self, underlying: OptionsUnderlying)
        requires
            old(self).wf(),
        ensures
            final(self).differs_at(*old(self), underlying),
            final(self).chain(underlying) == (if old(self).chain(underlying).is_active() {
                old(self).chain(underlying).forced()
            } else {
                old(self).chain(underlying)
            }),
    {
        let mut state = self.take(underlying);
        if state.subscribers > 0 {
            state.force();
        }
        self.put(underlying, state);
    }

    /// Has everything that is asked for refreshed.
    pub fn reconnect(&mut self)
        requires
            old(self).wf(),
        ensures
            final(self).same_settings(*old(self)),
            forall|u: OptionsUnderlying| #[trigger]
                final(self).chain(u) == (if old(self).chain(u).is_active() {
                    old(self).chain(u).forced()
                } else {
                    old(self).chain(u)
                }),
    {
        self.reconnect_at(OptionsUnderlying::Btc);
        self.reconnect_at(OptionsUnderlying::Eth);
        assert forall|u: OptionsUnderlying| #[trigger]
            self.chain(u) == (if old(self).chain(u).is_active() {
                old(self).chain(u).forced()
            } else {
                old(self).chain(u)
            }) by {
            match u {
                OptionsUnderlying::Btc => {},
                OptionsUnderlying::Eth => {},
            }
        }
    }

    /// Whether the remote series of an underlying is to be asked for.
    pub open spec fn proxy_due(self, underlying: OptionsUnderlying, now: u64, online: bool) -> bool {
        let state = self.chain(underlying);
        online && state.is_active() && state.proxy.is_due(now)
    }

    fn begin_proxy(&mut self, underlying: OptionsUnderlying, now: UnixMs, online: bool) -> (r:
        Option<OptionsUnderlying>)
        requires
            old(self).wf(),
        ensures
            final(self).differs_at(*old(self), underlying),
            r == (if old(self).proxy_due(underlying, now.ms, online) {
                Some(underlying)
            } else {
                None
            }),
            final(self).chain(underlying) == (ChainState {
                proxy: ProxyState {
                    in_flight: old(self).chain(underlying).proxy.in_flight || r is Some,
                    ..old(self).chain(underlying).proxy
                },
                ..old(self).chain(underlying)
            }),
    {
        let mut state = self.take(underlying);
        let due: bool = online && state.subscribers > 0 && state.proxy.begin(now);
        self.put(underlying, state);
        if due {
            Some(underlying)
        } else {
            None
        }
    }

    /// The remote series to ask for at `now`, which count as under way from then on.
    pub fn due_proxy_fetches(&mut self, now: UnixMs, online: bool) -> (r: Vec<OptionsUnderlying>)
        requires
            old(self).wf(),
        ensures
            final(self).same_settings(*old(self)),
            r@ == listed(
                if old(self).proxy_due(OptionsUnderlying::Btc, now.ms, online) {
                    Some(OptionsUnderlying::Btc)
                } else {
                    None
                },
                if old(self).proxy_due(OptionsUnderlying::Eth, now.ms, online) {
                    Some(OptionsUnderlying::Eth)
                } else {
                    None
                },
            ),
            forall|u: OptionsUnderlying| #[trigger]
                final(self).chain(u) == (ChainState {
                    proxy: ProxyState {
                        in_flight: old(self).chain(u).proxy.in_flight || old(self).proxy_due(
                            u,
                            now.ms,
                            online,
                        ),
                        ..old(self).chain(u).proxy
                    },
                    ..old(self).chain(u)
                }),
    {
        let btc: Option<OptionsUnderlying> = self.begin_proxy(OptionsUnderlying::Btc, now, online);
        let eth: Option<OptionsUnderlying> = self.begin_proxy(OptionsUnderlying::Eth, now, online);
        proof {
            assert forall|u: OptionsUnderlying| #[trigger]
                self.chain(u) == (ChainState {
                    proxy: ProxyState {
                        in_flight: old(self).chain(u).proxy.in_flight || old(self).proxy_due(
                            u,
                            now.ms,
                            online,
                        ),
                        ..old(self).chain(u).proxy
                    },
                    ..old(self).chain(u)
                }) by {
                match u {
                    OptionsUnderlying::Btc => {},
                    OptionsUnderlying::Eth => {},
                }
            }
        }
        list(btc, eth)
    }

    /// Takes in an answer of the remote series, and says whether the series is to be stored.
    pub fn complete_proxy(
        &mut self,
        underlying: OptionsUnderlying,
        result: Result<ProxyResponse, String>,
        now: UnixMs,
    ) -> (r: bool)
        requires
            old(self).wf(),
        ensures
            final(self).differs_at(*old(self), underlying),
            ProxyState::completed(
                old(self).chain(underlying).proxy,
                result,
                now.ms,
                final(self).chain(underlying).proxy,
            ),
            final(self).chain(underlying) == (ChainState {
                proxy: final(self).chain(underlying).proxy,
                ..old(self).chain(underlying)
            }),
            r == (old(self).persistent() && result is Ok && !(result->Ok_0.stale && old(self).chain(
                underlying,
            ).proxy.history@.len() > 0)),
    {
        let mut state = self.take(underlying);
        let changed: bool = state.proxy.complete(result, now);
        self.put(underlying, state);
        changed && self.persist_heatmap
    }

    /// The points of the remote series of the last day.
    pub fn proxy_history(&self, underlying: OptionsUnderlying, now: UnixMs) -> (r: Vec<ProxyRef>)
        requires
            self.wf(),
        ensures
            r@ == gex_proxy::points_since(
                self.chain(underlying).proxy.history@,
                gex_history::sat_sub_i64(gex_proxy::signed_ms(now.ms), PROXY_WINDOW_MS),
            ),
    {
        match self.at(underlying) {
            Some(state) => state.proxy.recent(now),
            None => Vec::new(),
        }
    }

    /// All points of the remote series that are held.
    pub fn proxy_points(&self, underlying: OptionsUnderlying) -> (r: Option<&Vec<ProxyRef>>)
        requires
            self.wf(),
        ensures
            r == Some(&self.chain(underlying).proxy.history),
    {
        match self.at(underlying) {
            Some(state) => Some(&state.proxy.history),
            None => None,
        }
    }

    pub fn proxy_freshness(&self, underlying: OptionsUnderlying, now: UnixMs) -> (r: GexFreshness)
        requires
            self.wf(),
        ensures
            r == self.chain(underlying).proxy.freshness_at(now.ms),
    {
        match self.at(underlying) {
            Some(state) => state.proxy.freshness(now),
            None => GexFreshness::Loading,
        }
    }

    pub fn proxy_error(&self, underlying: OptionsUnderlying) -> (r: Option<&String>)
        requires
            self.wf(),
        ensures
            r == (match self.chain(underlying).proxy.failure {
                Some(failure) => Some(&failure.last_error),
                None => None,
            }),
    {
        match self.at(underlying) {
            Some(state) => match &state.proxy.failure {
                Some(failure) => Some(&failure.last_error),
                None => None,
            },
            None => None,
        }
    }

    /// Whether the stored remote series is to be read now.
    pub fn begin_proxy_load(&mut self, underlying: OptionsUnderlying) -> (r: bool)
        requires
            old(self).wf(),
        ensures
            final(self).differs_at(*old(self), underlying),
            r == (old(self).persistent() && !old(self).chain(underlying).proxy.loaded),
            final(self).chain(underlying) == (ChainState {
                proxy: ProxyState {
                    loaded: old(self).chain(underlying).proxy.loaded || old(self).persistent(),
                    ..old(self).chain(underlying).proxy
                },
                ..old(self).chain(underlying)
            }),
    {
        let mut state = self.take(underlying);
        let needed: bool = state.proxy.begin_load(self.persist_heatmap);
        self.put(underlying, state);
        needed
    }

    /// Takes in the stored remote series.
    pub fn finish_proxy_load(&mut self, underlying: OptionsUnderlying, points: Vec<ProxyRef>)
        requires
            old(self).wf(),
        ensures
            final(self).differs_at(*old(self), underlying),
            final(self).chain(underlying) == (if points@.len() == 0 {
                old(self).chain(underlying)
            } else {
                ChainState {
                    proxy: ProxyState {
                        history: points,
                        stale: true,
                        ..old(self).chain(underlying).proxy
                    },
                    ..old(self).chain(underlying)
                }
            }),
    {
        let mut state = self.take(underlying);
        state.proxy.finish_load(points);
        self.put(underlying, state);
    }

    /// Whether the instruments behind the maker trades are to be asked for.
    pub open spec fn derive_instruments_due(
        self,
        underlying: OptionsUnderlying,
        now: u64,
        online: bool,
    ) -> bool {
        let state = self.chain(underlying);
        online && state.is_active() && state.derive.instruments_due(now)
    }

    fn begin_derive_instruments(
        &mut self,
        underlying: OptionsUnderlying,
        now: UnixMs,
        online: bool,
    ) -> (r: Option<OptionsUnderlying>)
        requires
            old(self).wf(),
        ensures
            final(self).differs_at(*old(self), underlying),
            r == (if old(self).derive_instruments_due(underlying, now.ms, online) {
                Some(underlying)
            } else {
                None
            }),
            final(self).chain(underlying) == (ChainState {
                derive: DeriveState {
                    instruments_in_flight: old(self).chain(underlying).derive.instruments_in_flight
                        || r is Some,
                    ..old(self).chain(underlying).derive
                },
                ..old(self).chain(underlying)
            }),
    {
        let mut state = self.take(underlying);
        let due: bool = online && state.subscribers > 0 && state.derive.begin_instruments(now);
        self.put(underlying, state);
        if due {
            Some(underlying)
        } else {
            None
        }
    }

    /// The underlyings whose instruments are to be asked for at `now`.
    pub fn due_derive_instrument_fetches(&mut self, now: UnixMs, online: bool) -> (r: Vec<
        OptionsUnderlying,
    >)
        requires
            old(self).wf(),
        ensures
            final(self).same_settings(*old(self)),
            r@ == listed(
                if old(self).derive_instruments_due(OptionsUnderlying::Btc, now.ms, online) {
                    Some(OptionsUnderlying::Btc)
                } else {
                    None
                },
                if old(self).derive_instruments_due(OptionsUnderlying::Eth, now.ms, online) {
                    Some(OptionsUnderlying::Eth)
                } else {
                    None
                },
            ),
            forall|u: OptionsUnderlying| #[trigger]
                final(self).chain(u) == (ChainState {
                    derive: DeriveState {
                        instruments_in_flight: old(self).chain(u).derive.instruments_in_flight
                            || old(self).derive_instruments_due(u, now.ms, online),
                        ..old(self).chain(u).derive
                    },
                    ..old(self).chain(u)
                }),
    {
        let btc: Option<OptionsUnderlying> = self.begin_derive_instruments(
            OptionsUnderlying::Btc,
            now,
            online,
        );
        let eth: Option<OptionsUnderlying> = self.begin_derive_instruments(
            OptionsUnderlying::Eth,
            now,
            online,
        );
        proof {
            assert forall|u: OptionsUnderlying| #[trigger]
                self.chain(u) == (ChainState {
                    derive: DeriveState {
                        instruments_in_flight: old(self).chain(u).derive.instruments_in_flight
                            || old(self).derive_instruments_due(u, now.ms, online),
                        ..old(self).chain(u).derive
                    },
                    ..old(self).chain(u)
                }) by {
                match u {
                    OptionsUnderlying::Btc => {},
                    OptionsUnderlying::Eth => {},
                }
            }
        }
        list(btc, eth)
    }

    /// The request for maker trades to make, if any.
    pub open spec fn derive_trades_due(
        self,
        underlying: OptionsUnderlying,
        now: UnixMs,
        online: bool,
    ) -> Option<DeriveTradeFetchRequest> {
        let state = self.chain(underlying);
        if online && state.is_active() && state.derive.trades_due(now.ms) {
            Some(
                DeriveTradeFetchRequest {
                    underlying,
                    from: UnixMs { ms: state.derive.fetch_start(now.ms) },
                    to: now,
                },
            )
        } else {
            None
        }
    }

    fn begin_derive_trades(
        &mut self,
        underlying: OptionsUnderlying,
        now: UnixMs,
        online: bool,
    ) -> (r: Option<DeriveTradeFetchRequest>)
        requires
            old(self).wf(),
        ensures
            final(self).differs_at(*old(self), underlying),
            r == old(self).derive_trades_due(underlying, now, online),
            final(self).chain(underlying) == (ChainState {
                derive: DeriveState {
                    trades_in_flight: old(self).chain(underlying).derive.trades_in_flight
                        || r is Some,
                    ..old(self).chain(underlying).derive
                },
                ..old(self).chain(underlying)
            }),
    {
        let mut state = self.take(underlying);
        let from: Option<UnixMs> = if online && state.subscribers > 0 {
            state.derive.begin_trades(now)
        } else {
            None
        };
        self.put(underlying, state);
        match from {
            Some(from) => Some(DeriveTradeFetchRequest { underlying, from, to: now }),
            None => None,
        }
    }

    /// The requests for maker trades to make at `now`.
    pub fn due_derive_trade_fetches(&mut self, now: UnixMs, online: bool) -> (r: Vec<
        DeriveTradeFetchRequest,
    >)
        requires
            old(self).wf(),
        ensures
            final(self).same_settings(*old(self)),
            r@ == listed(
                old(self).derive_trades_due(OptionsUnderlying::Btc, now, online),
                old(self).derive_trades_due(OptionsUnderlying::Eth, now, online),
            ),
            forall|u: OptionsUnderlying| #[trigger]
                final(self).chain(u) == (ChainState {
                    derive: DeriveState {
                        trades_in_flight: old(self).chain(u).derive.trades_in_flight || old(
                            self,
                        ).derive_trades_due(u, now, online) is Some,
                        ..old(self).chain(u).derive
                    },
                    ..old(self).chain(u)
                }),
    {
        let btc: Option<DeriveTradeFetchRequest> = self.begin_derive_trades(
            OptionsUnderlying::Btc,
            now,
            online,
        );
        let eth: Option<DeriveTradeFetchRequest> = self.begin_derive_trades(
            OptionsUnderlying::Eth,
            now,
            online,
        );
        proof {
            assert forall|u: OptionsUnderlying| #[trigger]
                self.chain(u) == (ChainState {
                    derive: DeriveState {
                        trades_in_flight: old(self).chain(u).derive.trades_in_flight || old(
                            self,
                        ).derive_trades_due(u, now, online) is Some,
                        ..old(self).chain(u).derive
                    },
                    ..old(self).chain(u)
                }) by {
                match u {
                    OptionsUnderlying::Btc => {},
                    OptionsUnderlying::Eth => {},
                }
            }
        }
        list(btc, eth)
    }

    /// The instruments behind the maker trades, where they are known.
    pub fn derive_instruments_for(&self, underlying: OptionsUnderlying) -> (r: Option<
        InstrumentList,
    >)
        requires
            self.wf(),
        ensures
            r == self.chain(underlying).derive.instruments,
    {
        match self.at(underlying) {
            Some(state) => state.derive.instruments,
            None => None,
        }
    }

    pub fn complete_derive_instruments(
        &mut self,
        completion: DeriveInstrumentsFetchResult,
        now: UnixMs,
    )
        requires
            old(self).wf(),
        ensures
            final(self).differs_at(*old(self), completion.underlying),
            DeriveState::instruments_completed(
                old(self).chain(completion.underlying).derive,
                completion.result,
                now.ms,
                final(self).chain(completion.underlying).derive,
            ),
            final(self).chain(completion.underlying) == (ChainState {
                derive: final(self).chain(completion.underlying).derive,
                ..old(self).chain(completion.underlying)
            }),
    {
        let mut state = self.take(completion.underlying);
        state.derive.complete_instruments(completion.result, now);
        self.put(completion.underlying, state);
    }

    /// Takes in maker trades, and says whether those that are held are to be stored.
    pub fn complete_derive_trades(&mut self, completion: DeriveTradesFetchResult, now: UnixMs) -> (r:
        bool)
        requires
            old(self).wf(),
        ensures
            final(self).differs_at(*old(self), completion.underlying),
            DeriveState::trades_completed(
                old(self).chain(completion.underlying).derive,
                completion.result,
                now.ms,
                final(self).chain(completion.underlying).derive,
            ),
            final(self).chain(completion.underlying) == (ChainState {
                derive: final(self).chain(completion.underlying).derive,
                ..old(self).chain(completion.underlying)
            }),
            r == (completion.result is Ok && old(self).persistent()),
    {
        let mut state = self.take(completion.underlying);
        let changed: bool = state.derive.complete_trades(completion.result, now);
        self.put(completion.underlying, state);
        changed && self.persist_heatmap
    }

    /// The market data and the maker trades that the observed maker flow is computed from,
    /// where there are both.
    pub fn derive_flow(&self, underlying: OptionsUnderlying) -> (r: Option<
        (ChainSnapshot, &Vec<MakerTradeRef>),
    >)
        requires
            self.wf(),
        ensures
            r == (match (
                self.chain(underlying).deribit.raw,
                self.chain(underlying).derive.trades,
            ) {
                (Some(raw), Some(trades)) => Some((raw.value, &trades)),
                _ => None,
            }),
    {
        match self.at(underlying) {
            Some(state) => match (&state.deribit.raw, &state.derive.trades) {
                (Some(raw), Some(trades)) => Some((raw.value, trades)),
                _ => None,
            },
            None => None,
        }
    }

    /// The maker trades that are held, whether or not there is market data.
    pub fn derive_trades(&self, underlying: OptionsUnderlying) -> (r: Option<&Vec<MakerTradeRef>>)
        requires
            self.wf(),
        ensures
            r == (match self.chain(underlying).derive.trades {
                Some(trades) => Some(&trades),
                None => None,
            }),
    {
        match self.at(underlying) {
            Some(state) => match &state.derive.trades {
                Some(trades) => Some(trades),
                None => None,
            },
            None => None,
        }
    }

    pub fn derive_freshness(&self, underlying: OptionsUnderlying, now: UnixMs) -> (r: GexFreshness)
        requires
            self.wf(),
        ensures
            r == self.chain(underlying).derive.freshness_at(now.ms),
    {
        match self.at(underlying) {
            Some(state) => state.derive.freshness(now),
            None => GexFreshness::Loading,
        }
    }

    /// Whether the stored maker trades are to be read now.
    pub fn begin_derive_load(&mut self, underlying: OptionsUnderlying) -> (r: bool)
        requires
            old(self).wf(),
        ensures
            final(self).differs_at(*old(self), underlying),
            r == (old(self).persistent() && !old(self).chain(underlying).derive.loaded),
            final(self).chain(underlying) == (ChainState {
                derive: DeriveState {
                    loaded: old(self).chain(underlying).derive.loaded || old(self).persistent(),
                    ..old(self).chain(underlying).derive
                },
                ..old(self).chain(underlying)
            }),
    {
        let mut state = self.take(underlying);
        let needed: bool = state.derive.begin_load(self.persist_heatmap);
        self.put(underlying, state);
        needed
    }

    /// Takes in the stored maker trades.
    pub fn finish_derive_load(&mut self, underlying: OptionsUnderlying, trades: Vec<MakerTradeRef>)
        requires
            old(self).wf(),
        ensures
            final(self).differs_at(*old(self), underlying),
            final(self).chain(underlying) == (if trades@.len() == 0 {
                old(self).chain(underlying)
            } else {
                ChainState {
                    derive: DeriveState {
                        trades: Some(trades),
                        watermark: Some(trades@.last().timestamp),
                        stale: true,
                        ..old(self).chain(underlying).derive
                    },
                    ..old(self).chain(underlying)
                }
            }),
    {
        let mut state = self.take(underlying);
        state.derive.finish_load(trades);
        self.put(underlying, state);
    }

    /// The request for the chain of an underlying to make, if any.
    pub open spec fn chain_due(self, underlying: OptionsUnderlying, now: u64, online: bool) -> Option<
        GexFetchKind,
    > {
        let state = self.chain(underlying);
        let key = OptionsChainKey { provider: OptionsProvider::Deribit, underlying };
        if online && state.is_active() {
            match state.deribit.due(now) {
                Some(ChainRequest::Instruments) => Some(GexFetchKind::Instruments(key)),
                Some(ChainRequest::Snapshot) => Some(GexFetchKind::Snapshot(key)),
                None => None,
            }
        } else {
            None
        }
    }

    /// The state of a chain once the request `kind` is under way.
    pub open spec fn begun(before: ChainState, kind: Option<GexFetchKind>) -> ChainState {
        ChainState {
            deribit: DeribitState {
                instruments_in_flight: before.deribit.instruments_in_flight
                    || kind matches Some(GexFetchKind::Instruments(_)),
                snapshot_in_flight: before.deribit.snapshot_in_flight
                    || kind matches Some(GexFetchKind::Snapshot(_)),
                ..before.deribit
            },
            ..before
        }
    }

    fn begin_chain(&mut self, underlying: OptionsUnderlying, now: UnixMs, online: bool) -> (r:
        Option<GexFetchKind>)
        requires
            old(self).wf(),
        ensures
            final(self).differs_at(*old(self), underlying),
            r == old(self).chain_due(underlying, now.ms, online),
            final(self).chain(underlying) == Self::begun(old(self).chain(underlying), r),
    {
        let mut state = self.take(underlying);
        let request: Option<ChainRequest> = if online && state.subscribers > 0 {
            state.deribit.begin(now)
        } else {
            None
        };
        self.put(underlying, state);
        let key = OptionsChainKey::deribit(underlying);
        match request {
            Some(ChainRequest::Instruments) => Some(GexFetchKind::Instruments(key)),
            Some(ChainRequest::Snapshot) => Some(GexFetchKind::Snapshot(key)),
            None => None,
        }
    }

    /// The requests for chains to make at `now`, which count as under way from then on.
    pub fn due_fetches(&mut self, now: UnixMs, online: bool) -> (r: Vec<GexFetchKind>)
        requires
            old(self).wf(),
        ensures
            final(self).same_settings(*old(self)),
            r@ == listed(
                old(self).chain_due(OptionsUnderlying::Btc, now.ms, online),
                old(self).chain_due(OptionsUnderlying::Eth, now.ms, online),
            ),
            forall|u: OptionsUnderlying| #[trigger]
                final(self).chain(u) == Self::begun(
                    old(self).chain(u),
                    old(self).chain_due(u, now.ms, online),
                ),
    {
        let btc: Option<GexFetchKind> = self.begin_chain(OptionsUnderlying::Btc, now, online);
        let eth: Option<GexFetchKind> = self.begin_chain(OptionsUnderlying::Eth, now, online);
        proof {
            assert forall|u: OptionsUnderlying| #[trigger]
                self.chain(u) == Self::begun(
                    old(self).chain(u),
                    old(self).chain_due(u, now.ms, online),
                ) by {
                match u {
                    OptionsUnderlying::Btc => {},
                    OptionsUnderlying::Eth => {},
                }
            }
        }
        list(btc, eth)
    }

    /// The instruments of a chain, where they are known.
    pub fn instruments_for(&self, key: OptionsChainKey) -> (r: Option<InstrumentList>)
        requires
            self.wf(),
        ensures
            r == (match self.chain(key.underlying).deribit.instruments {
                Some(cached) => Some(cached.values),
                None => None,
            }),
    {
        match self.at(key.underlying) {
            Some(state) => match &state.deribit.instruments {
                Some(cached) => Some(cached.values),
                None => None,
            },
            None => None,
        }
    }

    /// Takes in the answer to a request for a chain, and says whether the market data is
    /// new and to be stored. New data gets the next revision.
    pub fn complete(&mut self, completion: GexFetchResult, now: UnixMs) -> (r: bool)
        requires
            old(self).wf(),
        ensures
            final(self).wf(),
            final(self).persistent() == old(self).persistent(),
            match completion {
                GexFetchResult::Instruments { key, result } => {
                    &&& !r
                    &&& final(self).differs_at(*old(self), key.underlying)
                    &&& DeribitState::instruments_completed(
                        old(self).chain(key.underlying).deribit,
                        result,
                        now.ms,
                        final(self).chain(key.underlying).deribit,
                    )
                    &&& final(self).chain(key.underlying) == (ChainState {
                        deribit: final(self).chain(key.underlying).deribit,
                        ..old(self).chain(key.underlying)
                    })
                },
                GexFetchResult::Snapshot { key, result } => {
                    &&& r == (result is Ok && result->Ok_0.contracts > 0)
                    &&& final(self).revision() == (if r {
                        units::sat_add(old(self).revision(), 1)
                    } else {
                        old(self).revision()
                    })
                    &&& forall|other: OptionsUnderlying|
                        other != key.underlying ==> #[trigger] final(self).chain(other) == old(
                            self,
                        ).chain(other)
                    &&& DeribitState::snapshot_completed(
                        old(self).chain(key.underlying).deribit,
                        result,
                        now.ms,
                        old(self).revision(),
                        final(self).chain(key.underlying).deribit,
                    )
                    &&& final(self).chain(key.underlying) == (ChainState {
                        deribit: final(self).chain(key.underlying).deribit,
                        ..old(self).chain(key.underlying)
                    })
                },
            },
    {
        match completion {
            GexFetchResult::Instruments { key, result } => {
                let mut state = self.take(key.underlying);
                state.deribit.complete_instruments(result, now);
                self.put(key.underlying, state);
                false
            },
            GexFetchResult::Snapshot { key, result } => {
                let mut state = self.take(key.underlying);
                let new_data: bool = state.deribit.complete_snapshot(
                    result,
                    now,
                    self.next_revision,
                );
                if new_data {
                    self.next_revision = self.next_revision.saturating_add(1);
                }
                self.put(key.underlying, state);
                new_data
            },
        }
    }

    /// The derived snapshot of a series, or what it is to be computed from.
    pub fn derived(&self, key: &DerivedGexSeriesKey) -> (r: DerivedLookup)
        requires
            self.wf(),
        ensures
            r == self.chain(key.chain.underlying).deribit.lookup(key@),
    {
        match self.at(key.chain.underlying) {
            Some(state) => state.deribit.find_derived(key),
            None => DerivedLookup::NoData,
        }
    }

    /// Takes in a snapshot that was computed from `revision`, remembers it and appends it to
    /// the history of its series. Says whether the history took it and it is to be stored.
    pub fn finish_derived(
        &mut self,
        key: &DerivedGexSeriesKey,
        revision: u64,
        observed_at: UnixMs,
        slot: usize,
        now: UnixMs,
    ) -> (r: bool)
        requires
            old(self).wf(),
        ensures
            final(self).differs_at(*old(self), key.chain.underlying),
            ({
                let before = old(self).chain(key.chain.underlying);
                let after = final(self).chain(key.chain.underlying);
                let entry = HistoryEntry { revision, observed_at, slot };
                &&& after == ChainState {
                    deribit: DeribitState {
                        derived: after.deribit.derived,
                        histories: after.deribit.histories,
                        ..before.deribit
                    },
                    ..before
                }
                &&& forall|k: SeriesModel, n: u64| #[trigger]
                    gex_deribit::derived_slot(after.deribit.derived@, k, n) == (if k == key@ && n
                        == revision {
                        Some(slot)
                    } else {
                        gex_deribit::derived_slot(before.deribit.derived@, k, n)
                    })
                &&& after.deribit.histories.entries_of(key@) == gex_series::appended(
                    before.deribit.histories.entries_of(key@),
                    entry,
                    now.ms,
                )
                &&& forall|k: SeriesModel|
                    k != key@ ==> #[trigger] after.deribit.histories.entries_of(k)
                        == before.deribit.histories.entries_of(k)
                &&& forall|k: SeriesModel| #[trigger]
                    after.deribit.histories.is_loaded(k) == before.deribit.histories.is_loaded(k)
                &&& r == (old(self).persistent() && !gex_series::repeats(
                    before.deribit.histories.entries_of(key@),
                    entry,
                ))
            }),
    {
        let mut state = self.take(key.chain.underlying);
        state.deribit.remember_derived(key, revision, slot);
        let new_entry: bool = state.deribit.histories.append_history(
            key,
            revision,
            observed_at,
            slot,
            now,
        );
        self.put(key.chain.underlying, state);
        new_entry && self.persist_heatmap
    }

    /// The history of a series, as far back as asked for.
    pub fn history(&self, key: &DerivedGexSeriesKey, retention_minutes: u16, now: UnixMs) -> (r:
        Vec<HistoryEntry>)
        requires
            self.wf(),
        ensures
            r@ == gex_series::entries_since(
                self.chain(key.chain.underlying).deribit.histories.entries_of(key@),
                units::sat_sub(now.ms, gex_series::shown_ms(retention_minutes)),
            ),
    {
        match self.at(key.chain.underlying) {
            Some(state) => state.deribit.histories.history(key, retention_minutes, now),
            None => Vec::new(),
        }
    }

    /// Whether the stored history of a series is to be read now.
    pub fn begin_history_load(&mut self, key: &DerivedGexSeriesKey, available: bool) -> (r: bool)
        requires
            old(self).wf(),
        ensures
            final(self).differs_at(*old(self), key.chain.underlying),
            ({
                let before = old(self).chain(key.chain.underlying);
                let after = final(self).chain(key.chain.underlying);
                &&& after == ChainState {
                    deribit: DeribitState {
                        histories: after.deribit.histories,
                        ..before.deribit
                    },
                    ..before
                }
                &&& r == (!before.deribit.histories.is_loaded(key@) && old(self).persistent()
                    && available)
                &&& forall|k: SeriesModel| #[trigger]
                    after.deribit.histories.is_loaded(k) == (before.deribit.histories.is_loaded(k)
                        || (r && k == key@))
                &&& forall|k: SeriesModel| #[trigger]
                    after.deribit.histories.entries_of(k)
                        == before.deribit.histories.entries_of(k)
            }),
    {
        let mut state = self.take(key.chain.underlying);
        let needed: bool = state.deribit.histories.begin_load(
            key,
            self.persist_heatmap,
            available,
        );
        self.put(key.chain.underlying, state);
        needed
    }

    /// Takes in the stored history of a series: what is stored under its key, then what is
    /// stored under its older key.
    pub fn ensure_history_loaded(
        &mut self,
        key: &DerivedGexSeriesKey,
        report: Vec<SnapshotRef>,
        legacy: Vec<SnapshotRef>,
    )
        requires
            old(self).wf(),
        ensures
            final(self).differs_at(*old(self), key.chain.underlying),
            ({
                let before = old(self).chain(key.chain.underlying);
                let after = final(self).chain(key.chain.underlying);
                &&& after == ChainState {
                    deribit: DeribitState {
                        histories: after.deribit.histories,
                        ..before.deribit
                    },
                    ..before
                }
                &&& exists|stored: Seq<SnapshotRef>| #[trigger]
                    records::oldest_per_moment(report@ + legacy@, stored)
                        && after.deribit.histories.entries_of(key@)
                        == before.deribit.histories.entries_of(key@) + gex_series::stored_entries(
                        stored,
                    )
                &&& forall|k: SeriesModel|
                    k != key@ ==> #[trigger] after.deribit.histories.entries_of(k)
                        == before.deribit.histories.entries_of(k)
                &&& forall|k: SeriesModel| #[trigger]
                    after.deribit.histories.is_loaded(k) == before.deribit.histories.is_loaded(k)
            }),
    {
        let ghost first = report@;
        let ghost second = legacy@;
        let mut snapshots = report;
        let mut legacy = legacy;
        snapshots.append(&mut legacy);
        assert(snapshots@ =~= first + second);
        let mut state = self.take(key.chain.underlying);
        state.deribit.histories.finish_load(key, snapshots);
        self.put(key.chain.underlying, state);
    }

    pub fn freshness(&mut self, underlying: OptionsUnderlying, now: UnixMs) -> (r: GexFreshness)
        requires
            old(self).wf(),
        ensures
            final(self).differs_at(*old(self), underlying),
            r == old(self).chain(underlying).deribit.freshness_at(now.ms),
            final(self).chain(underlying) == (ChainState {
                deribit: DeribitState {
                    last_freshness: Some(r),
                    ..old(self).chain(underlying).deribit
                },
                ..old(self).chain(underlying)
            }),
    {
        let mut state = self.take(underlying);
        let r: GexFreshness = state.deribit.freshness(now);
        self.put(underlying, state);
        r
    }

    pub fn last_error(&self, underlying: OptionsUnderlying) -> (r: Option<&String>)
        requires
            self.wf(),
        ensures
            r == (match self.chain(underlying).deribit.failure {
                Some(failure) => Some(&failure.last_error),
                None => None,
            }),
    {
        match self.at(underlying) {
            Some(state) => match &state.deribit.failure {
                Some(failure) => Some(&failure.last_error),
                None => None,
            },
            None => None,
        }
    }

    fn invalidate_at(&mut self, underlying: OptionsUnderlying)
        requires
            old(self).wf(),
        ensures
            final(self).differs_at(*old(self), underlying),
            Self::invalidated(old(self).chain(underlying), final(self).chain(underlying)),
    {
        let mut state = self.take(underlying);
        state.deribit.invalidate();
        self.put(underlying, state);
    }

    /// The market data, what was derived from it and the histories are gone, and nothing
    /// else has changed.
    pub open spec fn invalidated(before: ChainState, after: ChainState) -> bool {
        &&& after.deribit.raw is None
        &&& after.deribit.derived@.len() == 0
        &&& after.deribit.histories.list@.len() == 0
        &&& after == ChainState {
            deribit: DeribitState {
                raw: after.deribit.raw,
                derived: after.deribit.derived,
                histories: after.deribit.histories,
                ..before.deribit
            },
            ..before
        }
    }

    /// Forgets all market data and everything derived from it.
    pub fn invalidate_persistent(&mut self)
        requires
            old(self).wf(),
        ensures
            final(self).same_settings(*old(self)),
            forall|u: OptionsUnderlying|
                Self::invalidated(old(self).chain(u), #[trigger] final(self).chain(u)),
    {
        self.invalidate_at(OptionsUnderlying::Btc);
        self.invalidate_at(OptionsUnderlying::Eth);
        assert forall|u: OptionsUnderlying|
            Self::invalidated(old(self).chain(u), #[trigger] self.chain(u)) by {
            match u {
                OptionsUnderlying::Btc => {},
                OptionsUnderlying::Eth => {},
            }
        }
    }

    pub open spec fn raw_of(self, underlying: OptionsUnderlying) -> Option<ChainSnapshot> {
        match self.chain(underlying).deribit.raw {
            Some(raw) => Some(raw.value),
            None => None,
        }
    }

    fn raw_at(&self, underlying: OptionsUnderlying) -> (r: Option<ChainSnapshot>)
        requires
            self.wf(),
        ensures
            r == self.raw_of(underlying),
    {
        match self.at(underlying) {
            Some(state) => match &state.deribit.raw {
                Some(raw) => Some(raw.value),
                None => None,
            },
            None => None,
        }
    }

    /// The market data to store.
    pub fn snapshots_to_save(&self) -> (r: Vec<ChainSnapshot>)
        requires
            self.wf(),
        ensures
            r@ == listed(
                self.raw_of(OptionsUnderlying::Btc),
                self.raw_of(OptionsUnderlying::Eth),
            ),
    {
        list(self.raw_at(OptionsUnderlying::Btc), self.raw_at(OptionsUnderlying::Eth))
    }
}

/// What the remote series or the maker trades answer changes neither the freshness of the
/// option chain nor its last error.
pub proof fn side_sources_leave_the_chain_alone(
    before: ChainState,
    after: ChainState,
    proxy: ProxyState,
    derive: DeriveState,
    now: u64,
)
    requires
        after == (ChainState { proxy, derive, ..before }),
    ensures
        after.deribit.freshness_at(now) == before.deribit.freshness_at(now),
        after.deribit.failure == before.deribit.failure,
{
}

/// Offline nothing is requested.
pub proof fn offline_stops_polling(
    coordinator: GexDataCoordinator,
    underlying: OptionsUnderlying,
    now: UnixMs,
)
    ensures
        coordinator.chain_due(underlying, now.ms, false) is None,
        !coordinator.proxy_due(underlying, now.ms, false),
        !coordinator.derive_instruments_due(underlying, now.ms, false),
        coordinator.derive_trades_due(underlying, now, false) is None,
{
}

/// Nothing is requested for an underlying that nobody asks for.
pub proof fn unused_underlyings_are_not_requested(
    coordinator: GexDataCoordinator,
    underlying: OptionsUnderlying,
    now: UnixMs,
    online: bool,
)
    requires
        !coordinator.chain(underlying).is_active(),
    ensures
        coordinator.chain_due(underlying, now.ms, online) is None,
        !coordinator.proxy_due(underlying, now.ms, online),
        !coordinator.derive_instruments_due(underlying, now.ms, online),
        coordinator.derive_trades_due(underlying, now, online) is None,
{
}

/// Asking again at once for what is due gives nothing: every request is under way.
pub proof fn due_requests_are_made_once(
    before: GexDataCoordinator,
    after: GexDataCoordinator,
    underlying: OptionsUnderlying,
    now: u64,
)
    requires
        after.chain(underlying) == GexDataCoordinator::begun(
            before.chain(underlying),
            before.chain_due(underlying, now, true),
        ),
    ensures
        after.chain_due(underlying, now, true) is None,
{
}

/// Reconnecting has the market data or the instruments of an active chain requested at
/// once, unless a failure asks for patience or the request is under way; the remote series
/// and the maker instruments even in spite of a failure.
pub proof fn reconnect_forces_requests(before: ChainState, now: u64)
    requires
        before.is_active(),
    ensures
        !before.deribit.instruments_in_flight && !before.deribit.snapshot_in_flight
            && !crate::connector::failure::is_waiting(before.deribit.failure, now)
            ==> before.forced().deribit.due(now) is Some,
        !before.proxy.in_flight ==> before.forced().proxy.is_due(now),
        !before.derive.instruments_in_flight ==> before.forced().derive.instruments_due(now),
{
}

} // verus!
