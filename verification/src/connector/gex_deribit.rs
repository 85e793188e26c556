//! The option chain of one underlying: when its instruments and its market data are asked
//! for, what is kept of the answers, which snapshots are derived from it, and how fresh
//! it is.
use vstd::prelude::*;
use crate::connector::failure;
use crate::connector::failure::{expired, record_failure, waits, FailureState};
use crate::connector::gex_derive::InstrumentList;
use crate::connector::gex_keys::{DerivedGexSeriesKey, SeriesModel};
use crate::connector::gex_proxy::GexFreshness;
use crate::connector::gex_series::Histories;
use crate::units;
use crate::units::UnixMs;

verus! {

pub const INSTRUMENT_TTL_MS: u64 = 600_000;

pub const MARKET_SNAPSHOT_TTL_MS: u64 = 15_000;

pub const FRESH_THRESHOLD_MS: u64 = 45_000;

pub const EXPIRED_THRESHOLD_MS: u64 = 300_000;

/// The market data of a chain: how many contracts it has, when it was observed, and where
/// it is kept.
#[derive(Clone, Copy, Debug, PartialEq, Eq, Structural)]
pub struct ChainSnapshot {
    pub contracts: usize,
    pub observed_at: UnixMs,
    pub slot: usize,
}

#[derive(Clone, Copy, Debug, PartialEq, Eq, Structural)]
pub struct CachedInstruments {
    pub values: InstrumentList,
    pub refreshed_at: UnixMs,
}

#[derive(Clone, Copy, Debug, PartialEq, Eq, Structural)]
pub struct CachedRawSnapshot {
    pub value: ChainSnapshot,
    pub received_at: UnixMs,
    pub revision: u64,
    pub loaded_from_disk: bool,
}

/// A snapshot that was derived from one revision of the raw data with one set of settings.
#[derive(Debug)]
pub struct CachedGexSnapshot {
    pub key: DerivedGexSeriesKey,
    pub revision: u64,
    pub slot: usize,
}

/// Which of its two requests a chain needs.
#[derive(Clone, Copy, Debug, PartialEq, Eq, Structural)]
pub enum ChainRequest {
    Instruments,
    Snapshot,
}

/// What is to be done for a derived snapshot.
#[derive(Clone, Copy, Debug, PartialEq, Eq, Structural)]
pub enum DerivedLookup {
    /// There is no market data to derive it from.
    NoData,
    /// It is kept in this slot.
    Cached(usize),
    /// It is to be computed from the market data.
    Compute(CachedRawSnapshot),
}

/// What is known of the option chain.
#[derive(Debug)]
pub struct DeribitState {
    pub instruments: Option<CachedInstruments>,
    pub raw: Option<CachedRawSnapshot>,
    pub derived: Vec<CachedGexSnapshot>,
    pub histories: Histories,
    pub instruments_in_flight: bool,
    pub snapshot_in_flight: bool,
    pub failure: Option<FailureState>,
    pub force_refresh: bool,
    pub last_freshness: Option<GexFreshness>,
}

/// The slot of the snapshot derived from a revision with the given settings.
pub open spec fn derived_slot(
    list: Seq<CachedGexSnapshot>,
    key: SeriesModel,
    revision: u64,
) -> Option<usize>
    decreases list.len(),
{
    if list.len() == 0 {
        None
    } else if list.last().key@ == key && list.last().revision == revision {
        Some(list.last().slot)
    } else {
        derived_slot(list.drop_last(), key, revision)
    }
}

impl DeribitState {
    /// Nothing is known yet.
    pub open spec fn untouched(self) -> bool {
        &&& self.instruments is None
        &&& self.raw is None
        &&& self.derived@.len() == 0
        &&& self.histories.list@.len() == 0
        &&& !self.instruments_in_flight
        &&& !self.snapshot_in_flight
        &&& self.failure is None
        &&& !self.force_refresh
        &&& self.last_freshness is None
    }

    pub fn new() -> (r: Self)
        ensures
            r.untouched(),
    {
        DeribitState {
            instruments: None,
            raw: None,
            derived: Vec::new(),
            histories: Histories::new(),
            instruments_in_flight: false,
            snapshot_in_flight: false,
            failure: None,
            force_refresh: false,
            last_freshness: None,
        }
    }

    pub open spec fn instruments_refreshed(self) -> Option<UnixMs> {
        match self.instruments {
            Some(cached) => Some(cached.refreshed_at),
            None => None,
        }
    }

    pub open spec fn raw_received(self) -> Option<UnixMs> {
        match self.raw {
            Some(cached) => Some(cached.received_at),
            None => None,
        }
    }

    /// What the chain needs at `now`, whether or not it is under way.
    pub open spec fn needed(self, now: u64) -> Option<ChainRequest> {
        if failure::is_waiting(self.failure, now) {
            None
        } else if failure::is_expired(self.instruments_refreshed(), now, INSTRUMENT_TTL_MS) {
            Some(ChainRequest::Instruments)
        } else if self.force_refresh || failure::is_expired(
            self.raw_received(),
            now,
            MARKET_SNAPSHOT_TTL_MS,
        ) {
            Some(ChainRequest::Snapshot)
        } else {
            None
        }
    }

    /// The request to make at `now`: the needed one, unless it is under way.
    pub open spec fn due(self, now: u64) -> Option<ChainRequest> {
        match self.needed(now) {
            Some(ChainRequest::Instruments) => if self.instruments_in_flight {
                None
            } else {
                Some(ChainRequest::Instruments)
            },
            Some(ChainRequest::Snapshot) => if self.snapshot_in_flight {
                None
            } else {
                Some(ChainRequest::Snapshot)
            },
            None => None,
        }
    }

    pub fn begin(&mut self, now: UnixMs) -> (r: Option<ChainRequest>)
        ensures
            r == old(self).due(now.ms),
            *final(self) == (DeribitState {
                instruments_in_flight: old(self).instruments_in_flight || r == Some(
                    ChainRequest::Instruments,
                ),
                snapshot_in_flight: old(self).snapshot_in_flight || r == Some(
                    ChainRequest::Snapshot,
                ),
                ..*old(self)
            }),
    {
        if waits(&self.failure, now) {
            return None;
        }
        let refreshed: Option<UnixMs> = match &self.instruments {
            Some(cached) => Some(cached.refreshed_at),
            None => None,
        };
        let received: Option<UnixMs> = match &self.raw {
            Some(cached) => Some(cached.received_at),
            None => None,
        };
        if expired(refreshed, now, INSTRUMENT_TTL_MS) {
            if self.instruments_in_flight {
                None
            } else {
                self.instruments_in_flight = true;
                Some(ChainRequest::Instruments)
            }
        } else if self.force_refresh || expired(received, now, MARKET_SNAPSHOT_TTL_MS) {
            if self.snapshot_in_flight {
                None
            } else {
                self.snapshot_in_flight = true;
                Some(ChainRequest::Snapshot)
            }
        } else {
            None
        }
    }

    /// What a finished request for instruments leaves behind. An empty list is a failure;
    /// a new list has the market data asked for at once.
    pub open spec fn instruments_completed(
        before: Self,
        result: Result<InstrumentList, String>,
        now: u64,
        after: Self,
    ) -> bool {
        &&& match result {
            Ok(values) => if values.count > 0 {
                &&& after.instruments == Some(
                    CachedInstruments { values, refreshed_at: UnixMs { ms: now } },
                )
                &&& after.failure is None
                &&& after.force_refresh
            } else {
                &&& failure::failed_again(
                    before.failure,
                    after.failure,
                    "empty instrument metadata"@,
                    now,
                )
                &&& after.instruments == before.instruments
                &&& after.force_refresh == before.force_refresh
            },
            Err(error) => {
                &&& failure::failed_again(before.failure, after.failure, error@, now)
                &&& after.instruments == before.instruments
                &&& after.force_refresh == before.force_refresh
            },
        }
        &&& after == DeribitState {
            instruments: after.instruments,
            failure: after.failure,
            force_refresh: after.force_refresh,
            instruments_in_flight: false,
            ..before
        }
    }

    pub fn complete_instruments(&mut self, result: Result<InstrumentList, String>, now: UnixMs)
        ensures
            Self::instruments_completed(*old(self), result, now.ms, *final(self)),
    {
        self.instruments_in_flight = false;
        match result {
            Ok(values) => {
                if values.count > 0 {
                    self.instruments = Some(CachedInstruments { values, refreshed_at: now });
                    self.failure = None;
                    self.force_refresh = true;
                } else {
                    self.failure = record_failure(
                        &self.failure,
                        "empty instrument metadata".to_owned(),
                        now,
                    );
                }
            },
            Err(error) => {
                self.failure = record_failure(&self.failure, error, now);
            },
        }
    }

    /// What a finished request for market data leaves behind. An empty chain is a failure;
    /// a failure keeps the last valid data. New data discards what was derived from older
    /// data.
    pub open spec fn snapshot_completed(
        before: Self,
        result: Result<ChainSnapshot, String>,
        now: u64,
        revision: u64,
        after: Self,
    ) -> bool {
        &&& match result {
            Ok(value) => if value.contracts > 0 {
                &&& after.raw == Some(
                    CachedRawSnapshot {
                        value,
                        received_at: UnixMs { ms: now },
                        revision,
                        loaded_from_disk: false,
                    },
                )
                &&& after.derived@.len() == 0
                &&& after.failure is None
            } else {
                &&& failure::failed_again(
                    before.failure,
                    after.failure,
                    "empty option chain"@,
                    now,
                )
                &&& after.raw == before.raw
                &&& after.derived == before.derived
            },
            Err(error) => {
                &&& failure::failed_again(before.failure, after.failure, error@, now)
                &&& after.raw == before.raw
                &&& after.derived == before.derived
            },
        }
        &&& after == DeribitState {
            raw: after.raw,
            derived: after.derived,
            failure: after.failure,
            snapshot_in_flight: false,
            force_refresh: false,
            ..before
        }
    }

    /// Takes in the answer to a request for market data, and says whether the data is new.
    pub fn complete_snapshot(
        &mut self,
        result: Result<ChainSnapshot, String>,
        now: UnixMs,
        revision: u64,
    ) -> (r: bool)
        ensures
            Self::snapshot_completed(*old(self), result, now.ms, revision, *final(self)),
            r == (result is Ok && result->Ok_0.contracts > 0),
    {
        self.snapshot_in_flight = false;
        self.force_refresh = false;
        match result {
            Ok(value) => {
                if value.contracts > 0 {
                    self.raw = Some(
                        CachedRawSnapshot {
                            value,
                            received_at: now,
                            revision,
                            loaded_from_disk: false,
                        },
                    );
                    self.derived = Vec::new();
                    self.failure = None;
                    true
                } else {
                    self.failure = record_failure(
                        &self.failure,
                        "empty option chain".to_owned(),
                        now,
                    );
                    false
                }
            },
            Err(error) => {
                self.failure = record_failure(&self.failure, error, now);
                false
            },
        }
    }

    /// Takes in market data that was stored earlier. An empty chain is passed over.
    pub fn load_snapshot(&mut self, value: ChainSnapshot, revision: u64) -> (r: bool)
        ensures
            r == (value.contracts > 0),
            *final(self) == (DeribitState {
                raw: if r {
                    Some(
                        CachedRawSnapshot {
                            value,
                            received_at: value.observed_at,
                            revision,
                            loaded_from_disk: true,
                        },
                    )
                } else {
                    old(self).raw
                },
                ..*old(self)
            }),
    {
        if value.contracts > 0 {
            self.raw = Some(
                CachedRawSnapshot {
                    value,
                    received_at: value.observed_at,
                    revision,
                    loaded_from_disk: true,
                },
            );
            true
        } else {
            false
        }
    }

    /// Whether a derived snapshot is there, or what it is to be computed from.
    pub open spec fn lookup(self, key: SeriesModel) -> DerivedLookup {
        match self.raw {
            Some(raw) => match derived_slot(self.derived@, key, raw.revision) {
                Some(slot) => DerivedLookup::Cached(slot),
                None => DerivedLookup::Compute(raw),
            },
            None => DerivedLookup::NoData,
        }
    }

    pub fn find_derived(&self, key: &DerivedGexSeriesKey) -> (r: DerivedLookup)
        ensures
            r == self.lookup(key@),
    {
        match &self.raw {
            Some(raw) => {
                let mut rest: usize = self.derived.len();
                assert(self.derived@.take(rest as int) =~= self.derived@);
                while rest > 0
                    invariant
                        rest <= self.derived@.len(),
                        derived_slot(self.derived@, key@, raw.revision) == derived_slot(
                            self.derived@.take(rest as int),
                            key@,
                            raw.revision,
                        ),
                        self.raw == Some(*raw),
                    decreases rest,
                {
                    let ghost tail = self.derived@.take(rest as int);
                    assert(tail.last() == self.derived@[rest - 1]);
                    assert(tail.drop_last() =~= self.derived@.take(rest - 1));
                    let cached = &self.derived[rest - 1];
                    if cached.revision == raw.revision && cached.key.same(key) {
                        return DerivedLookup::Cached(cached.slot);
                    }
                    rest = rest - 1;
                }
                DerivedLookup::Compute(*raw)
            },
            None => DerivedLookup::NoData,
        }
    }

    /// Remembers a snapshot that was computed from the given revision.
    pub fn remember_derived(&mut self, key: &DerivedGexSeriesKey, revision: u64, slot: usize)
        ensures
            *final(self) == (DeribitState { derived: final(self).derived, ..*old(self) }),
            forall|k: SeriesModel, r: u64| #[trigger]
                derived_slot(final(self).derived@, k, r) == (if k == key@ && r == revision {
                    Some(slot)
                } else {
                    derived_slot(old(self).derived@, k, r)
                }),
    {
        let ghost before = self.derived@;
        self.derived.push(CachedGexSnapshot { key: key.duplicate(), revision, slot });
        assert(self.derived@.drop_last() =~= before);
    }

    pub open spec fn freshness_at(self, now: u64) -> GexFreshness {
        if self.failure is Some {
            GexFreshness::Error
        } else {
            match self.raw {
                Some(raw) => {
                    let age = units::sat_sub(now, raw.received_at.ms);
                    if raw.loaded_from_disk {
                        GexFreshness::Stale
                    } else if age <= FRESH_THRESHOLD_MS {
                        GexFreshness::Fresh
                    } else if age <= EXPIRED_THRESHOLD_MS {
                        GexFreshness::Stale
                    } else {
                        GexFreshness::Expired
                    }
                },
                None => GexFreshness::Loading,
            }
        }
    }

    pub fn freshness(&mut self, now: UnixMs) -> (r: GexFreshness)
        ensures
            r == old(self).freshness_at(now.ms),
            *final(self) == (DeribitState { last_freshness: Some(r), ..*old(self) }),
    {
        let r: GexFreshness = if self.failure.is_some() {
            GexFreshness::Error
        } else if let Some(raw) = self.raw {
            if raw.loaded_from_disk {
                GexFreshness::Stale
            } else {
                let age: u64 = now.saturating_diff(raw.received_at);
                if age <= FRESH_THRESHOLD_MS {
                    GexFreshness::Fresh
                } else if age <= EXPIRED_THRESHOLD_MS {
                    GexFreshness::Stale
                } else {
                    GexFreshness::Expired
                }
            }
        } else {
            GexFreshness::Loading
        };
        self.last_freshness = Some(r);
        r
    }

    /// Forgets the market data and everything derived from it.
    pub fn invalidate(&mut self)
        ensures
            final(self).raw is None,
            final(self).derived@.len() == 0,
            final(self).histories.list@.len() == 0,
            *final(self) == (DeribitState {
                raw: final(self).raw,
                derived: final(self).derived,
                histories: final(self).histories,
                ..*old(self)
            }),
    {
        self.raw = None;
        self.derived = Vec::new();
        self.histories = Histories::new();
    }
}

/// A request is not made a second time while it is under way.
pub proof fn chain_requests_do_not_overlap(state: DeribitState, later: u64)
    ensures
        (DeribitState { instruments_in_flight: true, ..state }).due(later) != Some(
            ChainRequest::Instruments,
        ),
        (DeribitState { snapshot_in_flight: true, ..state }).due(later) != Some(
            ChainRequest::Snapshot,
        ),
{
}

/// After a failure no request is made before the pause is over.
pub proof fn failure_pauses_requests(
    before: DeribitState,
    error: String,
    now: u64,
    revision: u64,
    after: DeribitState,
    later: u64,
)
    requires
        DeribitState::snapshot_completed(before, Err(error), now, revision, after),
        later < failure::retry_after(before.failure, now),
    ensures
        after.due(later) is None,
        after.raw == before.raw,
{
}

/// New market data has every derived snapshot computed anew.
pub proof fn new_data_discards_derived_snapshots(
    before: DeribitState,
    value: ChainSnapshot,
    now: u64,
    revision: u64,
    after: DeribitState,
    key: SeriesModel,
)
    requires
        DeribitState::snapshot_completed(before, Ok(value), now, revision, after),
        value.contracts > 0,
    ensures
        after.lookup(key) == DerivedLookup::Compute(after.raw->0),
        after.raw->0.value == value,
{
}

} // verus!
