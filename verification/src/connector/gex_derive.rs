//! The maker trades of one underlying: when instruments and trades are asked for, what
//! is kept of the answers, and how fresh it is.
use vstd::prelude::*;
use crate::connector::failure;
use crate::connector::failure::{expired, record_failure, waits, FailureState};
use crate::connector::gex_history;
use crate::connector::gex_history::{keep_latest_per_id, MakerTradeRef, MAX_MAKER_TRADES};
use crate::connector::gex_proxy::GexFreshness;
use crate::lists;
use crate::lists::keep_last;
use crate::units;
use crate::units::UnixMs;

verus! {

pub const DERIVE_INSTRUMENT_REFRESH_MS: u64 = 600_000;

pub const DERIVE_TRADE_REFRESH_MS: u64 = 5_000;

pub const DERIVE_INITIAL_BACKFILL_MS: u64 = 7_200_000;

pub const DERIVE_FETCH_OVERLAP_MS: u64 = 10_000;

pub const DERIVE_RETENTION_MS: u64 = 86_400_000;

/// A list of instruments: how many there are, and where they are kept.
#[derive(Clone, Copy, Debug, PartialEq, Eq, Structural)]
pub struct InstrumentList {
    pub count: usize,
    pub slot: usize,
}

/// What is known of the maker trades.
#[derive(Debug)]
pub struct DeriveState {
    pub instruments: Option<InstrumentList>,
    pub trades: Option<Vec<MakerTradeRef>>,
    pub loaded: bool,
    pub instruments_in_flight: bool,
    pub trades_in_flight: bool,
    pub instrument_failure: Option<FailureState>,
    pub trade_failure: Option<FailureState>,
    pub instruments_refreshed_at: Option<UnixMs>,
    pub trades_refreshed_at: Option<UnixMs>,
    pub watermark: Option<UnixMs>,
    pub force_instruments: bool,
    pub force_trades: bool,
    pub stale: bool,
}

/// The trades of the retention window up to `now`, in order.
pub open spec fn in_retention(list: Seq<MakerTradeRef>, now: u64) -> Seq<MakerTradeRef>
    decreases list.len(),
{
    if list.len() == 0 {
        seq![]
    } else {
        let head = in_retention(list.drop_last(), now);
        if units::sat_sub(now, DERIVE_RETENTION_MS) <= list.last().timestamp.ms <= now {
            head.push(list.last())
        } else {
            head
        }
    }
}

/// `kept` is what is kept of a list of trades: the latest of each id, of those the ones
/// inside the retention window, ordered by time and id, at most the last 50 000.
pub open spec fn is_kept_trades(
    trades: Seq<MakerTradeRef>,
    now: u64,
    kept: Seq<MakerTradeRef>,
) -> bool {
    exists|all: Seq<MakerTradeRef>| #[trigger]
        gex_history::latest_per_id(trades, all) && kept == lists::last_of(
            in_retention(all, now),
            MAX_MAKER_TRADES as nat,
        )
}

/// The trades that are held, none where none were ever received.
pub open spec fn held_trades(trades: Option<Vec<MakerTradeRef>>) -> Seq<MakerTradeRef> {
    match trades {
        Some(list) => list@,
        None => seq![],
    }
}

fn retain_window(list: Vec<MakerTradeRef>, now: UnixMs) -> (kept: Vec<MakerTradeRef>)
    ensures
        kept@ == in_retention(list@, now.ms),
{
    let ghost source = list@;
    let cutoff: UnixMs = now.saturating_sub(DERIVE_RETENTION_MS);
    let mut kept: Vec<MakerTradeRef> = Vec::new();
    for trade in it: list
        invariant
            it.seq() == source,
            cutoff.ms == units::sat_sub(now.ms, DERIVE_RETENTION_MS),
            kept@ == in_retention(source.take(it.index()), now.ms),
    {
        proof {
            assert(source.take(it.index() + 1).drop_last() =~= source.take(it.index()));
            assert(source.take(it.index() + 1).last() == source[it.index()]);
        }
        if trade.timestamp.ms >= cutoff.ms && trade.timestamp.ms <= now.ms {
            kept.push(trade);
        }
    }
    assert(source.take(source.len() as int) =~= source);
    kept
}

/// What is kept of a list of trades.
pub fn keep_trades(trades: Vec<MakerTradeRef>, now: UnixMs) -> (kept: Vec<MakerTradeRef>)
    ensures
        is_kept_trades(trades@, now.ms, kept@),
        kept@.len() <= MAX_MAKER_TRADES,
{
    let all = keep_latest_per_id(trades);
    let window = retain_window(all, now);
    keep_last(window, MAX_MAKER_TRADES)
}

/// The moment of the last trade of a list.
pub open spec fn last_moment(trades: Seq<MakerTradeRef>) -> Option<UnixMs> {
    if trades.len() > 0 {
        Some(trades.last().timestamp)
    } else {
        None
    }
}

impl DeriveState {
    /// Nothing is known yet.
    pub open spec fn untouched(self) -> bool {
        &&& self.instruments is None
        &&& self.trades is None
        &&& !self.loaded
        &&& !self.instruments_in_flight
        &&& !self.trades_in_flight
        &&& self.instrument_failure is None
        &&& self.trade_failure is None
        &&& self.instruments_refreshed_at is None
        &&& self.trades_refreshed_at is None
        &&& self.watermark is None
        &&& !self.force_instruments
        &&& !self.force_trades
        &&& !self.stale
    }

    pub fn new() -> (r: Self)
        ensures
            r.untouched(),
    {
        DeriveState {
            instruments: None,
            trades: None,
            loaded: false,
            instruments_in_flight: false,
            trades_in_flight: false,
            instrument_failure: None,
            trade_failure: None,
            instruments_refreshed_at: None,
            trades_refreshed_at: None,
            watermark: None,
            force_instruments: false,
            force_trades: false,
            stale: false,
        }
    }

    /// Whether the instruments are to be asked for.
    pub open spec fn instruments_due(self, now: u64) -> bool {
        &&& !self.instruments_in_flight
        &&& self.force_instruments || (!failure::is_waiting(self.instrument_failure, now)
            && failure::is_expired(
            self.instruments_refreshed_at,
            now,
            DERIVE_INSTRUMENT_REFRESH_MS,
        ))
    }

    pub fn begin_instruments(&mut self, now: UnixMs) -> (r: bool)
        ensures
            r == old(self).instruments_due(now.ms),
            *final(self) == (DeriveState {
                instruments_in_flight: old(self).instruments_in_flight || r,
                ..*old(self)
            }),
    {
        let due: bool = !self.instruments_in_flight && (self.force_instruments || (!waits(
            &self.instrument_failure,
            now,
        ) && expired(self.instruments_refreshed_at, now, DERIVE_INSTRUMENT_REFRESH_MS)));
        if due {
            self.instruments_in_flight = true;
        }
        due
    }

    /// Whether trades are to be asked for: never before there are instruments.
    pub open spec fn trades_due(self, now: u64) -> bool {
        &&& self.instruments is Some && self.instruments->0.count > 0
        &&& !self.trades_in_flight
        &&& self.force_trades || (!failure::is_waiting(self.trade_failure, now)
            && failure::is_expired(self.trades_refreshed_at, now, DERIVE_TRADE_REFRESH_MS))
    }

    /// The moment from which trades are asked for: shortly before the last one that was
    /// seen, or the start of the first backfill.
    pub open spec fn fetch_start(self, now: u64) -> u64 {
        match self.watermark {
            Some(seen) => units::sat_sub(seen.ms, DERIVE_FETCH_OVERLAP_MS),
            None => units::sat_sub(now, DERIVE_INITIAL_BACKFILL_MS),
        }
    }

    /// The start of the request to make, where one is due.
    pub fn begin_trades(&mut self, now: UnixMs) -> (r: Option<UnixMs>)
        ensures
            r == (if old(self).trades_due(now.ms) {
                Some(UnixMs { ms: old(self).fetch_start(now.ms) })
            } else {
                None
            }),
            *final(self) == (DeriveState {
                trades_in_flight: old(self).trades_in_flight || r is Some,
                ..*old(self)
            }),
    {
        let known: bool = match &self.instruments {
            Some(list) => list.count > 0,
            None => false,
        };
        let due: bool = known && !self.trades_in_flight && (self.force_trades || (!waits(
            &self.trade_failure,
            now,
        ) && expired(self.trades_refreshed_at, now, DERIVE_TRADE_REFRESH_MS)));
        if due {
            self.trades_in_flight = true;
            match self.watermark {
                Some(seen) => Some(seen.saturating_sub(DERIVE_FETCH_OVERLAP_MS)),
                None => Some(now.saturating_sub(DERIVE_INITIAL_BACKFILL_MS)),
            }
        } else {
            None
        }
    }

    /// What a finished request for instruments leaves behind. An empty list is a failure;
    /// a new list has the trades asked for at once.
    pub open spec fn instruments_completed(
        before: Self,
        result: Result<InstrumentList, String>,
        now: u64,
        after: Self,
    ) -> bool {
        &&& match result {
            Ok(list) => if list.count > 0 {
                &&& after.instruments == Some(list)
                &&& after.instruments_refreshed_at == Some(UnixMs { ms: now })
                &&& after.instrument_failure is None
                &&& after.force_trades
            } else {
                &&& failure::failed_again(
                    before.instrument_failure,
                    after.instrument_failure,
                    "empty Derive instrument metadata"@,
                    now,
                )
                &&& after.instruments == before.instruments
                &&& after.instruments_refreshed_at == before.instruments_refreshed_at
                &&& after.force_trades == before.force_trades
            },
            Err(error) => {
                &&& failure::failed_again(
                    before.instrument_failure,
                    after.instrument_failure,
                    error@,
                    now,
                )
                &&& after.instruments == before.instruments
                &&& after.instruments_refreshed_at == before.instruments_refreshed_at
                &&& after.force_trades == before.force_trades
            },
        }
        &&& after == DeriveState {
            instruments: after.instruments,
            instruments_refreshed_at: after.instruments_refreshed_at,
            instrument_failure: after.instrument_failure,
            force_trades: after.force_trades,
            instruments_in_flight: false,
            force_instruments: false,
            ..before
        }
    }

    pub fn complete_instruments(&mut self, result: Result<InstrumentList, String>, now: UnixMs)
        ensures
            Self::instruments_completed(*old(self), result, now.ms, *final(self)),
    {
        self.instruments_in_flight = false;
        self.force_instruments = false;
        match result {
            Ok(list) => {
                if list.count > 0 {
                    self.instruments = Some(list);
                    self.instruments_refreshed_at = Some(now);
                    self.instrument_failure = None;
                    self.force_trades = true;
                } else {
                    self.instrument_failure = record_failure(
                        &self.instrument_failure,
                        "empty Derive instrument metadata".to_owned(),
                        now,
                    );
                }
            },
            Err(error) => {
                self.instrument_failure = record_failure(&self.instrument_failure, error, now);
            },
        }
    }

    /// What a finished request for trades leaves behind.
    pub open spec fn trades_completed(
        before: Self,
        result: Result<Vec<MakerTradeRef>, String>,
        now: u64,
        after: Self,
    ) -> bool {
        &&& match result {
            Ok(values) => {
                &&& after.trades is Some
                &&& is_kept_trades(held_trades(before.trades) + values@, now, after.trades->0@)
                &&& after.watermark == (match last_moment(after.trades->0@) {
                    Some(latest) => Some(latest),
                    None => before.watermark,
                })
                &&& after.trades_refreshed_at == Some(UnixMs { ms: now })
                &&& after.trade_failure is None
                &&& !after.stale
            },
            Err(error) => {
                &&& failure::failed_again(before.trade_failure, after.trade_failure, error@, now)
                &&& after.trades == before.trades
                &&& after.watermark == before.watermark
                &&& after.trades_refreshed_at == before.trades_refreshed_at
                &&& after.stale == before.stale
            },
        }
        &&& after == DeriveState {
            trades: after.trades,
            watermark: after.watermark,
            trades_refreshed_at: after.trades_refreshed_at,
            trade_failure: after.trade_failure,
            stale: after.stale,
            trades_in_flight: false,
            force_trades: false,
            ..before
        }
    }

    /// Takes in the answer to a request for trades, and says whether they are to be stored.
    pub fn complete_trades(&mut self, result: Result<Vec<MakerTradeRef>, String>, now: UnixMs) -> (r:
        bool)
        ensures
            Self::trades_completed(*old(self), result, now.ms, *final(self)),
            r == (result is Ok),
    {
        self.trades_in_flight = false;
        self.force_trades = false;
        match result {
            Ok(values) => {
                let ghost added = values@;
                let mut values = values;
                let mut all: Vec<MakerTradeRef> = match self.trades.take() {
                    Some(list) => list,
                    None => Vec::new(),
                };
                assert(all@ =~= held_trades(old(self).trades));
                let ghost held = all@;
                all.append(&mut values);
                assert(all@ =~= held + added);
                let kept = keep_trades(all, now);
                if kept.len() > 0 {
                    self.watermark = Some(kept[kept.len() - 1].timestamp);
                }
                self.trades = Some(kept);
                self.trades_refreshed_at = Some(now);
                self.trade_failure = None;
                self.stale = false;
                true
            },
            Err(error) => {
                self.trade_failure = record_failure(&self.trade_failure, error, now);
                false
            },
        }
    }

    pub open spec fn freshness_at(self, now: u64) -> GexFreshness {
        if self.trade_failure is Some || self.instrument_failure is Some {
            GexFreshness::Error
        } else if self.stale {
            GexFreshness::Stale
        } else if self.trades_in_flight && held_trades(self.trades).len() == 0 {
            GexFreshness::Loading
        } else if self.trades_refreshed_at is Some && units::sat_sub(
            now,
            self.trades_refreshed_at->0.ms,
        ) < 2 * DERIVE_TRADE_REFRESH_MS {
            GexFreshness::Fresh
        } else if self.trades is Some {
            GexFreshness::Stale
        } else {
            GexFreshness::Loading
        }
    }

    pub fn freshness(&self, now: UnixMs) -> (r: GexFreshness)
        ensures
            r == self.freshness_at(now.ms),
    {
        let empty: bool = match &self.trades {
            Some(list) => list.len() == 0,
            None => true,
        };
        let current: bool = match self.trades_refreshed_at {
            Some(last) => now.saturating_diff(last) < DERIVE_TRADE_REFRESH_MS * 2,
            None => false,
        };
        if self.trade_failure.is_some() || self.instrument_failure.is_some() {
            GexFreshness::Error
        } else if self.stale {
            GexFreshness::Stale
        } else if self.trades_in_flight && empty {
            GexFreshness::Loading
        } else if current {
            GexFreshness::Fresh
        } else if self.trades.is_some() {
            GexFreshness::Stale
        } else {
            GexFreshness::Loading
        }
    }

    /// Whether the stored trades are to be read now: once, where storing is on.
    pub fn begin_load(&mut self, persistent: bool) -> (r: bool)
        ensures
            r == (persistent && !old(self).loaded),
            *final(self) == (DeriveState { loaded: old(self).loaded || persistent, ..*old(self) }),
    {
        let needed: bool = persistent && !self.loaded;
        if persistent {
            self.loaded = true;
        }
        needed
    }

    /// Takes in the stored trades. What was stored counts as stale until it is refreshed.
    pub fn finish_load(&mut self, trades: Vec<MakerTradeRef>)
        ensures
            if trades@.len() == 0 {
                *final(self) == *old(self)
            } else {
                *final(self) == (DeriveState {
                    trades: Some(trades),
                    watermark: Some(trades@.last().timestamp),
                    stale: true,
                    ..*old(self)
                })
            },
    {
        if trades.len() > 0 {
            self.watermark = Some(trades[trades.len() - 1].timestamp);
            self.trades = Some(trades);
            self.stale = true;
        }
    }
}

/// Neither request is made a second time while it is under way.
pub proof fn derive_requests_do_not_overlap(state: DeriveState, later: u64)
    ensures
        !(DeriveState { instruments_in_flight: true, ..state }).instruments_due(later),
        !(DeriveState { trades_in_flight: true, ..state }).trades_due(later),
{
}

/// The next request for trades starts before the last trade that was seen, so that none
/// between two requests is missed.
pub proof fn trade_requests_overlap(
    before: DeriveState,
    values: Vec<MakerTradeRef>,
    now: u64,
    after: DeriveState,
    later: u64,
)
    requires
        DeriveState::trades_completed(before, Ok(values), now, after),
        after.trades->0@.len() > 0,
    ensures
        after.fetch_start(later) == units::sat_sub(
            after.trades->0@.last().timestamp.ms,
            DERIVE_FETCH_OVERLAP_MS,
        ),
{
}

} // verus!
