//! The remote proxy series of one underlying: when it is asked for, what is kept of the
//! answers, and how fresh it is.
use vstd::prelude::*;
use crate::connector::failure;
use crate::connector::failure::{expired, record_failure, waits, FailureState};
use crate::connector::gex_history;
use crate::connector::gex_history::{
    retain_recent, saturating_sub_i64, ProxyRef, MAX_PROXY_RECORDS, PROXY_RETENTION_MS,
};
use crate::connector::records;
use crate::connector::records::keep_oldest;
use crate::lists;
use crate::lists::keep_last;
use crate::units;
use crate::units::UnixMs;

verus! {

pub const PROXY_REFRESH_MS: u64 = 300_000;

/// How current the shown figures are.
#[derive(Clone, Copy, Debug, PartialEq, Eq, Structural)]
pub enum GexFreshness {
    Loading,
    Fresh,
    Stale,
    Expired,
    Error,
}

/// An answer of the remote series.
#[derive(Debug)]
pub struct ProxyResponse {
    pub points: Vec<ProxyRef>,
    pub stale: bool,
}

/// What is known of the remote series.
#[derive(Debug)]
pub struct ProxyState {
    pub history: Vec<ProxyRef>,
    pub loaded: bool,
    pub in_flight: bool,
    pub failure: Option<FailureState>,
    pub force_refresh: bool,
    pub refreshed_at: Option<UnixMs>,
    pub stale: bool,
}

/// A moment on the signed clock of the remote series.
pub open spec fn signed_ms(now: u64) -> i64 {
    if now > i64::MAX {
        i64::MAX
    } else {
        now as i64
    }
}

pub fn to_signed_ms(now: UnixMs) -> (r: i64)
    ensures
        r == signed_ms(now.ms),
{
    if now.ms > 0x7fff_ffff_ffff_ffff {
        i64::MAX
    } else {
        now.ms as i64
    }
}

/// `kept` is the list of points with the older of two points of one moment, valid and
/// inside the retention window, ascending, at most the last 320.
pub open spec fn is_normal_series(points: Seq<ProxyRef>, now: u64, kept: Seq<ProxyRef>) -> bool {
    exists|all: Seq<ProxyRef>| #[trigger]
        records::oldest_per_moment(
            gex_history::recent_points(
                points,
                gex_history::sat_sub_i64(signed_ms(now), PROXY_RETENTION_MS),
            ),
            all,
        ) && kept == lists::last_of(all, MAX_PROXY_RECORDS as nat)
}

/// Keeps the valid points of the retention window, the first of each moment, ascending,
/// at most the last 320.
pub fn normalize_proxy_points(points: &Vec<ProxyRef>, now: UnixMs) -> (kept: Vec<ProxyRef>)
    ensures
        is_normal_series(points@, now.ms, kept@),
        kept@.len() <= MAX_PROXY_RECORDS,
{
    let cutoff: i64 = saturating_sub_i64(to_signed_ms(now), PROXY_RETENTION_MS);
    let recent = retain_recent(points, cutoff);
    let all = keep_oldest(recent);
    keep_last(all, MAX_PROXY_RECORDS)
}

/// The points of the last day.
pub open spec fn points_since(list: Seq<ProxyRef>, cutoff: i64) -> Seq<ProxyRef>
    decreases list.len(),
{
    if list.len() == 0 {
        seq![]
    } else if list.last().observed_at >= cutoff {
        points_since(list.drop_last(), cutoff).push(list.last())
    } else {
        points_since(list.drop_last(), cutoff)
    }
}

pub const PROXY_WINDOW_MS: i64 = 86_400_000;

impl ProxyState {
    /// Nothing is known yet.
    pub open spec fn untouched(self) -> bool {
        &&& self.history@.len() == 0
        &&& !self.loaded
        &&& !self.in_flight
        &&& self.failure is None
        &&& !self.force_refresh
        &&& self.refreshed_at is None
        &&& !self.stale
    }

    pub fn new() -> (r: Self)
        ensures
            r.untouched(),
    {
        ProxyState {
            history: Vec::new(),
            loaded: false,
            in_flight: false,
            failure: None,
            force_refresh: false,
            refreshed_at: None,
            stale: false,
        }
    }

    /// Whether a request is to be made at `now`: a forced refresh, or the refresh interval
    /// has passed and no failure asks for patience, and no request is under way.
    pub open spec fn is_due(self, now: u64) -> bool {
        &&& !self.in_flight
        &&& self.force_refresh || (!failure::is_waiting(self.failure, now) && failure::is_expired(
            self.refreshed_at,
            now,
            PROXY_REFRESH_MS,
        ))
    }

    /// Marks the request as under way where one is due.
    pub fn begin(&mut self, now: UnixMs) -> (r: bool)
        ensures
            r == old(self).is_due(now.ms),
            *final(self) == (ProxyState { in_flight: old(self).in_flight || r, ..*old(self) }),
    {
        let due: bool = !self.in_flight && (self.force_refresh || (!waits(&self.failure, now)
            && expired(self.refreshed_at, now, PROXY_REFRESH_MS)));
        if due {
            self.in_flight = true;
        }
        due
    }

    /// What a finished request leaves behind.
    pub open spec fn completed(
        before: Self,
        result: Result<ProxyResponse, String>,
        now: u64,
        after: Self,
    ) -> bool {
        &&& !after.in_flight
        &&& !after.force_refresh
        &&& after.loaded == before.loaded
        &&& match result {
            Ok(response) => {
                &&& after.failure is None
                &&& after.refreshed_at == Some(UnixMs { ms: now })
                &&& after.stale == response.stale
                &&& if response.stale && before.history@.len() > 0 {
                    after.history@ == before.history@
                } else {
                    is_normal_series(before.history@ + response.points@, now, after.history@)
                }
            },
            Err(error) => {
                &&& failure::failed_again(before.failure, after.failure, error@, now)
                &&& after.history@ == before.history@
                &&& after.refreshed_at == before.refreshed_at
                &&& after.stale == before.stale
            },
        }
    }

    /// Takes in the answer to a request, and says whether the kept series is to be stored.
    /// A stale answer never replaces points that are there.
    pub fn complete(&mut self, result: Result<ProxyResponse, String>, now: UnixMs) -> (r: bool)
        ensures
            Self::completed(*old(self), result, now.ms, *final(self)),
            r == (result is Ok && !(result->Ok_0.stale && old(self).history@.len() > 0)),
    {
        self.in_flight = false;
        self.force_refresh = false;
        match result {
            Ok(response) => {
                self.refreshed_at = Some(now);
                self.failure = None;
                self.stale = response.stale;
                if response.stale && self.history.len() > 0 {
                    false
                } else {
                    let mut points = response.points;
                    let ghost added = points@;
                    let ghost held = self.history@;
                    self.history.append(&mut points);
                    assert(self.history@ =~= held + added);
                    self.history = normalize_proxy_points(&self.history, now);
                    true
                }
            },
            Err(error) => {
                self.failure = record_failure(&self.failure, error, now);
                false
            },
        }
    }

    /// The points of the last day.
    pub fn recent(&self, now: UnixMs) -> (r: Vec<ProxyRef>)
        ensures
            r@ == points_since(
                self.history@,
                gex_history::sat_sub_i64(signed_ms(now.ms), PROXY_WINDOW_MS),
            ),
    {
        let cutoff: i64 = saturating_sub_i64(to_signed_ms(now), PROXY_WINDOW_MS);
        let mut r: Vec<ProxyRef> = Vec::new();
        let mut i: usize = 0;
        while i < self.history.len()
            invariant
                i <= self.history@.len(),
                r@ == points_since(self.history@.take(i as int), cutoff),
            decreases self.history@.len() - i,
        {
            assert(self.history@.take(i + 1).drop_last() =~= self.history@.take(i as int));
            let point: ProxyRef = self.history[i];
            if point.observed_at >= cutoff {
                r.push(point);
            }
            i = i + 1;
        }
        assert(self.history@.take(self.history@.len() as int) =~= self.history@);
        r
    }

    pub open spec fn freshness_at(self, now: u64) -> GexFreshness {
        if self.failure is Some {
            GexFreshness::Error
        } else if self.in_flight && self.history@.len() == 0 {
            GexFreshness::Loading
        } else if self.stale {
            GexFreshness::Stale
        } else if self.refreshed_at is Some {
            if units::sat_sub(now, self.refreshed_at->0.ms) <= PROXY_REFRESH_MS {
                GexFreshness::Fresh
            } else {
                GexFreshness::Stale
            }
        } else if self.history@.len() > 0 {
            GexFreshness::Stale
        } else {
            GexFreshness::Loading
        }
    }

    pub fn freshness(&self, now: UnixMs) -> (r: GexFreshness)
        ensures
            r == self.freshness_at(now.ms),
    {
        if self.failure.is_some() {
            GexFreshness::Error
        } else if self.in_flight && self.history.len() == 0 {
            GexFreshness::Loading
        } else if self.stale {
            GexFreshness::Stale
        } else if let Some(last) = self.refreshed_at {
            if now.saturating_diff(last) <= PROXY_REFRESH_MS {
                GexFreshness::Fresh
            } else {
                GexFreshness::Stale
            }
        } else if self.history.len() > 0 {
            GexFreshness::Stale
        } else {
            GexFreshness::Loading
        }
    }

    /// Whether the stored series is to be read now: once, where storing is on.
    pub fn begin_load(&mut self, persistent: bool) -> (r: bool)
        ensures
            r == (persistent && !old(self).loaded),
            *final(self) == (ProxyState { loaded: old(self).loaded || persistent, ..*old(self) }),
    {
        let needed: bool = persistent && !self.loaded;
        if persistent {
            self.loaded = true;
        }
        needed
    }

    /// Takes in the stored series. What was stored counts as stale until it is refreshed.
    pub fn finish_load(&mut self, points: Vec<ProxyRef>)
        ensures
            if points@.len() == 0 {
                *final(self) == *old(self)
            } else {
                *final(self) == (ProxyState { history: points, stale: true, ..*old(self) })
            },
    {
        if points.len() > 0 {
            self.history = points;
            self.stale = true;
        }
    }
}

/// A second request is not made while one is under way.
pub proof fn proxy_requests_do_not_overlap(state: ProxyState, later: u64)
    ensures
        !(ProxyState { in_flight: true, ..state }).is_due(later),
{
}

/// A stale answer leaves the points that are there as they are.
pub proof fn stale_answer_keeps_the_series(
    before: ProxyState,
    response: ProxyResponse,
    now: u64,
    after: ProxyState,
)
    requires
        ProxyState::completed(before, Ok(response), now, after),
        response.stale,
        before.history@.len() > 0,
    ensures
        after.history@ == before.history@,
        after.freshness_at(now) == GexFreshness::Stale,
{
}

} // verus!
