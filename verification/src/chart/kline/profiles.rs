//! Volume profiles of trading sessions: the traded prices of each row, the row with the most
//! volume, and the rows around it that hold the asked share of the volume.
//!
//! What was traded in a row is added up in floating point by the caller, in the order in which
//! the library lists it; what follows from the sums is decided here, on their bit patterns.
use vstd::prelude::*;
use crate::chart::kline::sessions;
use crate::chart::kline::sessions::align_session_start;
use crate::units;
use crate::units::{saturating_add_u64, Bits64, Price, Qty, UnixMs};

verus! {

/// What was bought and sold at one price.
#[derive(Clone, Copy, Debug, PartialEq, Eq, Structural)]
pub struct PriceLevel {
    pub price: Price,
    pub buy: Qty,
    pub sell: Qty,
}

/// A candle with its traded prices.
#[derive(Debug)]
pub struct FootprintCandle {
    pub time: UnixMs,
    pub high: Price,
    pub low: Price,
    pub levels: Vec<PriceLevel>,
}

/// A row of prices, from `units` on, with what was traded in it, in the order of the candles.
#[derive(Debug)]
pub struct ProfileBin {
    pub units: i64,
    pub levels: Vec<PriceLevel>,
}

/// The rows of one session in which something was traded.
#[derive(Debug)]
pub struct SessionBins {
    pub start: u64,
    pub end: u64,
    pub bins: Vec<ProfileBin>,
    pub high: Price,
    pub low: Price,
}

/// A row of a profile: the price in its middle, and its place among the rows of the session.
#[derive(Clone, Copy, Debug, PartialEq, Eq, Structural)]
pub struct ProfileRow {
    pub price: Price,
    pub bin: usize,
}

/// The profile of one session. The three places are indices of rows.
#[derive(Debug)]
pub struct SessionProfile {
    pub session: usize,
    pub start: u64,
    pub end: u64,
    pub rows: Vec<ProfileRow>,
    pub poc: usize,
    pub value_area_high: usize,
    pub value_area_low: usize,
    pub high: Price,
    pub low: Price,
}

/// More price levels than fit into any memory.
pub const MAX_LEVELS: u64 = 0x0800_0000_0000_0000;

/// The largest sum that so many quantities can have.
pub open spec fn sum_bound(levels: nat) -> int {
    levels as int * 0x8000_0000_0000_0000int
}

/// A value of the range of prices.
pub open spec fn clamp_i64(value: int) -> i64 {
    if value < i64::MIN {
        i64::MIN
    } else if value > i64::MAX {
        i64::MAX
    } else {
        value as i64
    }
}

/// The height of a row: some ticks, at least one unit.
pub open spec fn row_height(tick: i64, ticks: u32) -> i64 {
    let height = clamp_i64(tick * (if ticks < 1 {
        1
    } else {
        ticks as int
    }));
    if height < 1 {
        1
    } else {
        height
    }
}

fn row_units(tick: i64, ticks: u32) -> (r: i64)
    ensures
        r == row_height(tick, ticks),
        r >= 1,
{
    let count: i128 = if ticks < 1 {
        1
    } else {
        ticks as i128
    };
    assert(-0x8000_0000_0000_0000 * 0x1_0000_0000 <= tick * count <= 0x8000_0000_0000_0000
        * 0x1_0000_0000) by (nonlinear_arith)
        requires
            -0x8000_0000_0000_0000 <= tick <= 0x7fff_ffff_ffff_ffff,
            1 <= count <= 0xffff_ffff,
    ;
    let height: i64 = to_i64(tick as i128 * count);
    if height < 1 {
        1
    } else {
        height
    }
}

fn to_i64(value: i128) -> (r: i64)
    ensures
        r == clamp_i64(value as int),
{
    if value < i64::MIN as i128 {
        i64::MIN
    } else if value > i64::MAX as i128 {
        i64::MAX
    } else {
        value as i64
    }
}

/// The start of the row that holds a price.
pub open spec fn bin_of(price: Price, row: i64) -> i64 {
    clamp_i64(price.units as int / row as int * row)
}

fn bin_start(price: Price, row: i64) -> (r: i64)
    requires
        row >= 1,
    ensures
        r == bin_of(price, row),
{
    let p: i128 = price.units as i128;
    let h: i128 = row as i128;
    // Division of negative numbers rounds up; the start of a row lies below.
    let quotient: i128 = if p >= 0 {
        p / h
    } else {
        -((-p + h - 1) / h)
    };
    proof {
        lemma_floor_division(p as int, h as int, quotient as int);
        vstd::arithmetic::div_mod::lemma_fundamental_div_mod(p as int, h as int);
        vstd::arithmetic::mul::lemma_mul_is_commutative(p as int / h as int, h as int);
    }
    to_i64(quotient * h)
}

proof fn lemma_floor_division(p: int, h: int, quotient: int)
    requires
        h >= 1,
        p >= 0 ==> quotient == p / h,
        p < 0 ==> quotient == -((-p + h - 1) / h),
    ensures
        quotient == p / h,
{
    if p < 0 {
        let up = (-p + h - 1) / h;
        vstd::arithmetic::div_mod::lemma_fundamental_div_mod(-p + h - 1, h);
        let rest = (-p + h - 1) % h;
        assert(-p + h - 1 == h * up + rest);
        assert(p == h * (-up) + (h - 1 - rest)) by (nonlinear_arith)
            requires
                -p + h - 1 == h * up + rest,
        ;
        vstd::arithmetic::div_mod::lemma_fundamental_div_mod_converse(p, h, -up, h - 1 - rest);
    }
}

/// What was traded in the row that starts at `units`, in order.
pub open spec fn levels_in(levels: Seq<PriceLevel>, row: i64, units: i64) -> Seq<PriceLevel>
    decreases levels.len(),
{
    if levels.len() == 0 {
        seq![]
    } else {
        let head = levels_in(levels.drop_last(), row, units);
        if bin_of(levels.last().price, row) == units {
            head.push(levels.last())
        } else {
            head
        }
    }
}

/// A traded price lies in the row.
pub open spec fn is_traded(levels: Seq<PriceLevel>, row: i64, units: i64) -> bool {
    exists|i: int| 0 <= i < levels.len() && bin_of((#[trigger] levels[i]).price, row) == units
}

/// The row is listed.
pub open spec fn is_listed(bins: Seq<ProfileBin>, units: i64) -> bool {
    exists|k: int| 0 <= k < bins.len() && (#[trigger] bins[k]).units == units
}

/// The rows in which something was traded, ascending, each with what was traded in it.
pub open spec fn is_bins(levels: Seq<PriceLevel>, row: i64, bins: Seq<ProfileBin>) -> bool {
    &&& forall|a: int, b: int|
        0 <= a < b < bins.len() ==> (#[trigger] bins[a]).units < (#[trigger] bins[b]).units
    &&& forall|k: int|
        0 <= k < bins.len() ==> (#[trigger] bins[k]).levels@ == levels_in(
            levels,
            row,
            bins[k].units,
        )
    &&& forall|units: i64| #[trigger] is_listed(bins, units) == is_traded(levels, row, units)
}

proof fn lemma_untraded_is_empty(levels: Seq<PriceLevel>, row: i64, units: i64)
    requires
        !is_traded(levels, row, units),
    ensures
        levels_in(levels, row, units) == Seq::<PriceLevel>::empty(),
    decreases levels.len(),
{
    if levels.len() > 0 {
        let front = levels.drop_last();
        if is_traded(front, row, units) {
            let i = choose|i: int|
                0 <= i < front.len() && bin_of((#[trigger] front[i]).price, row) == units;
            assert(bin_of(levels[i].price, row) == units);
        }
        lemma_untraded_is_empty(front, row, units);
        assert(levels[levels.len() - 1] == levels.last());
    }
}

proof fn lemma_traded_push(levels: Seq<PriceLevel>, level: PriceLevel, row: i64, units: i64)
    ensures
        is_traded(levels.push(level), row, units) == (is_traded(levels, row, units) || bin_of(
            level.price,
            row,
        ) == units),
{
    let longer = levels.push(level);
    if is_traded(longer, row, units) {
        let i = choose|i: int|
            0 <= i < longer.len() && bin_of((#[trigger] longer[i]).price, row) == units;
        if i < levels.len() {
            assert(bin_of(levels[i].price, row) == units);
        }
    }
    if is_traded(levels, row, units) {
        let i = choose|i: int|
            0 <= i < levels.len() && bin_of((#[trigger] levels[i]).price, row) == units;
        assert(bin_of(longer[i].price, row) == units);
    }
    if bin_of(level.price, row) == units {
        assert(bin_of(longer[levels.len() as int].price, row) == units);
    }
}

/// Adds one traded price to the rows.
fn add_level(bins: &mut Vec<ProfileBin>, level: PriceLevel, row: i64, Ghost(levels): Ghost<Seq<PriceLevel>>)
    requires
        row >= 1,
        is_bins(levels, row, old(bins)@),
    ensures
        is_bins(levels.push(level), row, final(bins)@),
{
    let ghost before = bins@;
    let units: i64 = bin_start(level.price, row);
    let mut at: usize = 0;
    while at < bins.len() && bins[at].units < units
        invariant
            bins@ == before,
            at <= before.len(),
            forall|k: int| 0 <= k < at ==> (#[trigger] before[k]).units < units,
        decreases before.len() - at,
    {
        at = at + 1;
    }
    proof {
        assert(levels.push(level).drop_last() =~= levels);
    }
    if at < bins.len() && bins[at].units == units {
        let mut bin: ProfileBin = bins.remove(at);
        bin.levels.push(level);
        bins.insert(at, bin);
        assert(bins@ =~= before.update(at as int, bin));
        proof {
            let after = bins@;
            assert forall|k: int| 0 <= k < after.len() implies (#[trigger] after[k]).levels@
                == levels_in(levels.push(level), row, after[k].units) by {
                assert(before[k].units == after[k].units);
                if k < at {
                    assert(before[k].units < units);
                } else if k > at {
                    assert(before[at as int].units < before[k].units);
                }
            }
            assert forall|u: i64| #[trigger]
                is_listed(after, u) == is_traded(levels.push(level), row, u) by {
                lemma_traded_push(levels, level, row, u);
                assert(is_listed(before, u) == is_traded(levels, row, u));
                if is_listed(after, u) {
                    let k = choose|k: int|
                        0 <= k < after.len() && (#[trigger] after[k]).units == u;
                    assert(before[k].units == u);
                }
                if is_listed(before, u) {
                    let k = choose|k: int|
                        0 <= k < before.len() && (#[trigger] before[k]).units == u;
                    assert(after[k].units == u);
                }
                assert(after[at as int].units == units);
            }
            assert forall|a: int, b: int| 0 <= a < b < after.len() implies (
            #[trigger] after[a]).units < (#[trigger] after[b]).units by {
                assert(before[a].units < before[b].units);
            }
        }
    } else {
        proof {
            if is_listed(before, units) {
                let k = choose|k: int|
                    0 <= k < before.len() && (#[trigger] before[k]).units == units;
                if at < before.len() && at < k {
                    assert(before[at as int].units < before[k].units);
                }
                assert(false);
            }
            assert(!is_traded(levels, row, units));
            lemma_untraded_is_empty(levels, row, units);
        }
        let mut fresh: Vec<PriceLevel> = Vec::new();
        fresh.push(level);
        assert(fresh@ =~= Seq::<PriceLevel>::empty().push(level));
        bins.insert(at, ProfileBin { units, levels: fresh });
        proof {
            let after = bins@;
            assert forall|k: int| 0 <= k < after.len() implies (#[trigger] after[k]).levels@
                == levels_in(levels.push(level), row, after[k].units) by {
                if k < at {
                    assert(after[k] == before[k]);
                } else if k > at {
                    assert(after[k] == before[k - 1]);
                    if at < k - 1 {
                        assert(before[at as int].units < before[k - 1].units);
                    }
                }
            }
            assert forall|a: int, b: int| 0 <= a < b < after.len() implies (
            #[trigger] after[a]).units < (#[trigger] after[b]).units by {
                let x = if a < at {
                    a
                } else {
                    a - 1
                };
                let y = if b < at {
                    b
                } else {
                    b - 1
                };
                if a != at && b != at {
                    assert(after[a] == before[x] && after[b] == before[y]);
                    assert(before[x].units < before[y].units);
                } else if a == at {
                    assert(after[b] == before[y]);
                    if at < y {
                        assert(before[at as int].units < before[y].units);
                    }
                } else {
                    assert(after[a] == before[a]);
                }
            }
            assert forall|u: i64| #[trigger]
                is_listed(after, u) == is_traded(levels.push(level), row, u) by {
                lemma_traded_push(levels, level, row, u);
                assert(is_listed(before, u) == is_traded(levels, row, u));
                if is_listed(after, u) {
                    let k = choose|k: int|
                        0 <= k < after.len() && (#[trigger] after[k]).units == u;
                    if k < at {
                        assert(before[k].units == u);
                    } else if k > at {
                        assert(before[k - 1].units == u);
                    }
                }
                if is_listed(before, u) {
                    let k = choose|k: int|
                        0 <= k < before.len() && (#[trigger] before[k]).units == u;
                    if k < at {
                        assert(after[k].units == u);
                    } else {
                        assert(after[k + 1].units == u);
                    }
                }
                assert(after[at as int].units == units);
            }
        }
    }
}

/// The candles of one session: its traded prices, its highest and its lowest price.
pub struct SessionGroup {
    pub start: u64,
    pub levels: Seq<PriceLevel>,
    pub high: Price,
    pub low: Price,
}

pub open spec fn higher(a: Price, b: Price) -> Price {
    if a.units >= b.units {
        a
    } else {
        b
    }
}

pub open spec fn lower(a: Price, b: Price) -> Price {
    if a.units <= b.units {
        a
    } else {
        b
    }
}

/// The sessions of a list of candles, those without trades left out.
pub open spec fn grouped(candles: Seq<FootprintCandle>, session_ms: u64) -> Seq<SessionGroup>
    decreases candles.len(),
{
    if candles.len() == 0 {
        seq![]
    } else {
        let head = grouped(candles.drop_last(), session_ms);
        let candle = candles.last();
        let start = sessions::session_start(candle.time.ms, session_ms);
        if candle.levels@.len() == 0 {
            head
        } else if head.len() > 0 && head.last().start == start {
            head.drop_last().push(
                SessionGroup {
                    start,
                    levels: head.last().levels + candle.levels@,
                    high: higher(head.last().high, candle.high),
                    low: lower(head.last().low, candle.low),
                },
            )
        } else {
            head.push(
                SessionGroup {
                    start,
                    levels: candle.levels@,
                    high: candle.high,
                    low: candle.low,
                },
            )
        }
    }
}

/// The number of traded prices of all candles.
pub open spec fn level_count(candles: Seq<FootprintCandle>) -> nat
    decreases candles.len(),
{
    if candles.len() == 0 {
        0
    } else {
        level_count(candles.drop_last()) + candles.last().levels@.len()
    }
}

proof fn lemma_level_count_prefix(candles: Seq<FootprintCandle>, n: int)
    requires
        0 <= n <= candles.len(),
    ensures
        level_count(candles.take(n)) <= level_count(candles),
    decreases candles.len(),
{
    if n < candles.len() {
        lemma_level_count_prefix(candles.drop_last(), n);
        assert(candles.drop_last().take(n) =~= candles.take(n));
    } else {
        assert(candles.take(n) =~= candles);
    }
}

/// The candles from `from` to `to`, both included, in order.
pub open spec fn visible(candles: Seq<FootprintCandle>, from: u64, to: u64) -> Seq<FootprintCandle>
    decreases candles.len(),
{
    if candles.len() == 0 {
        seq![]
    } else {
        let head = visible(candles.drop_last(), from, to);
        if from <= candles.last().time.ms <= to {
            head.push(candles.last())
        } else {
            head
        }
    }
}

/// The rows of a session.
pub open spec fn matches_group(
    open: SessionBins,
    group: SessionGroup,
    session_ms: u64,
    row: i64,
) -> bool {
    &&& open.start == group.start
    &&& open.end == units::sat_add(group.start, session_ms)
    &&& open.high == group.high
    &&& open.low == group.low
    &&& is_bins(group.levels, row, open.bins@)
}

/// Adds the traded prices of a candle to the rows.
fn add_levels(
    bins: &mut Vec<ProfileBin>,
    levels: &Vec<PriceLevel>,
    row: i64,
    Ghost(held): Ghost<Seq<PriceLevel>>,
)
    requires
        row >= 1,
        is_bins(held, row, old(bins)@),
    ensures
        is_bins(held + levels@, row, final(bins)@),
{
    let mut i: usize = 0;
    assert(held + levels@.take(0) =~= held);
    while i < levels.len()
        invariant
            row >= 1,
            i <= levels@.len(),
                is_bins(held + levels@.take(i as int), row, bins@),
        decreases levels@.len() - i,
    {
        let ghost so_far = held + levels@.take(i as int);
        add_level(bins, levels[i], row, Ghost(so_far));
        assert(so_far.push(levels@[i as int]) =~= held + levels@.take(i + 1));
        i = i + 1;
    }
    assert(levels@.take(levels@.len() as int) =~= levels@);
}

fn group_candles(
    candles: &Vec<FootprintCandle>,
    from: u64,
    to: u64,
    session_ms: u64,
    row: i64,
) -> (r: Vec<SessionBins>)
    requires
        session_ms > 0,
        row >= 1,
    ensures
        r@.len() == grouped(visible(candles@, from, to), session_ms).len(),
        forall|k: int|
            0 <= k < r@.len() ==> matches_group(
                #[trigger] r@[k],
                grouped(visible(candles@, from, to), session_ms)[k],
                session_ms,
                row,
            ),
{
    let mut r: Vec<SessionBins> = Vec::new();
    let mut i: usize = 0;
    while i < candles.len()
        invariant
            session_ms > 0,
            row >= 1,
                i <= candles@.len(),
            r@.len() == grouped(visible(candles@.take(i as int), from, to), session_ms).len(),
            forall|k: int|
                0 <= k < r@.len() ==> matches_group(
                    #[trigger] r@[k],
                    grouped(visible(candles@.take(i as int), from, to), session_ms)[k],
                    session_ms,
                    row,
                ),
        decreases candles@.len() - i,
    {
        let ghost shorter = visible(candles@.take(i as int), from, to);
        let ghost longer = visible(candles@.take(i + 1), from, to);
        let ghost head = grouped(shorter, session_ms);
        let ghost before = r@;
        proof {
            assert(candles@.take(i + 1).drop_last() =~= candles@.take(i as int));
            assert(candles@.take(i + 1).last() == candles@[i as int]);
            assert(shorter.push(candles@[i as int]).drop_last() =~= shorter);
        }
        let candle = &candles[i];
        if from <= candle.time.ms && candle.time.ms <= to && candle.levels.len() > 0 {
            let start: u64 = align_session_start(candle.time.ms, session_ms);
            let count: usize = r.len();
            if count > 0 && r[count - 1].start == start {
                proof {
                    assert(matches_group(before[count - 1], head[count - 1], session_ms, row));
                }
                match r.pop() {
                    Some(mut session) => {
                        add_levels(
                            &mut session.bins,
                            &candle.levels,
                            row,
                            Ghost(head.last().levels),
                        );
                        if candle.high.units > session.high.units {
                            session.high = candle.high;
                        }
                        if candle.low.units < session.low.units {
                            session.low = candle.low;
                        }
                        r.push(session);
                    },
                    None => {},
                }
                proof {
                    let all = grouped(longer, session_ms);
                    assert forall|k: int| 0 <= k < r@.len() implies matches_group(
                        #[trigger] r@[k],
                        all[k],
                        session_ms,
                        row,
                    ) by {
                        if k < count - 1 {
                            assert(r@[k] == before[k]);
                            assert(all[k] == head[k]);
                        }
                    }
                }
            } else {
                proof {
                    if count > 0 {
                        assert(matches_group(before[count - 1], head[count - 1], session_ms, row));
                    }
                }
                let mut bins: Vec<ProfileBin> = Vec::new();
                assert(is_bins(Seq::empty(), row, bins@)) by {
                    assert forall|u: i64| #[trigger]
                        is_listed(bins@, u) == is_traded(Seq::empty(), row, u) by {}
                }
                add_levels(&mut bins, &candle.levels, row, Ghost(Seq::empty()));
                assert(Seq::<PriceLevel>::empty() + candle.levels@ =~= candle.levels@);
                let end: u64 = saturating_add_u64(start, session_ms);
                r.push(SessionBins { start, end, bins, high: candle.high, low: candle.low });
                proof {
                    let all = grouped(longer, session_ms);
                    assert forall|k: int| 0 <= k < r@.len() implies matches_group(
                        #[trigger] r@[k],
                        all[k],
                        session_ms,
                        row,
                    ) by {
                        if k < count {
                            assert(r@[k] == before[k]);
                            assert(all[k] == head[k]);
                        }
                    }
                }
            }
        }
        i = i + 1;
    }
    assert(candles@.take(candles@.len() as int) =~= candles@);
    r
}

/// The rows of the sessions of the candles from the start of the session that holds `earliest`
/// to `latest`, each session with what was traded in its rows.
pub fn session_bins(
    candles: &Vec<FootprintCandle>,
    earliest: u64,
    latest: u64,
    tick_units: i64,
    row_size_ticks: u32,
    session_ms: u64,
) -> (r: Vec<SessionBins>)
    requires
        session_ms > 0,
        sessions::session_start(earliest, session_ms) <= latest,
    ensures
        are_sessions(
            r@,
            grouped(
                visible(candles@, sessions::session_start(earliest, session_ms), latest),
                session_ms,
            ),
            session_ms,
            row_height(tick_units, row_size_ticks),
        ),
{
    let from: u64 = align_session_start(earliest, session_ms);
    let row: i64 = row_units(tick_units, row_size_ticks);
    group_candles(candles, from, latest, session_ms, row)
}

/// The rows of each session, in order.
pub open spec fn are_sessions(
    list: Seq<SessionBins>,
    groups: Seq<SessionGroup>,
    session_ms: u64,
    row: i64,
) -> bool {
    &&& list.len() == groups.len()
    &&& forall|k: int|
        0 <= k < list.len() ==> matches_group(#[trigger] list[k], groups[k], session_ms, row)
}

/// The figure zero.
pub open spec fn nought() -> Bits64 {
    Bits64 { bits: 0 }
}

/// The places of the rows with volume, ascending.
pub open spec fn traded_rows(volumes: Seq<Bits64>) -> Seq<usize>
    decreases volumes.len(),
{
    if volumes.len() == 0 {
        seq![]
    } else {
        let head = traded_rows(volumes.drop_last());
        if volumes.last().above(nought()) {
            head.push((volumes.len() - 1) as usize)
        } else {
            head
        }
    }
}

/// The volumes of the rows that have some.
pub open spec fn traded_volumes(volumes: Seq<Bits64>) -> Seq<Bits64> {
    traded_rows(volumes).map_values(|at: usize| volumes[at as int])
}

/// The row with the most volume, of several the last.
pub open spec fn is_poc(volumes: Seq<Bits64>, i: int) -> bool {
    &&& 0 <= i < volumes.len()
    &&& forall|j: int| 0 <= j < volumes.len() ==> (#[trigger] volumes[j]).rank() <= volumes[i].rank()
    &&& forall|j: int| i < j < volumes.len() ==> (#[trigger] volumes[j]).rank() < volumes[i].rank()
}

/// Whether the row above is taken in next: it is there, and no smaller than the one below.
pub open spec fn grows_up(volumes: Seq<Bits64>, low: int, high: int) -> bool {
    high + 1 < volumes.len() && (low <= 0 || volumes[low - 1].at_most(volumes[high + 1]))
}

/// The rows around the row at `poc` once `steps` neighbours were taken in, of two the larger,
/// and the upper one where both are equal.
pub open spec fn window(volumes: Seq<Bits64>, poc: int, steps: nat) -> (int, int)
    decreases steps,
{
    if steps == 0 {
        (poc, poc)
    } else {
        let (low, high) = window(volumes, poc, (steps - 1) as nat);
        if grows_up(volumes, low, high) {
            (low, high + 1)
        } else {
            (low - 1, high)
        }
    }
}

/// The row that is taken in at the given step; at first the row at `poc`.
pub open spec fn taken(volumes: Seq<Bits64>, poc: int, step: int) -> int {
    if step <= 0 {
        poc
    } else {
        let (low, high) = window(volumes, poc, (step - 1) as nat);
        if grows_up(volumes, low, high) {
            high + 1
        } else {
            low - 1
        }
    }
}

/// The rows around the point of control stay among the rows until all are taken in.
pub proof fn lemma_window(volumes: Seq<Bits64>, poc: int, steps: nat)
    requires
        0 <= poc < volumes.len(),
        steps < volumes.len(),
    ensures
        ({
            let (low, high) = window(volumes, poc, steps);
            0 <= low <= poc <= high < volumes.len() && high - low == steps
        }),
    decreases steps,
{
    if steps > 0 {
        lemma_window(volumes, poc, (steps - 1) as nat);
    }
}

/// What a profile is made of: the places of the rows with volume, the place of the point of
/// control among them, and these rows in the order in which they are taken in around it.
#[derive(Debug)]
pub struct ProfilePlan {
    pub rows: Vec<usize>,
    pub poc: usize,
    pub order: Vec<usize>,
}

/// The plan of a profile over the volumes of the rows of a session.
pub open spec fn is_plan(plan: ProfilePlan, volumes: Seq<Bits64>) -> bool {
    let traded = traded_volumes(volumes);
    &&& plan.rows@ == traded_rows(volumes)
    &&& is_poc(traded, plan.poc as int)
    &&& plan.order@.len() == traded.len()
    &&& forall|k: int|
        0 <= k < plan.order@.len() ==> #[trigger] plan.order@[k] == taken(
            traded,
            plan.poc as int,
            k,
        )
}

fn find_traded(volumes: &Vec<Bits64>) -> (r: Vec<usize>)
    ensures
        r@ == traded_rows(volumes@),
{
    let mut r: Vec<usize> = Vec::new();
    let mut i: usize = 0;
    while i < volumes.len()
        invariant
            i <= volumes@.len(),
            r@ == traded_rows(volumes@.take(i as int)),
        decreases volumes@.len() - i,
    {
        assert(volumes@.take(i + 1).drop_last() =~= volumes@.take(i as int));
        if volumes[i].is_above(Bits64 { bits: 0 }) {
            r.push(i);
        }
        i = i + 1;
    }
    assert(volumes@.take(volumes@.len() as int) =~= volumes@);
    r
}

proof fn lemma_traded_rows(volumes: Seq<Bits64>)
    requires
        volumes.len() <= usize::MAX,
    ensures
        forall|k: int|
            0 <= k < traded_rows(volumes).len() ==> (#[trigger] traded_rows(volumes)[k])
                < volumes.len() && volumes[traded_rows(volumes)[k] as int].above(nought()),
        forall|a: int, b: int|
            0 <= a < b < traded_rows(volumes).len() ==> (#[trigger] traded_rows(volumes)[a]) < (
            #[trigger] traded_rows(volumes)[b]),
        traded_rows(volumes).len() <= volumes.len(),
    decreases volumes.len(),
{
    if volumes.len() > 0 {
        lemma_traded_rows(volumes.drop_last());
    }
}

fn pick(volumes: &Vec<Bits64>, rows: &Vec<usize>) -> (r: Vec<Bits64>)
    requires
        rows@ == traded_rows(volumes@),
    ensures
        r@ == traded_volumes(volumes@),
{
    assert(volumes@.len() == volumes.len());
    proof {
        lemma_traded_rows(volumes@);
    }
    let mut r: Vec<Bits64> = Vec::new();
    let mut i: usize = 0;
    while i < rows.len()
        invariant
            i <= rows@.len(),
            rows@ == traded_rows(volumes@),
            forall|k: int| 0 <= k < rows@.len() ==> (#[trigger] rows@[k]) < volumes@.len(),
            r@.len() == i,
            forall|k: int| 0 <= k < i ==> #[trigger] r@[k] == volumes@[rows@[k] as int],
        decreases rows@.len() - i,
    {
        r.push(volumes[rows[i]]);
        i = i + 1;
    }
    assert(r@ =~= traded_volumes(volumes@));
    r
}

fn find_poc(volumes: &Vec<Bits64>) -> (r: usize)
    requires
        volumes@.len() > 0,
    ensures
        is_poc(volumes@, r as int),
{
    let mut best: usize = 0;
    let mut i: usize = 1;
    while i < volumes.len()
        invariant
            1 <= i <= volumes@.len(),
            best < i,
            forall|j: int|
                0 <= j < i ==> (#[trigger] volumes@[j]).rank() <= volumes@[best as int].rank(),
            forall|j: int|
                best < j < i ==> (#[trigger] volumes@[j]).rank() < volumes@[best as int].rank(),
        decreases volumes@.len() - i,
    {
        if volumes[i].total_rank() >= volumes[best].total_rank() {
            best = i;
        }
        i = i + 1;
    }
    best
}

fn goes_up(volumes: &Vec<Bits64>, low: usize, high: usize) -> (r: bool)
    requires
        low <= high < volumes@.len(),
    ensures
        r == grows_up(volumes@, low as int, high as int),
{
    let count: usize = volumes.len();
    high + 1 < count && (low == 0 || volumes[low - 1].is_at_most(volumes[high + 1]))
}

/// Plans the profile of a session from the volumes of its rows; nothing where no row has
/// volume.
pub fn plan_profile(volumes: &Vec<Bits64>) -> (r: Option<ProfilePlan>)
    ensures
        r is None <==> traded_rows(volumes@).len() == 0,
        r is Some ==> is_plan(r->0, volumes@),
{
    let rows = find_traded(volumes);
    if rows.len() == 0 {
        return None;
    }
    let traded = pick(volumes, &rows);
    let poc: usize = find_poc(&traded);
    let mut order: Vec<usize> = Vec::new();
    order.push(poc);
    let mut low: usize = poc;
    let mut high: usize = poc;
    while order.len() < traded.len()
        invariant
            is_poc(traded@, poc as int),
            1 <= order@.len() <= traded@.len(),
            low <= poc <= high < traded@.len(),
            high - low == order@.len() - 1,
            (low as int, high as int) == window(traded@, poc as int, (order@.len() - 1) as nat),
            forall|k: int|
                0 <= k < order@.len() ==> #[trigger] order@[k] == taken(traded@, poc as int, k),
        decreases traded@.len() - order@.len(),
    {
        if goes_up(&traded, low, high) {
            high = high + 1;
            order.push(high);
        } else {
            low = low - 1;
            order.push(low);
        }
    }
    Some(ProfilePlan { rows, poc, order })
}

/// How many neighbours are taken in: as long as the sum that is included so far stays below
/// the target and there are more rows.
pub open spec fn steps_taken(included: Seq<Bits64>, target: Bits64, from: nat) -> nat
    decreases included.len() - from,
{
    if from + 1 < included.len() && target.above(included[from as int]) {
        steps_taken(included, target, from + 1)
    } else {
        from
    }
}

/// The sums of a session. `volumes` are those of its rows. `included` are the sums of the
/// volumes of the rows with volume, taken in one after the other in the order of the plan, and
/// `target` is the share of the whole volume that the value area is to hold.
#[derive(Debug)]
pub struct ProfileFigures {
    pub volumes: Vec<Bits64>,
    pub included: Vec<Bits64>,
    pub target: Bits64,
}

impl ProfileFigures {
    /// The figures fit a session.
    pub open spec fn fits(self, session: SessionBins) -> bool {
        &&& self.volumes@.len() == session.bins@.len()
        &&& self.included@.len() == traded_rows(self.volumes@).len()
    }
}

/// The profile of one session.
pub open spec fn is_profile_of(
    profile: SessionProfile,
    place: int,
    session: SessionBins,
    figures: ProfileFigures,
    row: i64,
) -> bool {
    let places = traded_rows(figures.volumes@);
    let traded = traded_volumes(figures.volumes@);
    &&& profile.session == place
    &&& profile.start == session.start
    &&& profile.end == session.end
    &&& profile.high == session.high
    &&& profile.low == session.low
    &&& profile.rows@.len() == places.len()
    &&& forall|k: int|
        0 <= k < profile.rows@.len() ==> (#[trigger] profile.rows@[k]).bin == places[k]
            && profile.rows@[k].price.units == clamp_i64(
            session.bins@[places[k] as int].units + row / 2,
        )
    &&& is_poc(traded, profile.poc as int)
    &&& (profile.value_area_low as int, profile.value_area_high as int) == window(
        traded,
        profile.poc as int,
        steps_taken(figures.included@, figures.target, 0),
    )
}

/// The profiles of the first `n` sessions, of those that have volume, in order.
pub open spec fn are_profiles(
    profiles: Seq<SessionProfile>,
    list: Seq<SessionBins>,
    figures: Seq<ProfileFigures>,
    row: i64,
    n: int,
) -> bool
    decreases n,
{
    if n <= 0 {
        profiles.len() == 0
    } else if traded_rows(figures[n - 1].volumes@).len() == 0 {
        are_profiles(profiles, list, figures, row, n - 1)
    } else {
        &&& profiles.len() > 0
        &&& is_profile_of(profiles.last(), n - 1, list[n - 1], figures[n - 1], row)
        &&& are_profiles(profiles.drop_last(), list, figures, row, n - 1)
    }
}

fn find_value_area(traded: &Vec<Bits64>, poc: usize, included: &Vec<Bits64>, target: Bits64) -> (r: (
    usize,
    usize,
))
    requires
        is_poc(traded@, poc as int),
        included@.len() == traded@.len(),
    ensures
        (r.0 as int, r.1 as int) == window(
            traded@,
            poc as int,
            steps_taken(included@, target, 0),
        ),
{
    let mut low: usize = poc;
    let mut high: usize = poc;
    let mut steps: usize = 0;
    let count: usize = included.len();
    while steps + 1 < count && target.is_above(included[steps])
        invariant
            is_poc(traded@, poc as int),
            included@.len() == traded@.len(),
            count == included@.len(),
            steps < count,
            low <= poc <= high < traded@.len(),
            high - low == steps,
            (low as int, high as int) == window(traded@, poc as int, steps as nat),
            steps_taken(included@, target, 0) == steps_taken(included@, target, steps as nat),
        decreases included@.len() - steps,
    {
        if goes_up(traded, low, high) {
            high = high + 1;
        } else {
            low = low - 1;
        }
        steps = steps + 1;
    }
    (low, high)
}

fn build_rows(session: &SessionBins, places: &Vec<usize>, row: i64) -> (r: Vec<ProfileRow>)
    requires
        forall|k: int| 0 <= k < places@.len() ==> (#[trigger] places@[k]) < session.bins@.len(),
        row >= 1,
    ensures
        r@.len() == places@.len(),
        forall|k: int|
            0 <= k < r@.len() ==> (#[trigger] r@[k]).bin == places@[k] && r@[k].price.units
                == clamp_i64(session.bins@[places@[k] as int].units + row / 2),
{
    let mut r: Vec<ProfileRow> = Vec::new();
    for i in 0..places.len()
        invariant
            row >= 1,
            forall|k: int| 0 <= k < places@.len() ==> (#[trigger] places@[k]) < session.bins@.len(),
            r@.len() == i,
            forall|k: int|
                0 <= k < i ==> (#[trigger] r@[k]).bin == places@[k] && r@[k].price.units
                    == clamp_i64(session.bins@[places@[k] as int].units + row / 2),
    {
        let bin: usize = places[i];
        let middle: i64 = to_i64(session.bins[bin].units as i128 + (row / 2) as i128);
        r.push(ProfileRow { price: Price { units: middle }, bin });
    }
    r
}

/// The profiles of sessions from the sums of what was traded in their rows: the rows with
/// volume, the row with the most, and the rows around it that hold the target.
pub fn build_session_profiles(
    list: &Vec<SessionBins>,
    figures: &Vec<ProfileFigures>,
    tick_units: i64,
    row_size_ticks: u32,
) -> (r: Vec<SessionProfile>)
    requires
        figures@.len() == list@.len(),
        forall|k: int| 0 <= k < list@.len() ==> (#[trigger] figures@[k]).fits(list@[k]),
    ensures
        are_profiles(
            r@,
            list@,
            figures@,
            row_height(tick_units, row_size_ticks),
            list@.len() as int,
        ),
{
    let row: i64 = row_units(tick_units, row_size_ticks);
    let mut r: Vec<SessionProfile> = Vec::new();
    let mut i: usize = 0;
    while i < list.len()
        invariant
            row >= 1,
            i <= list@.len(),
            figures@.len() == list@.len(),
            forall|k: int| 0 <= k < list@.len() ==> (#[trigger] figures@[k]).fits(list@[k]),
            are_profiles(r@, list@, figures@, row, i as int),
        decreases list@.len() - i,
    {
        let session = &list[i];
        let sums = &figures[i];
        let ghost before = r@;
        assert(figures@[i as int].fits(list@[i as int]));
        let places = find_traded(&sums.volumes);
        assert(sums.volumes@.len() == sums.volumes.len());
        proof {
            lemma_traded_rows(sums.volumes@);
        }
        if places.len() > 0 {
            let traded = pick(&sums.volumes, &places);
            let poc: usize = find_poc(&traded);
            let (value_area_low, value_area_high) = find_value_area(
                &traded,
                poc,
                &sums.included,
                sums.target,
            );
            let rows = build_rows(session, &places, row);
            r.push(
                SessionProfile {
                    session: i,
                    start: session.start,
                    end: session.end,
                    rows,
                    poc,
                    value_area_high,
                    value_area_low,
                    high: session.high,
                    low: session.low,
                },
            );
            assert(r@.drop_last() =~= before);
        }
        i = i + 1;
    }
    r
}

proof fn lemma_steps(included: Seq<Bits64>, target: Bits64, from: nat)
    requires
        from < included.len(),
    ensures
        from <= steps_taken(included, target, from) < included.len(),
        !target.above(included[steps_taken(included, target, from) as int]) || steps_taken(
            included,
            target,
            from,
        ) == included.len() - 1,
        forall|k: int|
            from <= k < steps_taken(included, target, from) ==> target.above(
                #[trigger] included[k],
            ),
    decreases included.len() - from,
{
    if from + 1 < included.len() && target.above(included[from as int]) {
        lemma_steps(included, target, from + 1);
    }
}

/// The value area lies around the point of control. What it includes is not below the target,
/// unless it holds every row, and it was with every row fewer.
pub proof fn value_areas_reach_the_target(
    profile: SessionProfile,
    place: int,
    session: SessionBins,
    figures: ProfileFigures,
    row: i64,
)
    requires
        figures.fits(session),
        is_profile_of(profile, place, session, figures, row),
    ensures
        profile.value_area_low <= profile.poc <= profile.value_area_high < profile.rows@.len(),
        ({
            let steps = profile.value_area_high - profile.value_area_low;
            &&& !figures.target.above(figures.included@[steps]) || (profile.value_area_low == 0
                && profile.value_area_high == profile.rows@.len() - 1)
            &&& forall|k: int|
                0 <= k < steps ==> figures.target.above(#[trigger] figures.included@[k])
        }),
{
    let traded = traded_volumes(figures.volumes@);
    lemma_steps(figures.included@, figures.target, 0);
    lemma_window(
        traded,
        profile.poc as int,
        steps_taken(figures.included@, figures.target, 0),
    );
}

/// Each profile belongs to one of the sessions, and no row without volume is shown.
pub proof fn profiles_show_traded_rows_only(
    profiles: Seq<SessionProfile>,
    list: Seq<SessionBins>,
    figures: Seq<ProfileFigures>,
    row: i64,
    n: int,
    k: int,
)
    requires
        are_profiles(profiles, list, figures, row, n),
        0 <= n <= list.len(),
        figures.len() == list.len(),
        forall|i: int| 0 <= i < list.len() ==> (#[trigger] figures[i]).fits(list[i]),
        0 <= k < profiles.len(),
    ensures
        profiles[k].session < n,
        profiles[k].start == list[profiles[k].session as int].start,
        forall|i: int|
            0 <= i < profiles[k].rows@.len() ==> figures[profiles[k].session as int].volumes@[(
            #[trigger] profiles[k].rows@[i]).bin as int].above(nought()),
    decreases n,
{
    if n > 0 {
        if traded_rows(figures[n - 1].volumes@).len() == 0 {
            profiles_show_traded_rows_only(profiles, list, figures, row, n - 1, k);
        } else if k < profiles.len() - 1 {
            assert(profiles.drop_last()[k] == profiles[k]);
            profiles_show_traded_rows_only(profiles.drop_last(), list, figures, row, n - 1, k);
        } else {
            assert(figures[n - 1].fits(list[n - 1]));
            assert(figures[n - 1].volumes@.len() == figures[n - 1].volumes.len());
            lemma_traded_rows(figures[n - 1].volumes@);
        }
    }
}

/// The profiles of sessions that ascend ascend too.
pub proof fn profiles_ascend(
    profiles: Seq<SessionProfile>,
    list: Seq<SessionBins>,
    figures: Seq<ProfileFigures>,
    row: i64,
    n: int,
)
    requires
        are_profiles(profiles, list, figures, row, n),
        0 <= n <= list.len(),
        forall|a: int, b: int|
            0 <= a < b < list.len() ==> (#[trigger] list[a]).start < (#[trigger] list[b]).start,
    ensures
        forall|a: int, b: int|
            0 <= a < b < profiles.len() ==> (#[trigger] profiles[a]).start < (
            #[trigger] profiles[b]).start,
        forall|k: int|
            0 <= k < profiles.len() ==> n > 0 && (#[trigger] profiles[k]).start <= list[n
                - 1].start,
    decreases n,
{
    if n > 0 {
        if n > 1 {
            assert(list[n - 2].start < list[n - 1].start);
        }
        if traded_rows(figures[n - 1].volumes@).len() == 0 {
            profiles_ascend(profiles, list, figures, row, n - 1);
        } else {
            let head = profiles.drop_last();
            profiles_ascend(head, list, figures, row, n - 1);
            assert forall|k: int| 0 <= k < head.len() implies (#[trigger] profiles[k]).start < list[n
                - 1].start by {
                assert(head[k].start <= list[n - 2].start);
            }
            assert forall|a: int, b: int| 0 <= a < b < profiles.len() implies (
            #[trigger] profiles[a]).start < (#[trigger] profiles[b]).start by {
                if b < head.len() {
                    assert(head[a].start < head[b].start);
                }
            }
        }
    }
}

/// Candles in ascending order of time.
pub open spec fn ascending(candles: Seq<FootprintCandle>) -> bool {
    forall|i: int, j: int|
        0 <= i <= j < candles.len() ==> (#[trigger] candles[i]).time.ms <= (
        #[trigger] candles[j]).time.ms
}

/// The sessions of candles in ascending order ascend too, so that no session occurs twice.
pub proof fn sessions_ascend(candles: Seq<FootprintCandle>, session_ms: u64)
    requires
        session_ms > 0,
        ascending(candles),
    ensures
        forall|a: int, b: int|
            0 <= a < b < grouped(candles, session_ms).len() ==> (#[trigger] grouped(
                candles,
                session_ms,
            )[a]).start < (#[trigger] grouped(candles, session_ms)[b]).start,
        candles.len() > 0 ==> forall|k: int|
            0 <= k < grouped(candles, session_ms).len() ==> (#[trigger] grouped(
                candles,
                session_ms,
            )[k]).start <= sessions::session_start(candles.last().time.ms, session_ms),
    decreases candles.len(),
{
    if candles.len() > 0 {
        let front = candles.drop_last();
        assert forall|i: int, j: int| 0 <= i <= j < front.len() implies (
        #[trigger] front[i]).time.ms <= (#[trigger] front[j]).time.ms by {
            assert(candles[i].time.ms <= candles[j].time.ms);
        }
        sessions_ascend(front, session_ms);
        let head = grouped(front, session_ms);
        let all = grouped(candles, session_ms);
        let start = sessions::session_start(candles.last().time.ms, session_ms);
        if front.len() > 0 {
            assert(candles[front.len() - 1].time.ms <= candles[candles.len() - 1].time.ms);
            sessions::session_starts_are_monotone(
                front.last().time.ms,
                candles.last().time.ms,
                session_ms,
            );
        }
        assert forall|k: int| 0 <= k < head.len() implies (#[trigger] head[k]).start <= start by {
            if front.len() == 0 {
                assert(head.len() == 0);
            }
        }
        assert forall|k: int| 0 <= k < all.len() implies (#[trigger] all[k]).start <= start by {
            if k < head.len() {
                assert(head[k].start <= start);
            }
        }
        assert forall|a: int, b: int| 0 <= a < b < all.len() implies (#[trigger] all[a]).start < (
        #[trigger] all[b]).start by {
            if b < head.len() {
                assert(head[a].start < head[b].start);
                assert(all[a].start == head[a].start);
                assert(all[b].start == head[b].start);
            } else {
                assert(all[a] == head[a]);
                assert(all[b].start == start);
                assert(head[a].start <= start);
                let last = head.len() - 1;
                if a < last {
                    assert(head[a].start < head[last].start);
                    assert(head[last].start <= start);
                } else {
                    assert(head.last().start != start);
                }
            }
        }
    }
}

/// What was traded in a list of price levels.
pub open spec fn traded_volume(levels: Seq<PriceLevel>) -> int
    decreases levels.len(),
{
    if levels.len() == 0 {
        0
    } else {
        traded_volume(levels.drop_last()) + levels.last().buy.units + levels.last().sell.units
    }
}

/// The candles of one session at which an average is shown: from the first trade on.
#[derive(Debug)]
pub struct VwapSession {
    pub start: u64,
    pub volume: i128,
    pub points: Vec<usize>,
}

/// The same over mathematical numbers.
pub struct VwapModel {
    pub start: u64,
    pub volume: int,
    pub points: Seq<usize>,
}

impl View for VwapSession {
    type V = VwapModel;

    open spec fn view(&self) -> VwapModel {
        VwapModel { start: self.start, volume: self.volume as int, points: self.points@ }
    }
}

/// The sessions of the candles from `from` to `to`: each begins with no volume, adds what
/// its candles traded, and shows a point at each candle once there is volume. A point is the
/// place of its candle in the whole list.
pub open spec fn vwap_sessions(
    candles: Seq<FootprintCandle>,
    anchor_ms: u64,
    from: u64,
    to: u64,
) -> Seq<VwapModel>
    decreases candles.len(),
{
    if candles.len() == 0 {
        seq![]
    } else if !(from <= candles.last().time.ms <= to) {
        vwap_sessions(candles.drop_last(), anchor_ms, from, to)
    } else {
        let head = vwap_sessions(candles.drop_last(), anchor_ms, from, to);
        let candle = candles.last();
        let start = sessions::session_start(candle.time.ms, anchor_ms);
        let place = (candles.len() - 1) as usize;
        let continues = head.len() > 0 && head.last().start == start;
        let volume = (if continues {
            head.last().volume
        } else {
            0
        }) + traded_volume(candle.levels@);
        let held = if continues {
            head.last().points
        } else {
            seq![]
        };
        let session = VwapModel {
            start,
            volume,
            points: if volume > 0 {
                held.push(place)
            } else {
                held
            },
        };
        if continues {
            head.drop_last().push(session)
        } else {
            head.push(session)
        }
    }
}

/// The sessions that show a point.
pub open spec fn shown_sessions(list: Seq<VwapModel>) -> Seq<VwapModel>
    decreases list.len(),
{
    if list.len() == 0 {
        seq![]
    } else if list.last().points.len() > 0 {
        shown_sessions(list.drop_last()).push(list.last())
    } else {
        shown_sessions(list.drop_last())
    }
}

/// The contents of a list of sessions.
pub open spec fn models(list: Seq<VwapSession>) -> Seq<VwapModel> {
    list.map_values(|session: VwapSession| session@)
}

fn candle_volume(levels: &Vec<PriceLevel>) -> (r: i128)
    requires
        levels@.len() <= MAX_LEVELS,
    ensures
        r == traded_volume(levels@),
        -2 * sum_bound(levels@.len()) <= r <= 2 * sum_bound(levels@.len()),
{
    let mut r: i128 = 0;
    let mut i: usize = 0;
    while i < levels.len()
        invariant
            i <= levels@.len(),
            levels@.len() <= MAX_LEVELS,
            r == traded_volume(levels@.take(i as int)),
            -2 * sum_bound(i as nat) <= r <= 2 * sum_bound(i as nat),
        decreases levels@.len() - i,
    {
        assert(levels@.take(i + 1).drop_last() =~= levels@.take(i as int));
        r = r + levels[i].buy.units as i128 + levels[i].sell.units as i128;
        i = i + 1;
    }
    assert(levels@.take(levels@.len() as int) =~= levels@);
    r
}

proof fn lemma_vwap_volumes(candles: Seq<FootprintCandle>, anchor_ms: u64, from: u64, to: u64)
    ensures
        forall|k: int|
            0 <= k < vwap_sessions(candles, anchor_ms, from, to).len() ==> -2 * sum_bound(
                level_count(candles),
            ) <= (#[trigger] vwap_sessions(candles, anchor_ms, from, to)[k]).volume <= 2 * sum_bound(
                level_count(candles),
            ),
    decreases candles.len(),
{
    if candles.len() > 0 {
        lemma_vwap_volumes(candles.drop_last(), anchor_ms, from, to);
        lemma_traded_bound(candles.last().levels@);
        let head = vwap_sessions(candles.drop_last(), anchor_ms, from, to);
        let all = vwap_sessions(candles, anchor_ms, from, to);
        assert forall|k: int| 0 <= k < all.len() implies -2 * sum_bound(level_count(candles)) <= (
        #[trigger] all[k]).volume <= 2 * sum_bound(level_count(candles)) by {
            if k < head.len() {
                assert(-2 * sum_bound(level_count(candles.drop_last())) <= head[k].volume <= 2
                    * sum_bound(level_count(candles.drop_last())));
            }
        }
    }
}

proof fn lemma_traded_bound(levels: Seq<PriceLevel>)
    ensures
        -2 * sum_bound(levels.len()) <= traded_volume(levels) <= 2 * sum_bound(levels.len()),
    decreases levels.len(),
{
    if levels.len() > 0 {
        lemma_traded_bound(levels.drop_last());
    }
}

/// The candles at which an anchored average is shown, session by session, of those from the
/// start of the session that holds `earliest` to `latest`.
pub fn build_vwap_sessions(
    candles: &Vec<FootprintCandle>,
    earliest: u64,
    latest: u64,
    anchor_ms: u64,
) -> (r: Vec<VwapSession>)
    requires
        anchor_ms > 0,
        sessions::session_start(earliest, anchor_ms) <= latest,
        level_count(candles@) <= MAX_LEVELS,
    ensures
        models(r@) == shown_sessions(
            vwap_sessions(
                candles@,
                anchor_ms,
                sessions::session_start(earliest, anchor_ms),
                latest,
            ),
        ),
{
    let from: u64 = align_session_start(earliest, anchor_ms);
    let to: u64 = latest;
    let mut all: Vec<VwapSession> = Vec::new();
    let mut i: usize = 0;
    assert(models(all@) =~= vwap_sessions(candles@.take(0), anchor_ms, from, to));
    while i < candles.len()
        invariant
            anchor_ms > 0,
            level_count(candles@) <= MAX_LEVELS,
            i <= candles@.len(),
            models(all@) == vwap_sessions(candles@.take(i as int), anchor_ms, from, to),
        decreases candles@.len() - i,
    {
        let ghost shorter = candles@.take(i as int);
        let ghost longer = candles@.take(i + 1);
        let ghost before = all@;
        proof {
            assert(longer.drop_last() =~= shorter);
            assert(longer.last() == candles@[i as int]);
            lemma_level_count_prefix(candles@, i + 1);
            lemma_vwap_volumes(shorter, anchor_ms, from, to);
        }
        let candle = &candles[i];
        if !(from <= candle.time.ms && candle.time.ms <= to) {
            i = i + 1;
            continue;
        }
        let start: u64 = align_session_start(candle.time.ms, anchor_ms);
        let count: usize = all.len();
        if count == 0 || all[count - 1].start != start {
            proof {
                if count > 0 {
                    assert(models(before)[count - 1] == before[count - 1]@);
                }
            }
            let volume: i128 = candle_volume(&candle.levels);
            let mut points: Vec<usize> = Vec::new();
            if volume > 0 {
                points.push(i);
            }
            let session = VwapSession { start, volume, points };
            all.push(session);
            proof {
                assert(session.points@ =~= vwap_sessions(longer, anchor_ms, from, to).last().points);
                assert(models(all@) =~= vwap_sessions(longer, anchor_ms, from, to));
            }
        } else {
            proof {
                assert(models(before)[count - 1] == before[count - 1]@);
            }
            let added: i128 = candle_volume(&candle.levels);
            match all.pop() {
                Some(mut session) => {
                    session.volume = session.volume + added;
                    if session.volume > 0 {
                        session.points.push(i);
                    }
                    all.push(session);
                    proof {
                        assert(all@[count - 1]@ == vwap_sessions(longer, anchor_ms, from, to)[count - 1]);
                        assert forall|k: int| 0 <= k < count - 1 implies models(all@)[k]
                            == vwap_sessions(longer, anchor_ms, from, to)[k] by {
                            assert(all@[k] == before[k]);
                            assert(models(before)[k] == before[k]@);
                        }
                        assert(models(all@) =~= vwap_sessions(longer, anchor_ms, from, to));
                    }
                },
                None => {},
            }
        }
        i = i + 1;
    }
    assert(candles@.take(candles@.len() as int) =~= candles@);
    let ghost list = all@;
    let mut r: Vec<VwapSession> = Vec::new();
    assert(models(r@) =~= shown_sessions(models(list).take(0)));
    for session in it: all
        invariant
            it.seq() == list,
            models(r@) == shown_sessions(models(list).take(it.index())),
    {
        let ghost before = r@;
        proof {
            assert(models(list).take(it.index() + 1).drop_last() =~= models(list).take(
                it.index(),
            ));
            assert(models(list).take(it.index() + 1).last() == list[it.index()]@);
        }
        if session.points.len() > 0 {
            r.push(session);
            assert(models(r@) =~= models(before).push(session@));
        }
    }
    assert(models(list).take(models(list).len() as int) =~= models(list));
    r
}

} // verus!
