//! The cached records, when they are valid, and how a list of them is normalised.
use std::collections::BTreeSet;
use vstd::prelude::*;
use crate::connector::buckets::MAX_RECORDS_PER_BUCKET;
use crate::order;
use crate::order::{select_in_order, stable_order, SortKey};
use crate::units::{Bits32, Bits64, Price, Qty, UnixMs, Volume};

verus! {

/// A candle.
#[derive(Clone, Copy, Debug, PartialEq, Eq, Structural)]
pub struct Kline {
    pub time: UnixMs,
    pub open: Price,
    pub high: Price,
    pub low: Price,
    pub close: Price,
    pub volume: Volume,
}

/// One executed trade.
#[derive(Clone, Copy, Debug, PartialEq, Eq, Structural)]
pub struct Trade {
    pub id: Option<u64>,
    pub time: UnixMs,
    pub is_sell: bool,
    pub price: Price,
    pub qty: Qty,
}

/// The open interest at one moment.
#[derive(Clone, Copy, Debug, PartialEq, Eq, Structural)]
pub struct OpenInterest {
    pub time: UnixMs,
    pub value: Bits64,
}

/// A cluster of trades that may be drawn as a bubble.
#[derive(Clone, Copy, Debug, PartialEq, Eq, Structural)]
pub struct BubbleCandidate {
    pub id: u64,
    pub candle_time: UnixMs,
    pub first_time: UnixMs,
    pub last_time: UnixMs,
    pub weighted_time: UnixMs,
    pub vwap_price: Price,
    pub total_qty: Qty,
    pub buy_qty: Qty,
    pub sell_qty: Qty,
    pub delta_qty: Qty,
    pub trade_count: usize,
    pub largest_trade_qty: Qty,
    pub percentile_rank: Bits32,
    pub importance_score: Bits32,
}

/// The version of the clustering that stored summaries were computed with.
pub const BUBBLE_SUMMARY_ALGORITHM_VERSION: u16 = 2;

/// The clusters of one candle.
#[derive(Clone, Debug, PartialEq, Eq)]
pub struct BubbleVolumeSummary {
    pub candle_time: UnixMs,
    pub algorithm_version: u16,
    pub candidates: Vec<BubbleCandidate>,
}

impl BubbleVolumeSummary {
    /// A summary of the current clustering version.
    pub fn new(candle_time: UnixMs, candidates: Vec<BubbleCandidate>) -> (r: Self)
        ensures
            r.candle_time == candle_time,
            r.algorithm_version == BUBBLE_SUMMARY_ALGORITHM_VERSION,
            r.candidates == candidates,
    {
        BubbleVolumeSummary {
            candle_time,
            algorithm_version: BUBBLE_SUMMARY_ALGORITHM_VERSION,
            candidates,
        }
    }
}

/// `out` lists the records of `source` at the positions that `keep` admits, each once,
/// in the order that `before` gives.
pub open spec fn is_selection<T>(
    source: Seq<T>,
    out: Seq<T>,
    keep: spec_fn(int) -> bool,
    before: spec_fn(int, int) -> bool,
) -> bool {
    exists|at: Seq<usize>| #[trigger] is_selection_at(source, out, keep, before, at)
}

/// The same with the positions `at` of the listed records.
pub open spec fn is_selection_at<T>(
    source: Seq<T>,
    out: Seq<T>,
    keep: spec_fn(int) -> bool,
    before: spec_fn(int, int) -> bool,
    at: Seq<usize>,
) -> bool {
    &&& at.len() == out.len()
    &&& forall|k: int|
        0 <= k < at.len() ==> (#[trigger] at[k]) < source.len() && keep(at[k] as int) && out[k]
            == source[at[k] as int]
    &&& forall|a: int, b: int|
        0 <= a < b < at.len() ==> before(
            (#[trigger] at[a]) as int,
            (#[trigger] at[b]) as int,
        )
    &&& forall|i: int|
        0 <= i < source.len() && #[trigger] keep(i) ==> exists|k: int|
            0 <= k < at.len() && at[k] == i
}

/// A record that belongs to one moment.
pub trait Timed: Sized {
    /// The moment that places the record in a bucket.
    spec fn moment(&self) -> u64;

    fn timestamp(&self) -> (r: UnixMs)
        ensures
            r.ms == self.moment(),
    ;
}

/// What the cache needs of a record.
pub trait CacheRecord: Timed {
    /// Whether the figures of the record make sense together.
    spec fn valid(&self) -> bool;

    /// Whether `out` is the normal form of the list `source`.
    spec fn is_normal_form(source: Seq<Self>, out: Seq<Self>) -> bool;

    fn is_semantically_valid(&self) -> (r: bool)
        ensures
            r == self.valid(),
    ;

    fn normalize(records: Vec<Self>) -> (r: Vec<Self>)
        ensures
            Self::is_normal_form(records@, r@),
    ;

    /// A list has one normal form.
    proof fn normal_form_is_unique(source: Seq<Self>, a: Seq<Self>, b: Seq<Self>)
        requires
            Self::is_normal_form(source, a),
            Self::is_normal_form(source, b),
        ensures
            a == b,
    ;

    /// A normal form holds records of the list only.
    proof fn normal_form_holds_source_records(source: Seq<Self>, out: Seq<Self>, k: int)
        requires
            Self::is_normal_form(source, out),
            0 <= k < out.len(),
        ensures
            source.contains(out[k]),
    ;
}

/// The newest record of each moment, in ascending order of time.
pub open spec fn newest_per_moment<T: Timed>(source: Seq<T>, out: Seq<T>) -> bool {
    is_selection(
        source,
        out,
        |i: int| is_newest(source, i),
        |i: int, j: int| source[i].moment() < source[j].moment(),
    )
}

/// No later record of the list has the moment of the record at `i`.
pub open spec fn is_newest<T: Timed>(source: Seq<T>, i: int) -> bool {
    forall|j: int| i < j < source.len() ==> (#[trigger] source[j]).moment() != source[i].moment()
}

pub proof fn lemma_selection_is_unique<T>(
    source: Seq<T>,
    a: Seq<T>,
    b: Seq<T>,
    keep: spec_fn(int) -> bool,
    before: spec_fn(int, int) -> bool,
)
    requires
        is_selection(source, a, keep, before),
        is_selection(source, b, keep, before),
        forall|i: int, j: int| #[trigger] before(i, j) ==> !before(j, i),
    ensures
        a == b,
{
    let at = choose|at: Seq<usize>| #[trigger] is_selection_at(source, a, keep, before, at);
    let bt = choose|bt: Seq<usize>| #[trigger] is_selection_at(source, b, keep, before, bt);
    lemma_positions_agree(source, a, b, keep, before, at, bt, at.len() as int);
    lemma_positions_agree(source, b, a, keep, before, bt, at, bt.len() as int);
    assert(at =~= bt);
    assert forall|k: int| 0 <= k < a.len() implies a[k] == b[k] by {
        assert(at[k] == bt[k]);
    }
    assert(a =~= b);
}

proof fn lemma_positions_agree<T>(
    source: Seq<T>,
    a: Seq<T>,
    b: Seq<T>,
    keep: spec_fn(int) -> bool,
    before: spec_fn(int, int) -> bool,
    at: Seq<usize>,
    bt: Seq<usize>,
    n: int,
)
    requires
        is_selection_at(source, a, keep, before, at),
        is_selection_at(source, b, keep, before, bt),
        forall|i: int, j: int| #[trigger] before(i, j) ==> !before(j, i),
        0 <= n <= at.len(),
    ensures
        n <= bt.len(),
        forall|k: int| 0 <= k < n ==> at[k] == bt[k],
    decreases n,
{
    if n > 0 {
        let k = n - 1;
        lemma_positions_agree(source, a, b, keep, before, at, bt, k);
        assert(keep(at[k] as int));
        let i = choose|i: int| 0 <= i < bt.len() && bt[i] == at[k] as int;
        if i < k {
            assert(at[i] == at[k]);
            assert(before(at[i] as int, at[k] as int));
            assert(false);
        }
        if at[k] != bt[k] {
            assert(keep(bt[k] as int));
            let j = choose|j: int| 0 <= j < at.len() && at[j] == bt[k] as int;
            if j < k {
                assert(bt[j] == bt[k]);
                assert(before(bt[j] as int, bt[k] as int));
                assert(false);
            }
            assert(before(at[k] as int, at[j] as int));
            assert(before(bt[k] as int, bt[i] as int));
            assert(false);
        }
    }
}

/// Keeps the newest record of each moment and puts them in ascending order of time.
pub fn keep_newest<T: Timed>(records: Vec<T>) -> (out: Vec<T>)
    ensures
        newest_per_moment(records@, out@),
{
    let ghost source = records@;
    let mut keys: Vec<SortKey> = Vec::new();
    for index in 0..records.len()
        invariant
            records@ == source,
            keys@.len() == index,
            forall|k: int|
                0 <= k < index ==> #[trigger] keys@[k] == (source[k].moment(), 0u128),
    {
        keys.push((records[index].timestamp().as_u64(), 0));
    }
    let sorted = stable_order(&keys);
    let mut at: Vec<usize> = Vec::new();
    let mut k: usize = 0;
    let ghost keep = |i: int| is_newest(source, i);
    while k < sorted.len()
        invariant
            k <= sorted@.len(),
            keys@.len() == source.len(),
            forall|i: int|
                0 <= i < keys@.len() ==> #[trigger] keys@[i] == (source[i].moment(), 0u128),
            order::is_stable_order(keys@, 0, keys@.len() as int, sorted@),
            forall|i: int|
                0 <= i < at@.len() ==> (#[trigger] at@[i]) < source.len() && is_newest(
                    source,
                    at@[i] as int,
                ),
            forall|a: int, b: int|
                0 <= a < b < at@.len() ==> source[(#[trigger] at@[a]) as int].moment() < source[(
                #[trigger] at@[b]) as int].moment(),
            forall|i: int, m: int|
                0 <= i < at@.len() && k <= m < sorted@.len()
                    ==> source[(#[trigger] at@[i]) as int].moment() < source[(
                #[trigger] sorted@[m]) as int].moment(),
            forall|m: int|
                0 <= m < k && is_newest(source, (#[trigger] sorted@[m]) as int)
                    ==> at@.contains(sorted@[m]),
        decreases sorted@.len() - k,
    {
        let here: usize = sorted[k];
        let ghost before = at@;
        let last_of_moment: bool = k + 1 >= sorted.len() || keys[sorted[k + 1]].0
            != keys[here].0;
        proof {
            if last_of_moment {
                assert(is_newest(source, here as int)) by {
                    assert forall|j: int| here < j < source.len() implies (
                    #[trigger] source[j]).moment() != source[here as int].moment() by {
                        if source[j].moment() == source[here as int].moment() {
                            assert(sorted@.contains(j as usize));
                            let m = choose|m: int| 0 <= m < sorted@.len() && sorted@[m] == j;
                            if m <= k {
                                if m < k {
                                    assert(order::precedes(
                                        keys@,
                                        sorted@[m] as int,
                                        sorted@[k as int] as int,
                                    ));
                                }
                                assert(false);
                            }
                            assert(keys@[sorted@[k + 1] as int].0 >= keys@[here as int].0) by {
                                assert(order::precedes(
                                    keys@,
                                    sorted@[k as int] as int,
                                    sorted@[k + 1] as int,
                                ));
                            }
                            if m > k + 1 {
                                assert(order::precedes(
                                    keys@,
                                    sorted@[k + 1] as int,
                                    sorted@[m] as int,
                                ));
                            }
                            assert(false);
                        }
                    }
                }
            } else {
                let next = sorted@[k + 1] as int;
                assert(order::precedes(keys@, here as int, next));
                assert(source[next].moment() == source[here as int].moment());
                assert(!is_newest(source, here as int));
            }
        }
        if last_of_moment {
            at.push(here);
            proof {
                assert forall|i: int, m: int|
                    0 <= i < at@.len() && k + 1 <= m < sorted@.len() implies source[(
                #[trigger] at@[i]) as int].moment() < source[(
                #[trigger] sorted@[m]) as int].moment() by {
                    if i == before.len() {
                        assert(order::precedes(
                            keys@,
                            sorted@[k as int] as int,
                            sorted@[k + 1] as int,
                        ));
                        if m > k + 1 {
                            assert(order::precedes(
                                keys@,
                                sorted@[k + 1] as int,
                                sorted@[m] as int,
                            ));
                        }
                    }
                }
            }
        }
        proof {
            assert forall|m: int|
                0 <= m < k + 1 && is_newest(source, (#[trigger] sorted@[m]) as int) implies
                at@.contains(sorted@[m]) by {
                if m < k {
                    assert(before.contains(sorted@[m]));
                    let w = choose|w: int| 0 <= w < before.len() && before[w] == sorted@[m];
                    assert(at@[w] == sorted@[m]);
                } else {
                    assert(at@[before.len() as int] == here);
                }
            }
        }
        k = k + 1;
    }
    let out = select_in_order(records, &at);
    proof {
        let before = |i: int, j: int| source[i].moment() < source[j].moment();
        assert forall|i: int| 0 <= i < source.len() && #[trigger] keep(i) implies exists|k: int|
            0 <= k < at@.len() && at@[k] == i by {
            assert(sorted@.contains(i as usize));
            let m = choose|m: int| 0 <= m < sorted@.len() && sorted@[m] == i;
            assert(at@.contains(sorted@[m]));
        }
        assert(is_selection_at(source, out@, keep, before, at@));
    }
    out
}

/// No earlier record of the list has the moment of the record at `i`.
pub open spec fn is_oldest<T: Timed>(source: Seq<T>, i: int) -> bool {
    forall|j: int| 0 <= j < i ==> (#[trigger] source[j]).moment() != source[i].moment()
}

/// The first record of each moment, in ascending order of time.
pub open spec fn oldest_per_moment<T: Timed>(source: Seq<T>, out: Seq<T>) -> bool {
    is_selection(
        source,
        out,
        |i: int| is_oldest(source, i),
        |i: int, j: int| source[i].moment() < source[j].moment(),
    )
}

/// Keeps the first record of each moment and puts them in ascending order of time.
pub fn keep_oldest<T: Timed>(records: Vec<T>) -> (out: Vec<T>)
    ensures
        oldest_per_moment(records@, out@),
        out@.len() <= records@.len(),
{
    let ghost source = records@;
    let mut keys: Vec<SortKey> = Vec::new();
    for index in 0..records.len()
        invariant
            records@ == source,
            keys@.len() == index,
            forall|k: int|
                0 <= k < index ==> #[trigger] keys@[k] == (source[k].moment(), 0u128),
    {
        keys.push((records[index].timestamp().as_u64(), 0));
    }
    let sorted = stable_order(&keys);
    let mut at: Vec<usize> = Vec::new();
    let mut k: usize = 0;
    let ghost keep = |i: int| is_oldest(source, i);
    while k < sorted.len()
        invariant
            k <= sorted@.len(),
            at@.len() <= k,
            keys@.len() == source.len(),
            forall|i: int|
                0 <= i < keys@.len() ==> #[trigger] keys@[i] == (source[i].moment(), 0u128),
            order::is_stable_order(keys@, 0, keys@.len() as int, sorted@),
            forall|i: int|
                0 <= i < at@.len() ==> (#[trigger] at@[i]) < source.len() && is_oldest(
                    source,
                    at@[i] as int,
                ),
            forall|a: int, b: int|
                0 <= a < b < at@.len() ==> source[(#[trigger] at@[a]) as int].moment() < source[(
                #[trigger] at@[b]) as int].moment(),
            forall|i: int|
                0 <= i < at@.len() ==> k > 0 && source[(#[trigger] at@[i]) as int].moment()
                    <= source[sorted@[k - 1] as int].moment(),
            forall|m: int|
                0 <= m < k && is_oldest(source, (#[trigger] sorted@[m]) as int) ==> at@.contains(
                    sorted@[m],
                ),
        decreases sorted@.len() - k,
    {
        let here: usize = sorted[k];
        let ghost before = at@;
        let first_of_moment: bool = k == 0 || keys[sorted[k - 1]].0 != keys[here].0;
        proof {
            if k > 0 {
                assert(order::precedes(keys@, sorted@[k - 1] as int, sorted@[k as int] as int));
            }
            if first_of_moment {
                assert(is_oldest(source, here as int)) by {
                    assert forall|j: int| 0 <= j < here implies (#[trigger] source[j]).moment()
                        != source[here as int].moment() by {
                        if source[j].moment() == source[here as int].moment() {
                            assert(sorted@.contains(j as usize));
                            let m = choose|m: int| 0 <= m < sorted@.len() && sorted@[m] == j;
                            if m > k {
                                assert(order::precedes(
                                    keys@,
                                    sorted@[k as int] as int,
                                    sorted@[m] as int,
                                ));
                            } else if m < k - 1 {
                                assert(order::precedes(
                                    keys@,
                                    sorted@[m] as int,
                                    sorted@[k - 1] as int,
                                ));
                            }
                            assert(false);
                        }
                    }
                }
            } else {
                let previous = sorted@[k - 1] as int;
                assert(source[previous].moment() == source[here as int].moment());
                assert(!is_oldest(source, here as int));
            }
        }
        if first_of_moment {
            at.push(here);
        }
        proof {
            assert forall|m: int|
                0 <= m < k + 1 && is_oldest(source, (#[trigger] sorted@[m]) as int) implies
                at@.contains(sorted@[m]) by {
                if m < k {
                    assert(before.contains(sorted@[m]));
                    let w = choose|w: int| 0 <= w < before.len() && before[w] == sorted@[m];
                    assert(at@[w] == sorted@[m]);
                } else {
                    assert(at@[before.len() as int] == here);
                }
            }
        }
        k = k + 1;
    }
    let out = select_in_order(records, &at);
    proof {
        let before = |i: int, j: int| source[i].moment() < source[j].moment();
        assert forall|i: int| 0 <= i < source.len() && #[trigger] keep(i) implies exists|k: int|
            0 <= k < at@.len() && at@[k] == i by {
            assert(sorted@.contains(i as usize));
            let m = choose|m: int| 0 <= m < sorted@.len() && sorted@[m] == i;
            assert(at@.contains(sorted@[m]));
        }
        assert(is_selection_at(source, out@, keep, before, at@));
    }
    out
}

pub open spec fn candle_valid(kline: Kline) -> bool {
    &&& kline.open.units > 0
    &&& kline.high.units > 0
    &&& kline.low.units > 0
    &&& kline.close.units > 0
    &&& kline.high.units >= kline.low.units
    &&& kline.low.units <= kline.open.units <= kline.high.units
    &&& kline.low.units <= kline.close.units <= kline.high.units
    &&& match kline.volume {
        Volume::TotalOnly(total) => total.units >= 0,
        Volume::BuySell(buy, sell) => buy.units >= 0 && sell.units >= 0,
    }
}

impl Timed for Kline {
    open spec fn moment(&self) -> u64 {
        self.time.ms
    }

    fn timestamp(&self) -> (r: UnixMs) {
        self.time
    }
}

impl CacheRecord for Kline {
    open spec fn valid(&self) -> bool {
        candle_valid(*self)
    }

    open spec fn is_normal_form(source: Seq<Self>, out: Seq<Self>) -> bool {
        newest_per_moment(source, out)
    }

    fn is_semantically_valid(&self) -> (r: bool) {
        let prices_are_valid: bool = self.open.units > 0 && self.high.units > 0 && self.low.units
            > 0 && self.close.units > 0 && self.high.units >= self.low.units && self.high.units
            >= self.open.units && self.high.units >= self.close.units && self.low.units
            <= self.open.units && self.low.units <= self.close.units;
        let volume_is_valid: bool = match self.volume {
            Volume::TotalOnly(total) => total.units >= 0,
            Volume::BuySell(buy, sell) => buy.units >= 0 && sell.units >= 0,
        };
        prices_are_valid && volume_is_valid
    }

    fn normalize(records: Vec<Self>) -> (r: Vec<Self>) {
        keep_newest(records)
    }

    proof fn normal_form_is_unique(source: Seq<Self>, a: Seq<Self>, b: Seq<Self>) {
        lemma_selection_is_unique(
            source,
            a,
            b,
            |i: int| is_newest(source, i),
            |i: int, j: int| source[i].moment() < source[j].moment(),
        );
    }

    proof fn normal_form_holds_source_records(source: Seq<Self>, out: Seq<Self>, k: int) {
        lemma_newest_holds_source(source, out, k);
    }
}

proof fn lemma_newest_holds_source<T: Timed>(source: Seq<T>, out: Seq<T>, k: int)
    requires
        newest_per_moment(source, out),
        0 <= k < out.len(),
    ensures
        source.contains(out[k]),
{
    let keep = |i: int| is_newest(source, i);
    let before = |i: int, j: int| source[i].moment() < source[j].moment();
    let at = choose|at: Seq<usize>| #[trigger] is_selection_at(source, out, keep, before, at);
    assert(out[k] == source[at[k] as int]);
}

impl Timed for OpenInterest {
    open spec fn moment(&self) -> u64 {
        self.time.ms
    }

    fn timestamp(&self) -> (r: UnixMs) {
        self.time
    }
}

impl CacheRecord for OpenInterest {
    open spec fn valid(&self) -> bool {
        self.value.finite() && self.value.not_below_zero()
    }

    open spec fn is_normal_form(source: Seq<Self>, out: Seq<Self>) -> bool {
        newest_per_moment(source, out)
    }

    fn is_semantically_valid(&self) -> (r: bool) {
        self.value.is_finite() && self.value.is_not_below_zero()
    }

    fn normalize(records: Vec<Self>) -> (r: Vec<Self>) {
        keep_newest(records)
    }

    proof fn normal_form_is_unique(source: Seq<Self>, a: Seq<Self>, b: Seq<Self>) {
        lemma_selection_is_unique(
            source,
            a,
            b,
            |i: int| is_newest(source, i),
            |i: int, j: int| source[i].moment() < source[j].moment(),
        );
    }

    proof fn normal_form_holds_source_records(source: Seq<Self>, out: Seq<Self>, k: int) {
        lemma_newest_holds_source(source, out, k);
    }
}

/// Trades are ordered by time, then by id; a trade without an id comes first.
pub open spec fn trade_key(trade: Trade) -> SortKey {
    (
        trade.time.ms,
        match trade.id {
            Some(id) => (id + 1) as u128,
            None => 0u128,
        },
    )
}

pub open spec fn trade_keys(trades: Seq<Trade>) -> Seq<SortKey> {
    trades.map_values(|trade: Trade| trade_key(trade))
}

/// No other trade of the list has the id of the trade at `i` and comes before it. A
/// trade without an id is never taken for another one.
pub open spec fn is_first_of_id(trades: Seq<Trade>, i: int) -> bool {
    trades[i].id matches Some(id) ==> forall|j: int|
        0 <= j < trades.len() && j != i && (#[trigger] trades[j]).id == Some(id)
            ==> order::precedes(trade_keys(trades), i, j)
}

/// The first trade of each id and every trade without one, ordered by time and id.
pub open spec fn ordered_without_repeats(source: Seq<Trade>, out: Seq<Trade>) -> bool {
    is_selection(
        source,
        out,
        |i: int| is_first_of_id(source, i),
        |i: int, j: int| order::precedes(trade_keys(source), i, j),
    )
}

/// Orders trades by time and id and drops all but the first of each id.
pub fn order_trades(records: Vec<Trade>) -> (out: Vec<Trade>)
    ensures
        ordered_without_repeats(records@, out@),
{
    let ghost source = records@;
    let mut keys: Vec<SortKey> = Vec::new();
    for index in 0..records.len()
        invariant
            records@ == source,
            keys@.len() == index,
            forall|k: int| 0 <= k < index ==> #[trigger] keys@[k] == trade_key(source[k]),
    {
        let trade: Trade = records[index];
        let rank: u128 = match trade.id {
            Some(id) => id as u128 + 1,
            None => 0,
        };
        keys.push((trade.time.as_u64(), rank));
    }
    assert(keys@ =~= trade_keys(source));
    let sorted = stable_order(&keys);
    let mut seen: BTreeSet<u64> = BTreeSet::new();
    let mut at: Vec<usize> = Vec::new();
    let mut k: usize = 0;
    let ghost keep = |i: int| is_first_of_id(source, i);
    let ghost before = |i: int, j: int| order::precedes(trade_keys(source), i, j);
    while k < sorted.len()
        invariant
            k <= sorted@.len(),
            records@ == source,
            keys@ == trade_keys(source),
            keys@.len() == source.len(),
            order::is_stable_order(keys@, 0, keys@.len() as int, sorted@),
            forall|id: u64| #[trigger]
                seen@.contains(id) == exists|m: int|
                    0 <= m < k && source[(#[trigger] sorted@[m]) as int].id == Some(id),
            forall|i: int|
                0 <= i < at@.len() ==> (#[trigger] at@[i]) < source.len() && is_first_of_id(
                    source,
                    at@[i] as int,
                ),
            forall|a: int, b: int|
                0 <= a < b < at@.len() ==> order::precedes(
                    keys@,
                    (#[trigger] at@[a]) as int,
                    (#[trigger] at@[b]) as int,
                ),
            forall|i: int, m: int|
                0 <= i < at@.len() && k <= m < sorted@.len() ==> order::precedes(
                    keys@,
                    (#[trigger] at@[i]) as int,
                    (#[trigger] sorted@[m]) as int,
                ),
            forall|m: int|
                0 <= m < k && is_first_of_id(source, (#[trigger] sorted@[m]) as int)
                    ==> at@.contains(sorted@[m]),
        decreases sorted@.len() - k,
    {
        let here: usize = sorted[k];
        let ghost at_before = at@;
        let ghost seen_before = seen@;
        let first: bool = match records[here].id {
            Some(id) => seen.insert(id),
            None => true,
        };
        proof {
            lemma_first_when_unseen(source, sorted@, k as int, seen_before);
            assert(first == is_first_of_id(source, here as int));
            assert forall|id: u64| #[trigger] seen@.contains(id) == exists|m: int|
                0 <= m < k + 1 && source[(#[trigger] sorted@[m]) as int].id == Some(id) by {
                if seen_before.contains(id) {
                    let m = choose|m: int|
                        0 <= m < k && source[(#[trigger] sorted@[m]) as int].id == Some(id);
                    assert(source[sorted@[m] as int].id == Some(id));
                }
                if source[here as int].id == Some(id) {
                    assert(source[sorted@[k as int] as int].id == Some(id));
                }
            }
        }
        if first {
            at.push(here);
        }
        proof {
            assert forall|m: int|
                0 <= m < k + 1 && is_first_of_id(source, (#[trigger] sorted@[m]) as int) implies
                at@.contains(sorted@[m]) by {
                if m < k {
                    assert(at_before.contains(sorted@[m]));
                    let w = choose|w: int| 0 <= w < at_before.len() && at_before[w] == sorted@[m];
                    assert(at@[w] == sorted@[m]);
                } else {
                    assert(at@[at_before.len() as int] == here);
                }
            }
        }
        k = k + 1;
    }
    let out = select_in_order(records, &at);
    proof {
        assert forall|i: int| 0 <= i < source.len() && #[trigger] keep(i) implies exists|k: int|
            0 <= k < at@.len() && at@[k] == i by {
            assert(sorted@.contains(i as usize));
            let m = choose|m: int| 0 <= m < sorted@.len() && sorted@[m] == i;
            assert(at@.contains(sorted@[m]));
        }
        assert(is_selection_at(source, out@, keep, before, at@));
    }
    out
}

/// In stable order, a trade is the first of its id exactly when its id was not met before.
proof fn lemma_first_when_unseen(
    source: Seq<Trade>,
    sorted: Seq<usize>,
    k: int,
    seen: Set<u64>,
)
    requires
        order::is_stable_order(trade_keys(source), 0, source.len() as int, sorted),
        source.len() <= usize::MAX,
        0 <= k < sorted.len(),
        forall|id: u64| #[trigger]
            seen.contains(id) == exists|m: int|
                0 <= m < k && source[(#[trigger] sorted[m]) as int].id == Some(id),
    ensures
        is_first_of_id(source, sorted[k] as int) == (match source[sorted[k] as int].id {
            Some(id) => !seen.contains(id),
            None => true,
        }),
{
    let here = sorted[k] as int;
    match source[here].id {
        Some(id) => {
            if seen.contains(id) {
                let m = choose|m: int|
                    0 <= m < k && source[(#[trigger] sorted[m]) as int].id == Some(id);
                let earlier = sorted[m] as int;
                assert(order::precedes(trade_keys(source), sorted[m] as int, sorted[k] as int));
                assert(source[earlier].id == Some(id));
                assert(!is_first_of_id(source, here));
            } else {
                assert forall|j: int|
                    0 <= j < source.len() && j != here && (#[trigger] source[j]).id == Some(
                        id,
                    ) implies order::precedes(trade_keys(source), here, j) by {
                    assert(sorted.contains(j as usize));
                    let m = choose|m: int| 0 <= m < sorted.len() && sorted[m] == j;
                    if m < k {
                        assert(source[sorted[m] as int].id == Some(id));
                        assert(seen.contains(id));
                    }
                    assert(order::precedes(trade_keys(source), sorted[k] as int, sorted[m] as int));
                }
            }
        },
        None => {},
    }
}

impl Timed for Trade {
    open spec fn moment(&self) -> u64 {
        self.time.ms
    }

    fn timestamp(&self) -> (r: UnixMs) {
        self.time
    }
}

impl CacheRecord for Trade {
    open spec fn valid(&self) -> bool {
        self.price.units > 0 && self.qty.units >= 0
    }

    open spec fn is_normal_form(source: Seq<Self>, out: Seq<Self>) -> bool {
        ordered_without_repeats(source, out)
    }

    fn is_semantically_valid(&self) -> (r: bool) {
        self.price.units > 0 && self.qty.units >= 0
    }

    fn normalize(records: Vec<Self>) -> (r: Vec<Self>) {
        order_trades(records)
    }

    proof fn normal_form_is_unique(source: Seq<Self>, a: Seq<Self>, b: Seq<Self>) {
        lemma_selection_is_unique(
            source,
            a,
            b,
            |i: int| is_first_of_id(source, i),
            |i: int, j: int| order::precedes(trade_keys(source), i, j),
        );
    }

    proof fn normal_form_holds_source_records(source: Seq<Self>, out: Seq<Self>, k: int) {
        let keep = |i: int| is_first_of_id(source, i);
        let before = |i: int, j: int| order::precedes(trade_keys(source), i, j);
        let at = choose|at: Seq<usize>| #[trigger] is_selection_at(source, out, keep, before, at);
        assert(out[k] == source[at[k] as int]);
    }
}

/// Whether the figures of a cluster agree with each other and with its candle.
pub open spec fn candidate_valid(candidate: BubbleCandidate, candle_time: UnixMs) -> bool {
    &&& candidate.candle_time == candle_time
    &&& candidate.vwap_price.units > 0
    &&& candidate.total_qty.units >= 0
    &&& candidate.buy_qty.units >= 0
    &&& candidate.sell_qty.units >= 0
    &&& candidate.total_qty.units == candidate.buy_qty.units + candidate.sell_qty.units
    &&& candidate.delta_qty.units == candidate.buy_qty.units - candidate.sell_qty.units
    &&& candidate.percentile_rank.finite()
    &&& candidate.importance_score.finite()
    &&& candidate.first_time.ms <= candidate.last_time.ms
}

fn is_candidate_valid(candidate: &BubbleCandidate, candle_time: UnixMs) -> (r: bool)
    ensures
        r == candidate_valid(*candidate, candle_time),
{
    let buy: i64 = candidate.buy_qty.units;
    let sell: i64 = candidate.sell_qty.units;
    let quantities: bool = candidate.total_qty.units >= 0 && buy >= 0 && sell >= 0
        && candidate.total_qty.units as i128 == buy as i128 + sell as i128
        && candidate.delta_qty.units as i128 == buy as i128 - sell as i128;
    candidate.candle_time == candle_time && candidate.vwap_price.units > 0 && quantities
        && candidate.percentile_rank.is_finite() && candidate.importance_score.is_finite()
        && candidate.first_time.ms <= candidate.last_time.ms
}

impl Timed for BubbleVolumeSummary {
    open spec fn moment(&self) -> u64 {
        self.candle_time.ms
    }

    fn timestamp(&self) -> (r: UnixMs) {
        self.candle_time
    }
}

impl CacheRecord for BubbleVolumeSummary {
    open spec fn valid(&self) -> bool {
        &&& self.candidates@.len() <= MAX_RECORDS_PER_BUCKET
        &&& self.algorithm_version == BUBBLE_SUMMARY_ALGORITHM_VERSION
        &&& forall|i: int|
            0 <= i < self.candidates@.len() ==> candidate_valid(
                #[trigger] self.candidates@[i],
                self.candle_time,
            )
    }

    /// The newest calculation of a candle replaces the earlier ones.
    open spec fn is_normal_form(source: Seq<Self>, out: Seq<Self>) -> bool {
        newest_per_moment(source, out)
    }

    fn is_semantically_valid(&self) -> (r: bool) {
        if self.candidates.len() > MAX_RECORDS_PER_BUCKET {
            return false;
        }
        if self.algorithm_version != BUBBLE_SUMMARY_ALGORITHM_VERSION {
            return false;
        }
        let mut i: usize = 0;
        while i < self.candidates.len()
            invariant
                i <= self.candidates@.len(),
                forall|k: int|
                    0 <= k < i ==> candidate_valid(
                        #[trigger] self.candidates@[k],
                        self.candle_time,
                    ),
            decreases self.candidates@.len() - i,
        {
            if !is_candidate_valid(&self.candidates[i], self.candle_time) {
                return false;
            }
            i = i + 1;
        }
        true
    }

    fn normalize(records: Vec<Self>) -> (r: Vec<Self>) {
        keep_newest(records)
    }

    proof fn normal_form_is_unique(source: Seq<Self>, a: Seq<Self>, b: Seq<Self>) {
        lemma_selection_is_unique(
            source,
            a,
            b,
            |i: int| is_newest(source, i),
            |i: int, j: int| source[i].moment() < source[j].moment(),
        );
    }

    proof fn normal_form_holds_source_records(source: Seq<Self>, out: Seq<Self>, k: int) {
        lemma_newest_holds_source(source, out, k);
    }
}

} // verus!
