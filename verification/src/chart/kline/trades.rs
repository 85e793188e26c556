//! Which incoming trades a chart takes in: none twice, none without a price, and none of
//! the past into a bucket that the live feed has filled.
use vstd::prelude::*;
use rustc_hash::FxHashSet;
use crate::connector::records::Trade;
use crate::fx;
use crate::lists;
use crate::lists::keep_last;
use crate::units;
use crate::units::{saturating_sub_u64, Timeframe, UnixMs};

verus! {

/// The number of raw trades that are kept.
pub const MAX_RAW_TRADES: usize = 50_000;

/// The number of buckets of the live feed that are remembered.
pub const MAX_LIVE_TRADE_BUCKETS: usize = 4_096;

/// One of the trades has the id.
pub open spec fn has_id(trades: Seq<Trade>, id: u64) -> bool {
    exists|i: int| 0 <= i < trades.len() && #[trigger] trades[i].id == Some(id)
}

/// One of the trades with a positive price has the id.
pub open spec fn has_priced_id(trades: Seq<Trade>, id: u64) -> bool {
    exists|i: int|
        0 <= i < trades.len() && (#[trigger] trades[i]).price.units > 0 && trades[i].id == Some(id)
}

/// Whether a trade is taken in after `earlier` ones of the same delivery: its price is
/// positive and its id, if it has one, is new.
pub open spec fn is_accepted(existing: Seq<Trade>, earlier: Seq<Trade>, trade: Trade) -> bool {
    &&& trade.price.units > 0
    &&& match trade.id {
        Some(id) => !has_id(existing, id) && !has_priced_id(earlier, id),
        None => true,
    }
}

/// The accepted trades of a delivery, in order.
pub open spec fn accepted(existing: Seq<Trade>, incoming: Seq<Trade>) -> Seq<Trade>
    decreases incoming.len(),
{
    if incoming.len() == 0 {
        seq![]
    } else {
        let head = accepted(existing, incoming.drop_last());
        if is_accepted(existing, incoming.drop_last(), incoming.last()) {
            head.push(incoming.last())
        } else {
            head
        }
    }
}

/// Leaves out trades whose price is not positive and trades whose id is known or occurs
/// earlier in the delivery.
pub fn deduplicate_incoming_trades(existing: &Vec<Trade>, incoming: &Vec<Trade>) -> (r: Vec<Trade>)
    ensures
        r@ == accepted(existing@, incoming@),
{
    let mut seen = fx::new_set();
    let mut i: usize = 0;
    while i < existing.len()
        invariant
            i <= existing@.len(),
            forall|id: u64| #[trigger]
                seen@.contains(id) == has_id(existing@.take(i as int), id),
        decreases existing@.len() - i,
    {
        let ghost before = seen@;
        if let Some(id) = existing[i].id {
            let _ = fx::insert_key(&mut seen, id);
        }
        proof {
            assert forall|id: u64| #[trigger]
                seen@.contains(id) == has_id(existing@.take(i + 1), id) by {
                lemma_has_id_push(existing@.take(i as int), existing@[i as int], id);
                assert(existing@.take(i + 1) =~= existing@.take(i as int).push(existing@[i as int]));
            }
        }
        i = i + 1;
    }
    assert(existing@.take(existing@.len() as int) =~= existing@);
    let mut r: Vec<Trade> = Vec::new();
    let mut k: usize = 0;
    assert(incoming@.take(0) =~= seq![]);
    while k < incoming.len()
        invariant
            k <= incoming@.len(),
            r@ == accepted(existing@, incoming@.take(k as int)),
            forall|id: u64| #[trigger]
                seen@.contains(id) == (has_id(existing@, id) || has_priced_id(
                    incoming@.take(k as int),
                    id,
                )),
        decreases incoming@.len() - k,
    {
        let trade: Trade = incoming[k];
        let ghost earlier = incoming@.take(k as int);
        proof {
            assert(incoming@.take(k + 1).drop_last() =~= earlier);
            assert(incoming@.take(k + 1).last() == trade);
            assert(incoming@.take(k + 1) =~= earlier.push(trade));
        }
        let ghost before = seen@;
        if trade.price.units > 0 {
            match trade.id {
                Some(id) => {
                    if fx::insert_key(&mut seen, id) {
                        r.push(trade);
                    }
                },
                None => {
                    r.push(trade);
                },
            }
        }
        proof {
            assert forall|id: u64| #[trigger]
                seen@.contains(id) == (has_id(existing@, id) || has_priced_id(
                    incoming@.take(k + 1),
                    id,
                )) by {
                lemma_has_priced_id_push(earlier, trade, id);
                assert(before.contains(id) == (has_id(existing@, id) || has_priced_id(
                    earlier,
                    id,
                )));
            }
        }
        k = k + 1;
    }
    assert(incoming@.take(incoming@.len() as int) =~= incoming@);
    r
}

proof fn lemma_has_id_push(trades: Seq<Trade>, added: Trade, id: u64)
    ensures
        has_id(trades.push(added), id) == (has_id(trades, id) || added.id == Some(id)),
{
    let longer = trades.push(added);
    if has_id(longer, id) {
        let i = choose|i: int| 0 <= i < longer.len() && #[trigger] longer[i].id == Some(id);
        if i < trades.len() {
            assert(trades[i].id == Some(id));
        }
    }
    if has_id(trades, id) {
        let i = choose|i: int| 0 <= i < trades.len() && #[trigger] trades[i].id == Some(id);
        assert(longer[i].id == Some(id));
    }
    if added.id == Some(id) {
        assert(longer[trades.len() as int].id == Some(id));
    }
}

proof fn lemma_has_priced_id_push(trades: Seq<Trade>, added: Trade, id: u64)
    ensures
        has_priced_id(trades.push(added), id) == (has_priced_id(trades, id) || (added.price.units
            > 0 && added.id == Some(id))),
{
    let longer = trades.push(added);
    if has_priced_id(longer, id) {
        let i = choose|i: int|
            0 <= i < longer.len() && (#[trigger] longer[i]).price.units > 0 && longer[i].id == Some(
                id,
            );
        if i < trades.len() {
            assert(trades[i].id == Some(id));
        }
    }
    if has_priced_id(trades, id) {
        let i = choose|i: int|
            0 <= i < trades.len() && (#[trigger] trades[i]).price.units > 0 && trades[i].id == Some(
                id,
            );
        assert(longer[i].id == Some(id));
    }
    if added.price.units > 0 && added.id == Some(id) {
        assert(longer[trades.len() as int].id == Some(id));
    }
}

/// Every accepted trade has a positive price, and an id that neither the existing trades
/// nor the other accepted trades have.
pub proof fn accepted_trades_are_new(existing: Seq<Trade>, incoming: Seq<Trade>)
    ensures
        forall|i: int|
            0 <= i < accepted(existing, incoming).len() ==> (#[trigger] accepted(
                existing,
                incoming,
            )[i]).price.units > 0 && (accepted(existing, incoming)[i].id is Some ==> !has_id(
                existing,
                accepted(existing, incoming)[i].id->0,
            )),
        forall|i: int, j: int|
            0 <= i < j < accepted(existing, incoming).len() ==> (#[trigger] accepted(
                existing,
                incoming,
            )[i]).id is None || accepted(existing, incoming)[i].id != (#[trigger] accepted(
                existing,
                incoming,
            )[j]).id,
    decreases incoming.len(),
{
    if incoming.len() > 0 {
        let front = incoming.drop_last();
        let head = accepted(existing, front);
        let all = accepted(existing, incoming);
        accepted_trades_are_new(existing, front);
        lemma_accepted_are_incoming(existing, front);
        if is_accepted(existing, front, incoming.last()) {
            assert forall|i: int| 0 <= i < all.len() implies (#[trigger] all[i]).price.units > 0
                && (all[i].id is Some ==> !has_id(existing, all[i].id->0)) by {
                if i < head.len() {
                    assert(all[i] == head[i]);
                }
            }
            assert forall|i: int, j: int| 0 <= i < j < all.len() implies (#[trigger] all[i]).id
                is None || all[i].id != (#[trigger] all[j]).id by {
                assert(all[i] == head[i]);
                if j < head.len() {
                    assert(all[j] == head[j]);
                } else if all[i].id is Some && all[i].id == all[j].id {
                    let k = choose|k: int| 0 <= k < front.len() && front[k] == head[i];
                    assert(has_priced_id(front, all[i].id->0)) by {
                        assert(front[k].price.units > 0 && front[k].id == Some(all[i].id->0));
                    }
                }
            }
        }
    }
}

proof fn lemma_accepted_are_incoming(existing: Seq<Trade>, incoming: Seq<Trade>)
    ensures
        forall|i: int|
            0 <= i < accepted(existing, incoming).len() ==> exists|k: int|
                0 <= k < incoming.len() && incoming[k] == #[trigger] accepted(
                    existing,
                    incoming,
                )[i],
    decreases incoming.len(),
{
    if incoming.len() > 0 {
        let front = incoming.drop_last();
        let head = accepted(existing, front);
        let all = accepted(existing, incoming);
        lemma_accepted_are_incoming(existing, front);
        assert forall|i: int| 0 <= i < all.len() implies exists|k: int|
            0 <= k < incoming.len() && incoming[k] == #[trigger] all[i] by {
            if i < head.len() {
                assert(all[i] == head[i]);
                let k = choose|k: int| 0 <= k < front.len() && front[k] == head[i];
                assert(incoming[k] == all[i]);
            } else {
                assert(incoming[incoming.len() - 1] == all[i]);
            }
        }
    }
}

/// Delivering the same trades again adds nothing, where all of them have an id.
pub proof fn redelivery_adds_nothing(existing: Seq<Trade>, incoming: Seq<Trade>)
    requires
        forall|i: int| 0 <= i < incoming.len() ==> (#[trigger] incoming[i]).id is Some,
        forall|i: int|
            0 <= i < incoming.len() ==> has_id(existing, (#[trigger] incoming[i]).id->0),
    ensures
        accepted(existing, incoming).len() == 0,
    decreases incoming.len(),
{
    if incoming.len() > 0 {
        let front = incoming.drop_last();
        assert forall|i: int| 0 <= i < front.len() implies (#[trigger] front[i]).id is Some
            && has_id(existing, front[i].id->0) by {
            assert(front[i] == incoming[i]);
        }
        redelivery_adds_nothing(existing, front);
        assert(incoming.last() == incoming[incoming.len() - 1]);
    }
}

/// The start of the bucket of a moment.
pub open spec fn bucket_start(moment: u64, interval: Timeframe) -> u64 {
    (moment - moment % interval.ms()) as u64
}

pub fn floor_to(moment: UnixMs, interval: Timeframe) -> (r: u64)
    ensures
        r == bucket_start(moment.ms, interval),
{
    moment.ms - moment.ms % interval.to_milliseconds()
}

/// The trades of buckets that the live feed has not filled, in order.
pub open spec fn outside_live(trades: Seq<Trade>, live: Set<u64>, interval: Timeframe) -> Seq<Trade>
    decreases trades.len(),
{
    if trades.len() == 0 {
        seq![]
    } else {
        let head = outside_live(trades.drop_last(), live, interval);
        if live.contains(bucket_start(trades.last().time.ms, interval)) {
            head
        } else {
            head.push(trades.last())
        }
    }
}

/// Leaves out historical trades of buckets that the live feed has filled, and counts them.
/// The two feeds number their trades differently, so such trades would be counted twice.
pub fn exclude_historical_overlap_with_live(
    incoming: Vec<Trade>,
    live_buckets: &FxHashSet<u64>,
    interval: Timeframe,
) -> (r: (Vec<Trade>, usize))
    ensures
        r.0@ == outside_live(incoming@, live_buckets@, interval),
        r.1 + r.0@.len() == incoming@.len(),
{
    let mut kept: Vec<Trade> = Vec::new();
    let mut discarded: usize = 0;
    let mut i: usize = 0;
    while i < incoming.len()
        invariant
            i <= incoming@.len(),
            kept@ == outside_live(incoming@.take(i as int), live_buckets@, interval),
            discarded + kept@.len() == i,
        decreases incoming@.len() - i,
    {
        assert(incoming@.take(i + 1).drop_last() =~= incoming@.take(i as int));
        let trade: Trade = incoming[i];
        if fx::contains(live_buckets, floor_to(trade.time, interval)) {
            discarded = discarded + 1;
        } else {
            kept.push(trade);
        }
        i = i + 1;
    }
    assert(incoming@.take(incoming@.len() as int) =~= incoming@);
    (kept, discarded)
}

/// No trade that is left belongs to a bucket of the live feed.
pub proof fn no_live_bucket_is_doubled(trades: Seq<Trade>, live: Set<u64>, interval: Timeframe)
    ensures
        forall|i: int|
            0 <= i < outside_live(trades, live, interval).len() ==> !live.contains(
                bucket_start((#[trigger] outside_live(trades, live, interval)[i]).time.ms, interval),
            ),
    decreases trades.len(),
{
    if trades.len() > 0 {
        no_live_bucket_is_doubled(trades.drop_last(), live, interval);
    }
}

/// The buckets of the trades, added to those that are there.
pub open spec fn with_buckets(live: Set<u64>, trades: Seq<Trade>, interval: Timeframe) -> Set<u64>
    decreases trades.len(),
{
    if trades.len() == 0 {
        live
    } else {
        with_buckets(live, trades.drop_last(), interval).insert(
            bucket_start(trades.last().time.ms, interval),
        )
    }
}

/// The newest bucket of the trades, zero where there are none.
pub open spec fn newest_bucket(trades: Seq<Trade>, interval: Timeframe) -> u64
    decreases trades.len(),
{
    if trades.len() == 0 {
        0
    } else {
        units::max_u64(
            newest_bucket(trades.drop_last(), interval),
            bucket_start(trades.last().time.ms, interval),
        )
    }
}

/// The oldest bucket that is remembered once there are too many.
pub open spec fn live_cutoff(newest: u64, interval: Timeframe) -> u64 {
    units::sat_sub(newest, (interval.ms() * MAX_LIVE_TRADE_BUCKETS) as u64)
}

/// The remembered buckets once the live feed has delivered trades: all of them, or where
/// there are too many, those that are not too old.
pub open spec fn live_after(live: Set<u64>, trades: Seq<Trade>, interval: Timeframe) -> Set<u64> {
    let all = with_buckets(live, trades, interval);
    if trades.len() > 0 && all.len() > MAX_LIVE_TRADE_BUCKETS {
        all.filter(
            |bucket: u64| bucket >= live_cutoff(newest_bucket(trades, interval), interval),
        )
    } else {
        all
    }
}

/// Remembers the buckets of trades that the live feed delivered.
pub fn extend_live_buckets(live: &mut FxHashSet<u64>, trades: &Vec<Trade>, interval: Timeframe)
    ensures
        final(live)@ == live_after(old(live)@, trades@, interval),
{
    let ghost before = live@;
    let mut newest: u64 = 0;
    let mut i: usize = 0;
    while i < trades.len()
        invariant
            i <= trades@.len(),
            live@ == with_buckets(before, trades@.take(i as int), interval),
            newest == newest_bucket(trades@.take(i as int), interval),
        decreases trades@.len() - i,
    {
        assert(trades@.take(i + 1).drop_last() =~= trades@.take(i as int));
        let bucket: u64 = floor_to(trades[i].time, interval);
        let _ = fx::insert_key(live, bucket);
        newest = units::larger(newest, bucket);
        i = i + 1;
    }
    assert(trades@.take(trades@.len() as int) =~= trades@);
    if trades.len() > 0 && fx::set_len(live) > MAX_LIVE_TRADE_BUCKETS {
        let span: u64 = interval.to_milliseconds() * 4_096;
        fx::retain_from(live, saturating_sub_u64(newest, span));
    }
}

/// The trades with the accepted ones behind them, without the oldest where there are too
/// many.
pub open spec fn retained(trades: Seq<Trade>, added: Seq<Trade>) -> Seq<Trade> {
    lists::last_of(trades + added, MAX_RAW_TRADES as nat)
}

pub fn append_retained(trades: Vec<Trade>, added: &Vec<Trade>) -> (r: Vec<Trade>)
    ensures
        r@ == retained(trades@, added@),
        r@.len() <= MAX_RAW_TRADES,
{
    let ghost held = trades@;
    let mut all = trades;
    let mut i: usize = 0;
    while i < added.len()
        invariant
            i <= added@.len(),
            all@ == held + added@.take(i as int),
        decreases added@.len() - i,
    {
        all.push(added[i]);
        assert(all@ =~= held + added@.take(i + 1));
        i = i + 1;
    }
    assert(added@.take(added@.len() as int) =~= added@);
    keep_last(all, MAX_RAW_TRADES)
}

/// The trades of one bucket, in order.
pub open spec fn of_bucket(trades: Seq<Trade>, bucket: u64, interval: Timeframe) -> Seq<Trade>
    decreases trades.len(),
{
    if trades.len() == 0 {
        seq![]
    } else {
        let head = of_bucket(trades.drop_last(), bucket, interval);
        if bucket_start(trades.last().time.ms, interval) == bucket {
            head.push(trades.last())
        } else {
            head
        }
    }
}

/// The kept trades of a bucket that has just appeared.
pub fn trades_of_bucket(trades: &Vec<Trade>, bucket: u64, interval: Timeframe) -> (r: Vec<Trade>)
    ensures
        r@ == of_bucket(trades@, bucket, interval),
{
    let mut r: Vec<Trade> = Vec::new();
    let mut i: usize = 0;
    while i < trades.len()
        invariant
            i <= trades@.len(),
            r@ == of_bucket(trades@.take(i as int), bucket, interval),
        decreases trades@.len() - i,
    {
        assert(trades@.take(i + 1).drop_last() =~= trades@.take(i as int));
        let trade: Trade = trades[i];
        if floor_to(trade.time, interval) == bucket {
            r.push(trade);
        }
        i = i + 1;
    }
    assert(trades@.take(trades@.len() as int) =~= trades@);
    r
}

/// The trades of the given buckets, in order.
pub open spec fn of_buckets(trades: Seq<Trade>, buckets: Set<u64>, interval: Timeframe) -> Seq<Trade>
    decreases trades.len(),
{
    if trades.len() == 0 {
        seq![]
    } else {
        let head = of_buckets(trades.drop_last(), buckets, interval);
        if buckets.contains(bucket_start(trades.last().time.ms, interval)) {
            head.push(trades.last())
        } else {
            head
        }
    }
}

/// The kept trades of the buckets among `times` that `known` does not hold.
pub fn trades_of_new_buckets(
    trades: &Vec<Trade>,
    times: &Vec<u64>,
    known: &FxHashSet<u64>,
    interval: Timeframe,
) -> (r: Vec<Trade>)
    ensures
        r@ == of_buckets(trades@, times@.to_set().difference(known@), interval),
{
    let mut fresh = fx::new_set();
    let mut i: usize = 0;
    assert(times@.take(0).to_set().difference(known@) =~= Set::<u64>::empty());
    while i < times.len()
        invariant
            i <= times@.len(),
            fresh@ == times@.take(i as int).to_set().difference(known@),
        decreases times@.len() - i,
    {
        let ghost before = fresh@;
        if !fx::contains(known, times[i]) {
            let _ = fx::insert_key(&mut fresh, times[i]);
        }
        proof {
            let shorter = times@.take(i as int);
            let longer = times@.take(i + 1);
            assert forall|t: u64| longer.to_set().contains(t) == (shorter.to_set().contains(t) || t
                == times@[i as int]) by {
                if longer.contains(t) {
                    let k = choose|k: int| 0 <= k < longer.len() && longer[k] == t;
                    if k < i {
                        assert(shorter[k] == t);
                    }
                }
                if shorter.contains(t) {
                    let k = choose|k: int| 0 <= k < shorter.len() && shorter[k] == t;
                    assert(longer[k] == t);
                }
                assert(longer[i as int] == times@[i as int]);
            }
            assert(fresh@ =~= longer.to_set().difference(known@));
        }
        i = i + 1;
    }
    assert(times@.take(times@.len() as int) =~= times@);
    let mut r: Vec<Trade> = Vec::new();
    let mut k: usize = 0;
    while k < trades.len()
        invariant
            k <= trades@.len(),
            r@ == of_buckets(trades@.take(k as int), fresh@, interval),
        decreases trades@.len() - k,
    {
        assert(trades@.take(k + 1).drop_last() =~= trades@.take(k as int));
        let trade: Trade = trades[k];
        if fx::contains(&fresh, floor_to(trade.time, interval)) {
            r.push(trade);
        }
        k = k + 1;
    }
    assert(trades@.take(trades@.len() as int) =~= trades@);
    r
}

} // verus!
