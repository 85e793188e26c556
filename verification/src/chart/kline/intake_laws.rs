//! What the intake of trades promises, stated on the trades that come in and those that stay.
use vstd::prelude::*;
use crate::chart::kline::trades;
use crate::connector::records::Trade;
use crate::units::Timeframe;

verus! {

/// Whether a trade of a delivery has to be taken in: its price is above zero, and it has no id,
/// or one that none of the existing trades has, and none of the trades before it in the
/// delivery whose price is above zero.
pub open spec fn is_owed(existing: Seq<Trade>, incoming: Seq<Trade>, i: int) -> bool {
    &&& incoming[i].price.units > 0
    &&& incoming[i].id is None || {
        &&& forall|e: int| 0 <= e < existing.len() ==> (#[trigger] existing[e]).id != incoming[i].id
        &&& forall|j: int|
            0 <= j < i ==> (#[trigger] incoming[j]).price.units <= 0 || incoming[j].id
                != incoming[i].id
    }
}

/// No trade that is owed is lost, none else is taken in, none is changed, and their order
/// stays: `at` names the places of the accepted trades in the delivery.
pub proof fn nothing_valid_is_lost(existing: Seq<Trade>, incoming: Seq<Trade>) -> (at: Seq<int>)
    ensures
        at.len() == trades::accepted(existing, incoming).len(),
        forall|k: int|
            0 <= k < at.len() ==> 0 <= (#[trigger] at[k]) < incoming.len() && incoming[at[k]]
                == trades::accepted(existing, incoming)[k],
        forall|a: int, b: int| 0 <= a < b < at.len() ==> (#[trigger] at[a]) < (#[trigger] at[b]),
        forall|i: int|
            0 <= i < incoming.len() ==> (#[trigger] at.contains(i) <==> is_owed(
                existing,
                incoming,
                i,
            )),
    decreases incoming.len(),
{
    if incoming.len() == 0 {
        seq![]
    } else {
        let front = incoming.drop_last();
        let last = incoming.len() - 1;
        let head = nothing_valid_is_lost(existing, front);
        let before = trades::accepted(existing, front);
        let all = trades::accepted(existing, incoming);
        let taken = trades::is_accepted(existing, front, incoming.last());
        let at = if taken {
            head.push(last)
        } else {
            head
        };
        assert(taken == is_owed(existing, incoming, last)) by {
            assert forall|j: int| 0 <= j < last implies #[trigger] front[j] == incoming[j] by {}
            match incoming[last].id {
                Some(id) => {
                    if trades::has_id(existing, id) {
                        let e = choose|e: int|
                            0 <= e < existing.len() && #[trigger] existing[e].id == Some(id);
                        assert(existing[e].id == incoming[last].id);
                    }
                    if trades::has_priced_id(front, id) {
                        let j = choose|j: int|
                            0 <= j < front.len() && (#[trigger] front[j]).price.units > 0
                                && front[j].id == Some(id);
                        assert(incoming[j].id == incoming[last].id);
                    }
                    assert forall|e: int| 0 <= e < existing.len() && !trades::has_id(
                        existing,
                        id,
                    ) implies (#[trigger] existing[e]).id != Some(id) by {}
                    assert forall|j: int|
                        0 <= j < last && !trades::has_priced_id(front, id) implies (
                    #[trigger] incoming[j]).price.units <= 0 || incoming[j].id != Some(id) by {
                        assert(front[j] == incoming[j]);
                    }
                },
                None => {},
            }
        }
        assert forall|k: int| 0 <= k < at.len() implies 0 <= (#[trigger] at[k]) < incoming.len()
            && incoming[at[k]] == all[k] by {
            if k < head.len() {
                assert(at[k] == head[k]);
                assert(front[head[k]] == before[k]);
                assert(all[k] == before[k]);
            }
        }
        assert forall|i: int| 0 <= i < incoming.len() implies (#[trigger] at.contains(i)
            <==> is_owed(existing, incoming, i)) by {
            if i < last {
                assert(is_owed(existing, incoming, i) == is_owed(existing, front, i)) by {
                    assert(front[i] == incoming[i]);
                    assert forall|j: int| 0 <= j < i implies #[trigger] front[j]
                        == incoming[j] by {}
                    if is_owed(existing, front, i) {
                        assert forall|j: int| 0 <= j < i && incoming[i].id is Some implies (
                        #[trigger] incoming[j]).price.units <= 0 || incoming[j].id
                            != incoming[i].id by {
                            assert(front[j] == incoming[j]);
                        }
                    }
                }
                if head.contains(i) {
                    let k = choose|k: int| 0 <= k < head.len() && head[k] == i;
                    assert(at[k] == i);
                }
                if at.contains(i) {
                    let k = choose|k: int| 0 <= k < at.len() && at[k] == i;
                    assert(k < head.len());
                    assert(head[k] == i);
                }
            } else {
                if taken {
                    assert(at[at.len() - 1] == i);
                } else if at.contains(i) {
                    let k = choose|k: int| 0 <= k < at.len() && at[k] == i;
                    assert(0 <= head[k] < front.len());
                }
            }
        }
        at
    }
}

/// A delivery of trades above zero whose ids are all new and all different is taken in whole.
pub proof fn a_delivery_of_new_trades_is_taken_in_whole(existing: Seq<Trade>, incoming: Seq<Trade>)
    requires
        forall|i: int| 0 <= i < incoming.len() ==> (#[trigger] incoming[i]).price.units > 0,
        forall|i: int, e: int|
            0 <= i < incoming.len() && 0 <= e < existing.len() ==> (#[trigger] incoming[i]).id
                is None || incoming[i].id != (#[trigger] existing[e]).id,
        forall|i: int, j: int|
            0 <= i < j < incoming.len() ==> (#[trigger] incoming[i]).id is None || incoming[i].id
                != (#[trigger] incoming[j]).id,
    ensures
        trades::accepted(existing, incoming) == incoming,
    decreases incoming.len(),
{
    if incoming.len() > 0 {
        let front = incoming.drop_last();
        let last = incoming.len() - 1;
        assert forall|i: int| 0 <= i < front.len() implies #[trigger] front[i] == incoming[i] by {}
        assert forall|i: int| 0 <= i < front.len() implies (#[trigger] front[i]).price.units > 0 by {
            assert(incoming[i].price.units > 0);
        }
        assert forall|i: int, e: int|
            0 <= i < front.len() && 0 <= e < existing.len() implies (#[trigger] front[i]).id is None
            || front[i].id != (#[trigger] existing[e]).id by {
            assert(incoming[i].id is None || incoming[i].id != existing[e].id);
        }
        assert forall|i: int, j: int| 0 <= i < j < front.len() implies (#[trigger] front[i]).id
            is None || front[i].id != (#[trigger] front[j]).id by {
            assert(incoming[i].id is None || incoming[i].id != incoming[j].id);
        }
        a_delivery_of_new_trades_is_taken_in_whole(existing, front);
        assert(incoming.last() == incoming[last]);
        if incoming[last].id is Some {
            let id = incoming[last].id->0;
            if trades::has_id(existing, id) {
                let e = choose|e: int|
                    0 <= e < existing.len() && #[trigger] existing[e].id == Some(id);
                assert(incoming[last].id != existing[e].id);
            }
            if trades::has_priced_id(front, id) {
                let j = choose|j: int|
                    0 <= j < front.len() && (#[trigger] front[j]).price.units > 0 && front[j].id
                        == Some(id);
                assert(incoming[j].id != incoming[last].id);
            }
        }
        assert(trades::is_accepted(existing, front, incoming.last()));
        assert(front.push(incoming.last()) =~= incoming);
    }
}

/// A moment lies in the bucket that begins at or before it and ends after it, and buckets
/// begin at multiples of their length.
pub proof fn moments_lie_in_their_bucket(moment: u64, interval: Timeframe)
    ensures
        trades::bucket_start(moment, interval) <= moment < trades::bucket_start(moment, interval)
            + interval.ms(),
        trades::bucket_start(moment, interval) as int % interval.ms() as int == 0,
        trades::bucket_start(moment, interval) == moment - moment % interval.ms(),
{
    let m = moment as int;
    let length = interval.ms() as int;
    vstd::arithmetic::div_mod::lemma_fundamental_div_mod(m, length);
    vstd::arithmetic::div_mod::lemma_mod_multiples_basic(m / length, length);
    vstd::arithmetic::mul::lemma_mul_is_commutative(m / length, length);
}

proof fn lemma_bucket(moment: u64, bucket: u64, interval: Timeframe)
    requires
        bucket as int % interval.ms() as int == 0,
    ensures
        trades::bucket_start(moment, interval) == bucket <==> bucket <= moment < bucket
            + interval.ms(),
{
    moments_lie_in_their_bucket(moment, interval);
    let h = interval.ms() as int;
    let a = trades::bucket_start(moment, interval) as int;
    let b = bucket as int;
    vstd::arithmetic::div_mod::lemma_fundamental_div_mod(a, h);
    vstd::arithmetic::div_mod::lemma_fundamental_div_mod(b, h);
    vstd::arithmetic::mul::lemma_mul_is_commutative(h, a / h);
    vstd::arithmetic::mul::lemma_mul_is_commutative(h, b / h);
    if b <= moment < b + h {
        vstd::arithmetic::div_mod::lemma_fundamental_div_mod_converse(
            moment as int,
            h,
            a / h,
            moment - a,
        );
        vstd::arithmetic::div_mod::lemma_fundamental_div_mod_converse(
            moment as int,
            h,
            b / h,
            moment - b,
        );
    }
}

/// The trades of a bucket are those from its start to its end, in order.
pub proof fn a_bucket_holds_the_trades_of_its_time(
    list: Seq<Trade>,
    bucket: u64,
    interval: Timeframe,
)
    requires
        bucket as int % interval.ms() as int == 0,
    ensures
        trades::of_bucket(list, bucket, interval) == list.filter(
            |trade: Trade| bucket <= trade.time.ms < bucket + interval.ms(),
        ),
    decreases list.len(),
{
    reveal(Seq::filter);
    if list.len() > 0 {
        a_bucket_holds_the_trades_of_its_time(list.drop_last(), bucket, interval);
        lemma_bucket(list.last().time.ms, bucket, interval);
    }
}

/// Of the past, exactly the trades stay whose bucket the live feed has not filled; of given
/// buckets, exactly the trades whose bucket is one of them. Both in order.
pub proof fn buckets_divide_the_past(list: Seq<Trade>, buckets: Set<u64>, interval: Timeframe)
    ensures
        trades::outside_live(list, buckets, interval) == list.filter(
            |trade: Trade|
                !buckets.contains((trade.time.ms - trade.time.ms % interval.ms()) as u64),
        ),
        trades::of_buckets(list, buckets, interval) == list.filter(
            |trade: Trade|
                buckets.contains((trade.time.ms - trade.time.ms % interval.ms()) as u64),
        ),
        trades::outside_live(list, buckets, interval).len() + trades::of_buckets(
            list,
            buckets,
            interval,
        ).len() == list.len(),
    decreases list.len(),
{
    reveal(Seq::filter);
    if list.len() > 0 {
        buckets_divide_the_past(list.drop_last(), buckets, interval);
    }
}

proof fn lemma_with_buckets(live: Set<u64>, list: Seq<Trade>, interval: Timeframe)
    ensures
        forall|bucket: u64| #[trigger]
            trades::with_buckets(live, list, interval).contains(bucket) <==> (live.contains(bucket)
                || exists|i: int|
                0 <= i < list.len() && bucket == (#[trigger] list[i]).time.ms - list[i].time.ms
                    % interval.ms()),
    decreases list.len(),
{
    if list.len() > 0 {
        let front = list.drop_last();
        let last = list.len() - 1;
        lemma_with_buckets(live, front, interval);
        moments_lie_in_their_bucket(list[last].time.ms, interval);
        assert(trades::with_buckets(live, list, interval) == trades::with_buckets(
            live,
            front,
            interval,
        ).insert(trades::bucket_start(list[last].time.ms, interval)));
        assert forall|bucket: u64| #[trigger]
            trades::with_buckets(live, list, interval).contains(bucket) <==> (live.contains(bucket)
                || exists|i: int|
                0 <= i < list.len() && bucket == (#[trigger] list[i]).time.ms - list[i].time.ms
                    % interval.ms()) by {
            assert(trades::with_buckets(live, list, interval).contains(bucket) == (
            trades::with_buckets(live, front, interval).contains(bucket) || bucket == list[last].time.ms
                - list[last].time.ms % interval.ms()));
            if exists|i: int|
                0 <= i < front.len() && bucket == (#[trigger] front[i]).time.ms - front[i].time.ms
                    % interval.ms() {
                let i = choose|i: int|
                    0 <= i < front.len() && bucket == (#[trigger] front[i]).time.ms
                        - front[i].time.ms % interval.ms();
                assert(list[i] == front[i]);
            }
            if exists|i: int|
                0 <= i < list.len() && bucket == (#[trigger] list[i]).time.ms - list[i].time.ms
                    % interval.ms() {
                let i = choose|i: int|
                    0 <= i < list.len() && bucket == (#[trigger] list[i]).time.ms - list[i].time.ms
                        % interval.ms();
                if i < last {
                    assert(front[i] == list[i]);
                }
            }
            assert(list[last] == list.last());
        }
    }
}

/// The live feed is remembered by the bucket of each of its trades and by those that were
/// remembered before. Where these are more than 4096, the ones more than 4096 buckets before
/// the newest trade are forgotten, and no others.
pub proof fn live_buckets_are_remembered(
    live: Set<u64>,
    list: Seq<Trade>,
    interval: Timeframe,
    newest: int,
    bucket: u64,
)
    requires
        0 <= newest < list.len(),
        forall|i: int|
            0 <= i < list.len() ==> (#[trigger] list[i]).time.ms <= list[newest].time.ms,
    ensures
        ({
            let delivered = exists|i: int|
                0 <= i < list.len() && bucket == (#[trigger] list[i]).time.ms - list[i].time.ms
                    % interval.ms();
            let held = live.contains(bucket) || delivered;
            let last = list[newest].time.ms - list[newest].time.ms % interval.ms();
            let crowded = trades::with_buckets(live, list, interval).len() > 4096;
            &&& trades::live_after(live, list, interval).contains(bucket) <==> held && (!crowded
                || bucket + 4096 * interval.ms() >= last)
            &&& trades::with_buckets(live, list, interval).contains(bucket) <==> held
        }),
{
    lemma_with_buckets(live, list, interval);
    lemma_newest(list, interval, newest);
    moments_lie_in_their_bucket(list[newest].time.ms, interval);
    let span = interval.ms() * trades::MAX_LIVE_TRADE_BUCKETS;
    assert(span == 4096 * interval.ms() <= u64::MAX);
}

proof fn lemma_newest(list: Seq<Trade>, interval: Timeframe, newest: int)
    requires
        0 <= newest < list.len(),
        forall|i: int|
            0 <= i < list.len() ==> (#[trigger] list[i]).time.ms <= list[newest].time.ms,
    ensures
        trades::newest_bucket(list, interval) == trades::bucket_start(
            list[newest].time.ms,
            interval,
        ),
    decreases list.len(),
{
    let front = list.drop_last();
    let last = list.len() - 1;
    lemma_bucket_order(list[last].time.ms, list[newest].time.ms, interval);
    if newest < last {
        assert forall|i: int| 0 <= i < front.len() implies (#[trigger] front[i]).time.ms
            <= front[newest].time.ms by {
            assert(list[i].time.ms <= list[newest].time.ms);
        }
        lemma_newest(front, interval, newest);
    } else {
        lemma_newest_bound(front, interval, list[last].time.ms);
    }
}

proof fn lemma_newest_bound(list: Seq<Trade>, interval: Timeframe, bound: u64)
    requires
        forall|i: int| 0 <= i < list.len() ==> (#[trigger] list[i]).time.ms <= bound,
    ensures
        trades::newest_bucket(list, interval) <= trades::bucket_start(bound, interval),
    decreases list.len(),
{
    if list.len() > 0 {
        let front = list.drop_last();
        assert forall|i: int| 0 <= i < front.len() implies (#[trigger] front[i]).time.ms
            <= bound by {
            assert(list[i].time.ms <= bound);
        }
        lemma_newest_bound(front, interval, bound);
        lemma_bucket_order(list[list.len() - 1].time.ms, bound, interval);
    }
}

proof fn lemma_bucket_order(a: u64, b: u64, interval: Timeframe)
    requires
        a <= b,
    ensures
        trades::bucket_start(a, interval) <= trades::bucket_start(b, interval),
{
    let h = interval.ms() as int;
    vstd::arithmetic::div_mod::lemma_fundamental_div_mod(a as int, h);
    vstd::arithmetic::div_mod::lemma_fundamental_div_mod(b as int, h);
    vstd::arithmetic::div_mod::lemma_div_is_ordered(a as int, b as int, h);
    vstd::arithmetic::mul::lemma_mul_inequality(a as int / h, b as int / h, h);
    vstd::arithmetic::mul::lemma_mul_is_commutative(a as int / h, h);
    vstd::arithmetic::mul::lemma_mul_is_commutative(b as int / h, h);
}

/// Of the kept and the new trades the last 50,000 stay, all of them where there are fewer.
pub proof fn the_newest_trades_stay(held: Seq<Trade>, added: Seq<Trade>)
    ensures
        held.len() + added.len() <= 50_000 ==> trades::retained(held, added) == held + added,
        held.len() + added.len() > 50_000 ==> trades::retained(held, added) == (held
            + added).subrange(held.len() + added.len() - 50_000, (held.len() + added.len()) as int),
{
}

} // verus!
