//! What the cumulative delta promises, stated on the quantities of its candles and trades.
use vstd::prelude::*;
use crate::chart::indicator::kline::cumulative_delta;
use crate::chart::indicator::kline::cumulative_delta::{
    CandleFlow, CandleSource, CvdAvailability, CvdConfig, CvdReset, CvdSourceMode,
    DirectionalVolume, ExternalTrade, IndicatorModel, TradeCoverage,
};
use crate::chart::kline::profiles::PriceLevel;
use crate::connector::records::Trade;
use crate::order;
use crate::units::{Qty, Timeframe, Volume};

verus! {

/// What was bought within a candle is the sum of what was bought at its prices, and what was
/// sold the sum of what was sold there. Quantities are at least zero, and the sums fit.
pub proof fn buys_and_sales_add_up(levels: Seq<PriceLevel>)
    requires
        forall|i: int|
            0 <= i < levels.len() ==> (#[trigger] levels[i]).buy.units >= 0 && levels[i].sell.units
                >= 0,
        levels.fold_left(0int, |sum: int, level: PriceLevel| sum + level.buy.units)
            <= 0x7fff_ffff_ffff_ffff,
        levels.fold_left(0int, |sum: int, level: PriceLevel| sum + level.sell.units)
            <= 0x7fff_ffff_ffff_ffff,
    ensures
        cumulative_delta::level_totals(levels).0.units == levels.fold_left(
            0int,
            |sum: int, level: PriceLevel| sum + level.buy.units,
        ),
        cumulative_delta::level_totals(levels).1.units == levels.fold_left(
            0int,
            |sum: int, level: PriceLevel| sum + level.sell.units,
        ),
        cumulative_delta::level_totals(levels).0.units >= 0,
        cumulative_delta::level_totals(levels).1.units >= 0,
    decreases levels.len(),
{
    if levels.len() > 0 {
        let front = levels.drop_last();
        assert forall|i: int| 0 <= i < front.len() implies (#[trigger] front[i]).buy.units >= 0
            && front[i].sell.units >= 0 by {
            assert(front[i] == levels[i]);
        }
        assert(levels[levels.len() - 1] == levels.last());
        buys_and_sales_add_up(front);
    }
}

/// A price adds what was bought there to what was bought, and what was sold there to what was
/// sold. One price alone gives exactly its quantities, none gives nothing.
pub proof fn each_price_counts_on_both_sides(levels: Seq<PriceLevel>, level: PriceLevel)
    ensures
        cumulative_delta::level_totals(Seq::empty()) == (Qty { units: 0 }, Qty { units: 0 }),
        cumulative_delta::level_totals(seq![level]) == (level.buy, level.sell),
        ({
            let before = cumulative_delta::level_totals(levels);
            let after = cumulative_delta::level_totals(levels.push(level));
            &&& -0x8000_0000_0000_0000 <= before.0.units + level.buy.units <= 0x7fff_ffff_ffff_ffff
                ==> after.0.units == before.0.units + level.buy.units
            &&& -0x8000_0000_0000_0000 <= before.1.units + level.sell.units <= 0x7fff_ffff_ffff_ffff
                ==> after.1.units == before.1.units + level.sell.units
        }),
{
    assert(levels.push(level).drop_last() =~= levels);
    assert(seq![level].drop_last() =~= Seq::<PriceLevel>::empty());
    assert(cumulative_delta::level_totals(Seq::<PriceLevel>::empty()) == (
        Qty { units: 0 },
        Qty { units: 0 },
    ));
}

proof fn lemma_sign(levels: Seq<PriceLevel>)
    ensures
        (forall|i: int|
            0 <= i < levels.len() ==> (#[trigger] levels[i]).buy.units >= levels[i].sell.units)
            ==> cumulative_delta::level_totals(levels).0.units
            >= cumulative_delta::level_totals(levels).1.units,
        (forall|i: int|
            0 <= i < levels.len() ==> (#[trigger] levels[i]).buy.units <= levels[i].sell.units)
            ==> cumulative_delta::level_totals(levels).0.units
            <= cumulative_delta::level_totals(levels).1.units,
    decreases levels.len(),
{
    if levels.len() > 0 {
        let front = levels.drop_last();
        assert(forall|i: int| 0 <= i < front.len() ==> #[trigger] front[i] == levels[i]);
        assert(levels[levels.len() - 1] == levels.last());
        lemma_sign(front);
    }
}

/// A candle in which at least as much was bought as sold at every price never lowers the
/// delta, and one in which at least as much was sold as bought never raises it.
pub proof fn the_delta_follows_the_larger_side(
    levels: Seq<PriceLevel>,
    total: Qty,
    coverage: TradeCoverage,
    trades: Seq<Trade>,
    allow_partial: bool,
    open: Qty,
)
    ensures
        ({
            let volume = cumulative_delta::directional(
                Volume::TotalOnly(total),
                levels,
                coverage,
                trades,
                allow_partial,
            );
            let point = cumulative_delta::point_from(open, volume);
            &&& (forall|i: int|
                0 <= i < levels.len() ==> (#[trigger] levels[i]).buy.units >= levels[i].sell.units)
                ==> point.delta.units >= 0 && point.close.units >= open.units
            &&& (forall|i: int|
                0 <= i < levels.len() ==> (#[trigger] levels[i]).buy.units <= levels[i].sell.units)
                ==> point.delta.units <= 0 && point.close.units <= open.units
        }),
{
    lemma_sign(levels);
}

/// A split that came with a candle counts as it is. Without one, its prices count where all
/// trades are known or some may be missing, and otherwise nothing is known.
pub proof fn a_known_split_counts_first(
    volume: Volume,
    levels: Seq<PriceLevel>,
    coverage: TradeCoverage,
    trades: Seq<Trade>,
    allow_partial: bool,
)
    ensures
        ({
            let found = cumulative_delta::directional(
                volume,
                levels,
                coverage,
                trades,
                allow_partial,
            );
            let totals = cumulative_delta::level_totals(levels);
            &&& volume matches Volume::BuySell(buy, sell) ==> found.buy == buy && found.sell == sell
                && found.reliable
            &&& volume is TotalOnly && levels.len() > 0 && (coverage == TradeCoverage::Complete
                || allow_partial) ==> found.reliable && found.buy == totals.0 && found.sell
                == totals.1
            &&& volume is TotalOnly && (levels.len() == 0 || (coverage != TradeCoverage::Complete
                && !allow_partial)) ==> !found.reliable && found.buy.units == 0 && found.sell.units
                == 0 && found.path is None
            &&& coverage != TradeCoverage::Complete || trades.len() == 0 ==> found.path is None
        }),
{
}

/// What a trade adds to the difference of a candle.
pub open spec fn signed(trade: Trade) -> int {
    if trade.is_sell {
        -trade.qty.units
    } else {
        trade.qty.units as int
    }
}

/// The difference after the trades at some places.
pub open spec fn difference(trades: Seq<Trade>, at: Seq<usize>) -> int {
    at.fold_left(0int, |sum: int, place: usize| sum + signed(trades[place as int]))
}

/// The running difference of trades is what was bought less what was sold so far. Its highest
/// and its lowest are reached, zero at the start included, and nothing lies beyond them.
pub proof fn the_path_spans_every_difference(trades: Seq<Trade>, at: Seq<usize>) -> (r: (int, int))
    requires
        forall|n: int|
            0 <= n <= at.len() ==> -0x8000_0000_0000_0000 <= #[trigger] difference(
                trades,
                at.take(n),
            ) <= 0x7fff_ffff_ffff_ffff,
    ensures
        cumulative_delta::running(trades, at).0.units == difference(trades, at),
        forall|n: int|
            0 <= n <= at.len() ==> cumulative_delta::running(trades, at).2.units
                <= #[trigger] difference(trades, at.take(n)) <= cumulative_delta::running(
                trades,
                at,
            ).1.units,
        0 <= r.0 <= at.len(),
        0 <= r.1 <= at.len(),
        cumulative_delta::running(trades, at).1.units == difference(trades, at.take(r.0)),
        cumulative_delta::running(trades, at).2.units == difference(trades, at.take(r.1)),
    decreases at.len(),
{
    assert(at.take(at.len() as int) =~= at);
    if at.len() == 0 {
        assert forall|n: int| 0 <= n <= at.len() implies #[trigger] difference(trades, at.take(n))
            == 0 by {
            assert(at.take(n) =~= at);
        }
        assert(at.take(0) =~= at);
        (0, 0)
    } else {
        let front = at.drop_last();
        assert forall|n: int| 0 <= n <= front.len() implies -0x8000_0000_0000_0000
            <= #[trigger] difference(trades, front.take(n)) <= 0x7fff_ffff_ffff_ffff by {
            assert(front.take(n) =~= at.take(n));
            assert(difference(trades, at.take(n)) <= 0x7fff_ffff_ffff_ffff);
        }
        let held = the_path_spans_every_difference(trades, front);
        let before = cumulative_delta::running(trades, front);
        let now = cumulative_delta::running(trades, at);
        let end = at.len() as int;
        assert(difference(trades, at.take(end)) == difference(trades, at));
        assert(difference(trades, at) == difference(trades, front) + signed(
            trades[at.last() as int],
        ));
        assert(now.0.units == difference(trades, at));
        assert forall|n: int| 0 <= n <= at.len() implies now.2.units <= #[trigger] difference(
            trades,
            at.take(n),
        ) <= now.1.units by {
            if n < end {
                assert(front.take(n) =~= at.take(n));
                assert(before.2.units <= difference(trades, front.take(n)) <= before.1.units);
            }
        }
        assert(front.take(held.0) =~= at.take(held.0));
        assert(front.take(held.1) =~= at.take(held.1));
        (
            if before.1.units >= now.0.units {
                held.0
            } else {
                end
            },
            if before.2.units <= now.0.units {
                held.1
            } else {
                end
            },
        )
    }
}

/// Trades are added up by their side: those that were sold on one, the others on the other.
pub proof fn trades_count_on_their_side(trades: Seq<Trade>, at: Seq<usize>)
    requires
        forall|k: int|
            0 <= k < at.len() ==> trades[(#[trigger] at[k]) as int].qty.units >= 0,
        at.fold_left(
            0int,
            |sum: int, place: usize| sum + trades[place as int].qty.units,
        ) <= 0x7fff_ffff_ffff_ffff,
    ensures
        cumulative_delta::trade_totals(trades, at).0.units == at.fold_left(
            0int,
            |sum: int, place: usize|
                sum + (if trades[place as int].is_sell {
                    0
                } else {
                    trades[place as int].qty.units as int
                }),
        ),
        cumulative_delta::trade_totals(trades, at).1.units == at.fold_left(
            0int,
            |sum: int, place: usize|
                sum + (if trades[place as int].is_sell {
                    trades[place as int].qty.units as int
                } else {
                    0
                }),
        ),
        cumulative_delta::trade_totals(trades, at).0.units >= 0,
        cumulative_delta::trade_totals(trades, at).1.units >= 0,
        cumulative_delta::trade_totals(trades, at).0.units + cumulative_delta::trade_totals(
            trades,
            at,
        ).1.units == at.fold_left(
            0int,
            |sum: int, place: usize| sum + trades[place as int].qty.units,
        ),
    decreases at.len(),
{
    if at.len() > 0 {
        let front = at.drop_last();
        assert forall|k: int| 0 <= k < front.len() implies trades[(
        #[trigger] front[k]) as int].qty.units >= 0 by {
            assert(front[k] == at[k]);
        }
        assert(at[at.len() - 1] == at.last());
        trades_count_on_their_side(trades, front);
    }
}

/// The trades of a candle are walked by time, trades of one moment as they came: any list of
/// all their places that is ordered so is the one that is walked.
pub proof fn trades_are_walked_by_time(trades: Seq<Trade>, at: Seq<usize>)
    requires
        at.len() == trades.len(),
        forall|k: int| 0 <= k < at.len() ==> (#[trigger] at[k]) < trades.len(),
        forall|place: usize| place < trades.len() ==> #[trigger] at.contains(place),
        forall|a: int, b: int|
            0 <= a < b < at.len() ==> {
                let earlier = trades[(#[trigger] at[a]) as int].time.ms;
                let later = trades[(#[trigger] at[b]) as int].time.ms;
                earlier < later || (earlier == later && at[a] < at[b])
            },
    ensures
        cumulative_delta::by_time(trades) == at,
{
    let keys = cumulative_delta::time_keys(trades);
    assert(order::is_stable_order(keys, 0, trades.len() as int, at));
    order::stable_order_is_unique(keys, at, cumulative_delta::by_time(trades));
}

/// How far the difference got is known where all trades are, and where they add up to what
/// was bought and sold.
pub proof fn paths_need_matching_trades(trades: Seq<Trade>, buy: Qty, sell: Qty)
    requires
        trades.len() > 0,
    ensures
        ({
            let at = cumulative_delta::by_time(trades);
            let totals = cumulative_delta::trade_totals(trades, at);
            let path = cumulative_delta::complete_path(TradeCoverage::Complete, trades, buy, sell);
            &&& path is Some <==> totals.0.units == buy.units && totals.1.units == sell.units
            &&& path matches Some(reach) ==> reach.0 == cumulative_delta::running(trades, at).1
                && reach.1 == cumulative_delta::running(trades, at).2
        }),
{
}

/// A candle of the cumulative delta closes above its open by what was bought less what was
/// sold. It reaches as high and as low as its open, its close and its path, and no further.
pub proof fn a_candle_moves_by_its_difference(open: Qty, volume: DirectionalVolume)
    requires
        -0x8000_0000_0000_0000 <= volume.buy.units - volume.sell.units <= 0x7fff_ffff_ffff_ffff,
        -0x8000_0000_0000_0000 <= open.units + volume.buy.units - volume.sell.units
            <= 0x7fff_ffff_ffff_ffff,
        volume.path matches Some(path) ==> -0x8000_0000_0000_0000 <= open.units + path.0.units
            <= 0x7fff_ffff_ffff_ffff && -0x8000_0000_0000_0000 <= open.units + path.1.units
            <= 0x7fff_ffff_ffff_ffff,
    ensures
        ({
            let point = cumulative_delta::point_from(open, volume);
            &&& point.open == open
            &&& point.delta.units == volume.buy.units - volume.sell.units
            &&& point.close.units - point.open.units == volume.buy.units - volume.sell.units
            &&& point.reliable == volume.reliable
            &&& point.high.units >= open.units && point.high.units >= point.close.units
            &&& point.low.units <= open.units && point.low.units <= point.close.units
            &&& volume.path is None ==> (point.high == open || point.high == point.close) && (
            point.low == open || point.low == point.close)
            &&& volume.path matches Some(path) ==> {
                &&& point.high.units >= open.units + path.0.units
                &&& point.low.units <= open.units + path.1.units
                &&& point.high == open || point.high == point.close || point.high.units
                    == open.units + path.0.units
                &&& point.low == open || point.low == point.close || point.low.units == open.units
                    + path.1.units
            }
        }),
{
}

/// The difference of the first candles together.
pub open spec fn total_difference(deltas: Seq<(u64, DirectionalVolume)>) -> int {
    deltas.fold_left(
        0int,
        |sum: int, delta: (u64, DirectionalVolume)| sum + delta.1.buy.units - delta.1.sell.units,
    )
}

/// Without a reset a candle closes at the sum of all differences up to its own.
pub proof fn closes_are_running_sums(deltas: Seq<(u64, DirectionalVolume)>)
    requires
        deltas.len() > 0,
        forall|i: int|
            0 <= i < deltas.len() ==> -0x8000_0000_0000_0000 <= (#[trigger] deltas[i]).1.buy.units
                - deltas[i].1.sell.units <= 0x7fff_ffff_ffff_ffff,
        forall|n: int|
            0 <= n <= deltas.len() ==> -0x8000_0000_0000_0000 <= #[trigger] total_difference(
                deltas.take(n),
            ) <= 0x7fff_ffff_ffff_ffff,
    ensures
        cumulative_delta::accumulated(deltas, false).len() == deltas.len(),
        cumulative_delta::accumulated(deltas, false).last().0 == deltas.last().0,
        cumulative_delta::accumulated(deltas, false).last().1.close.units == total_difference(
            deltas,
        ),
        cumulative_delta::accumulated(deltas, false).last().1.delta.units
            == deltas.last().1.buy.units - deltas.last().1.sell.units,
    decreases deltas.len(),
{
    let front = deltas.drop_last();
    assert(deltas.take(deltas.len() as int) =~= deltas);
    assert(total_difference(deltas.take(deltas.len() as int)) == total_difference(deltas));
    assert(deltas[deltas.len() - 1] == deltas.last());
    assert(total_difference(deltas) == total_difference(front) + deltas.last().1.buy.units
        - deltas.last().1.sell.units);
    if front.len() > 0 {
        assert forall|i: int| 0 <= i < front.len() implies -0x8000_0000_0000_0000 <= (
        #[trigger] front[i]).1.buy.units - front[i].1.sell.units <= 0x7fff_ffff_ffff_ffff by {
            assert(front[i] == deltas[i]);
        }
        assert forall|n: int| 0 <= n <= front.len() implies -0x8000_0000_0000_0000
            <= #[trigger] total_difference(front.take(n)) <= 0x7fff_ffff_ffff_ffff by {
            assert(front.take(n) =~= deltas.take(n));
            assert(total_difference(deltas.take(n)) <= 0x7fff_ffff_ffff_ffff);
        }
        closes_are_running_sums(front);
    } else {
        assert(total_difference(front) == 0);
        assert(cumulative_delta::accumulated(front, false).len() == 0);
    }
}

/// With a daily reset the first candle of a day opens at zero, and every other candle where
/// the one before closed. A day has 24 hours.
pub proof fn days_open_at_zero(deltas: Seq<(u64, DirectionalVolume)>, daily: bool, i: int)
    requires
        0 < i < deltas.len(),
    ensures
        cumulative_delta::accumulated(deltas, daily)[0].1.open.units == 0,
        daily && deltas[i - 1].0 / 86_400_000 != deltas[i].0 / 86_400_000
            ==> cumulative_delta::accumulated(deltas, daily)[i].1.open.units == 0,
        !daily || deltas[i - 1].0 / 86_400_000 == deltas[i].0 / 86_400_000
            ==> cumulative_delta::accumulated(deltas, daily)[i].1.open
            == cumulative_delta::accumulated(deltas, daily)[i - 1].1.close,
{
    cumulative_delta::candles_continue_each_other(deltas, daily, 0);
    cumulative_delta::candles_continue_each_other(deltas, daily, i);
}

/// Of candles of a fixed duration only the last may lack trades: a candle before it without a
/// split is known only where all of its trades are.
pub proof fn only_the_last_candle_may_lack_trades(candles: Seq<(u64, CandleFlow)>, i: int)
    requires
        0 <= i < candles.len(),
        candles[i].1.volume is TotalOnly,
        candles[i].1.levels@.len() > 0,
    ensures
        cumulative_delta::time_deltas(candles).len() == candles.len(),
        cumulative_delta::time_deltas(candles)[i].0 == candles[i].0,
        ({
            let known = candles[i].1.trade_coverage == TradeCoverage::Complete || candles[i].0
                == candles[candles.len() - 1].0;
            let delta = cumulative_delta::time_deltas(candles)[i].1;
            let totals = cumulative_delta::level_totals(candles[i].1.levels@);
            &&& delta.reliable == known
            &&& known ==> delta.buy == totals.0 && delta.sell == totals.1
            &&& !known ==> delta.buy.units == 0 && delta.sell.units == 0
        }),
{
}

/// Candles of ticks are numbered, and known where they came with a split.
pub proof fn tick_candles_need_a_split(volumes: Seq<Volume>, i: int)
    requires
        0 <= i < volumes.len() <= u64::MAX,
    ensures
        cumulative_delta::tick_deltas(volumes).len() == volumes.len(),
        cumulative_delta::tick_deltas(volumes)[i].0 == i,
        cumulative_delta::tick_deltas(volumes)[i].1.path is None,
        volumes[i] matches Volume::BuySell(buy, sell) ==> {
            let delta = cumulative_delta::tick_deltas(volumes)[i].1;
            delta.buy == buy && delta.sell == sell && delta.reliable
        },
        volumes[i] is TotalOnly ==> {
            let delta = cumulative_delta::tick_deltas(volumes)[i].1;
            delta.buy.units == 0 && delta.sell.units == 0 && !delta.reliable
        },
{
}

proof fn lemma_place(series: Seq<(u64, DirectionalVolume)>, bucket: u64)
    ensures
        0 <= cumulative_delta::place_in(series, bucket) <= series.len(),
        forall|i: int|
            0 <= i < cumulative_delta::place_in(series, bucket) ==> (#[trigger] series[i]).0
                < bucket,
        cumulative_delta::place_in(series, bucket) < series.len()
            ==> series[cumulative_delta::place_in(series, bucket)].0 >= bucket,
    decreases series.len(),
{
    if series.len() > 0 && series[0].0 < bucket {
        let rest = series.skip(1);
        lemma_place(rest, bucket);
        let place = cumulative_delta::place_in(series, bucket);
        assert forall|i: int| 0 <= i < place implies (#[trigger] series[i]).0 < bucket by {
            if i > 0 {
                assert(rest[i - 1] == series[i]);
            }
        }
        if place < series.len() {
            assert(rest[place - 1] == series[place]);
        }
    }
}

/// An amount is added to the candle of its bucket, on its side alone; a candle that was not
/// there is put in its place by time. Every other candle stays, and the candles stay in order.
pub proof fn amounts_go_to_their_candle(
    series: Seq<(u64, DirectionalVolume)>,
    bucket: u64,
    is_sell: bool,
    amount: Qty,
) -> (k: int)
    requires
        forall|a: int, b: int|
            0 <= a < b < series.len() ==> (#[trigger] series[a]).0 < (#[trigger] series[b]).0,
    ensures
        ({
            let after = cumulative_delta::added(series, bucket, is_sell, amount);
            let held = 0 <= k < series.len() && series[k].0 == bucket;
            let old_buy = if held {
                series[k].1.buy.units as int
            } else {
                0
            };
            let old_sell = if held {
                series[k].1.sell.units as int
            } else {
                0
            };
            let new_buy = old_buy + if is_sell {
                0
            } else {
                amount.units as int
            };
            let new_sell = old_sell + if is_sell {
                amount.units as int
            } else {
                0
            };
            &&& 0 <= k < after.len()
            &&& after.len() == series.len() + if held {
                0int
            } else {
                1
            }
            &&& after[k].0 == bucket
            &&& after[k].1.reliable
            &&& -0x8000_0000_0000_0000 <= new_buy <= 0x7fff_ffff_ffff_ffff ==> after[k].1.buy.units
                == new_buy
            &&& -0x8000_0000_0000_0000 <= new_sell <= 0x7fff_ffff_ffff_ffff
                ==> after[k].1.sell.units == new_sell
            &&& forall|i: int| 0 <= i < k ==> #[trigger] after[i] == series[i]
            &&& forall|i: int|
                k < i < after.len() ==> #[trigger] after[i] == series[if held {
                    i
                } else {
                    i - 1
                }]
            &&& forall|a: int, b: int|
                0 <= a < b < after.len() ==> (#[trigger] after[a]).0 < (#[trigger] after[b]).0
        }),
{
    lemma_place(series, bucket);
    let k = cumulative_delta::place_in(series, bucket);
    let after = cumulative_delta::added(series, bucket, is_sell, amount);
    let held = k < series.len() && series[k].0 == bucket;
    assert forall|a: int, b: int| 0 <= a < b < after.len() implies (#[trigger] after[a]).0 < (
    #[trigger] after[b]).0 by {
        if !held {
            let from_a = if a < k {
                a
            } else {
                a - 1
            };
            let from_b = if b < k {
                b
            } else {
                b - 1
            };
            if a != k && b != k {
                assert(series[from_a].0 < series[from_b].0);
            } else if a == k {
                assert(series[k].0 <= series[from_b].0);
            }
        } else {
            assert(series[a].0 < series[b].0);
        }
    }
    k
}

/// Which trades of other markets count: those of the spot market where the source is the spot
/// market, those of derivatives where it is these, both where it is both, and none where the
/// chart is the source. A trade without an amount counts nowhere. It counts in the candle of
/// its time, on the series of its market where the two are kept apart.
pub proof fn trades_count_in_their_market(
    model: IndicatorModel,
    is_spot: bool,
    trade: ExternalTrade,
    timeframe: Timeframe,
)
    requires
        trade.amount is Some,
    ensures
        ({
            let after = model.with_trade(is_spot, trade, timeframe);
            let start = trade.time.ms - trade.time.ms % timeframe.ms();
            let spot_only = model.config.source_mode == CvdSourceMode::MatchingSpot
                || model.config.source_mode == CvdSourceMode::CompositeSpot;
            let perpetual_only = model.config.source_mode == CvdSourceMode::CompositePerpetual;
            let both = model.config.source_mode == CvdSourceMode::CompositeSpotAndPerpetual;
            let counts = (spot_only && is_spot) || (perpetual_only && !is_spot) || both;
            &&& !counts ==> after == model
            &&& counts && both && is_spot ==> after == (IndicatorModel {
                composite_spot: cumulative_delta::added(
                    model.composite_spot,
                    start as u64,
                    trade.is_sell,
                    trade.amount->0,
                ),
                ..model
            })
            &&& counts && !(both && is_spot) ==> after == (IndicatorModel {
                composite: cumulative_delta::added(
                    model.composite,
                    start as u64,
                    trade.is_sell,
                    trade.amount->0,
                ),
                ..model
            })
        }),
{
}

/// A trade without an amount counts nowhere.
pub proof fn trades_without_an_amount_do_not_count(
    model: IndicatorModel,
    is_spot: bool,
    trade: ExternalTrade,
    timeframe: Timeframe,
)
    requires
        trade.amount is None,
    ensures
        model.with_trade(is_spot, trade, timeframe) == model,
{
}

/// Trades of other markets are taken in one after the other, in their order.
pub proof fn deliveries_can_be_split(
    model: IndicatorModel,
    is_spot: bool,
    first: Seq<ExternalTrade>,
    second: Seq<ExternalTrade>,
    timeframe: Timeframe,
)
    ensures
        model.with_trades(is_spot, first + second, timeframe) == model.with_trades(
            is_spot,
            first,
            timeframe,
        ).with_trades(is_spot, second, timeframe),
        model.with_trades(is_spot, Seq::empty(), timeframe) == model,
        second.len() == 1 ==> model.with_trades(is_spot, second, timeframe) == model.with_trade(
            is_spot,
            second[0],
            timeframe,
        ),
    decreases second.len(),
{
    if second.len() == 0 {
        assert(first + second =~= first);
    } else {
        let front = second.drop_last();
        assert((first + second).drop_last() =~= first + front);
        assert((first + second).last() == second.last());
        deliveries_can_be_split(model, is_spot, first, front, timeframe);
        if second.len() == 1 {
            assert(front =~= Seq::<ExternalTrade>::empty());
            assert(model.with_trades(is_spot, front, timeframe) == model);
        }
    }
}

/// Trades of other markets make the indicator available on candles of a fixed duration, whose
/// sums then follow them, and unavailable on candles of ticks. The chart as the source ignores
/// them.
pub proof fn external_trades_set_the_availability(
    model: IndicatorModel,
    is_spot: bool,
    trades: Seq<ExternalTrade>,
    timeframe: Option<Timeframe>,
)
    ensures
        ({
            let after = model.with_external(is_spot, trades, timeframe);
            let ignored = model.config.source_mode == CvdSourceMode::Chart || trades.len() == 0;
            &&& after.config == model.config
            &&& ignored ==> after == model
            &&& !ignored && timeframe is None ==> after == (IndicatorModel {
                availability: CvdAvailability::NotOnTicks,
                ..model
            })
            &&& !ignored && timeframe is Some ==> {
                let daily = model.config.reset == CvdReset::DailyUtc;
                let held = model.with_trades(is_spot, trades, timeframe->0);
                &&& after.availability == CvdAvailability::Available
                &&& !after.ticks
                &&& after.composite == held.composite
                &&& after.composite_spot == held.composite_spot
                &&& after.delta == held.composite
                &&& after.data == cumulative_delta::accumulated(held.composite, daily)
                &&& model.config.source_mode == CvdSourceMode::CompositeSpotAndPerpetual
                    ==> after.spot_data == cumulative_delta::accumulated(
                    held.composite_spot,
                    daily,
                )
                &&& model.config.source_mode != CvdSourceMode::CompositeSpotAndPerpetual
                    ==> after.spot_data == model.spot_data
            }
        }),
{
    if timeframe is Some {
        lemma_trades_keep(model, is_spot, trades, timeframe->0);
    }
}

proof fn lemma_trades_keep(
    model: IndicatorModel,
    is_spot: bool,
    trades: Seq<ExternalTrade>,
    timeframe: Timeframe,
)
    ensures
        model.with_trades(is_spot, trades, timeframe).config == model.config,
        model.with_trades(is_spot, trades, timeframe).spot_data == model.spot_data,
    decreases trades.len(),
{
    if trades.len() > 0 {
        lemma_trades_keep(model, is_spot, trades.drop_last(), timeframe);
    }
}

/// The deltas of the candles of a chart.
pub open spec fn deltas_of(source: CandleSource) -> Seq<(u64, DirectionalVolume)> {
    match source {
        CandleSource::Time(candles) => cumulative_delta::time_deltas(candles@),
        CandleSource::Tick(volumes) => cumulative_delta::tick_deltas(volumes@),
    }
}

/// With the chart as the source, the sums follow its candles, and the indicator is available
/// as soon as one of them tells what was bought and sold.
pub proof fn candles_set_the_availability(model: IndicatorModel, source: CandleSource)
    requires
        model.config.source_mode == CvdSourceMode::Chart,
    ensures
        ({
            let after = model.rebuilt(source);
            let deltas = deltas_of(source);
            let daily = source is Time && model.config.reset == CvdReset::DailyUtc;
            &&& after.config == model.config
            &&& after.delta == deltas
            &&& after.data == cumulative_delta::accumulated(deltas, daily)
            &&& after.ticks == (source is Tick)
            &&& after.composite == model.composite
            &&& after.composite_spot == model.composite_spot
            &&& after.spot_data == model.spot_data
            &&& deltas.len() == 0 ==> after.availability == CvdAvailability::Unknown
            &&& deltas.len() > 0 && (forall|i: int|
                0 <= i < deltas.len() ==> !(#[trigger] deltas[i]).1.reliable) ==> after.availability
                == CvdAvailability::NoTradeData
            &&& forall|i: int|
                0 <= i < deltas.len() && (#[trigger] deltas[i]).1.reliable ==> after.availability
                    == CvdAvailability::Available
        }),
{
    let deltas = deltas_of(source);
    assert forall|i: int| 0 <= i < deltas.len() && (#[trigger] deltas[i]).1.reliable implies model.rebuilt(
        source,
    ).availability == CvdAvailability::Available by {
        assert(cumulative_delta::any_reliable(deltas));
    }
}

/// With other markets as the source, the sums follow what was taken in of them, and the
/// indicator is available as soon as anything was.
pub proof fn other_markets_set_the_availability(model: IndicatorModel, source: CandleSource)
    requires
        model.config.source_mode != CvdSourceMode::Chart,
    ensures
        ({
            let after = model.rebuilt(source);
            let daily = model.config.reset == CvdReset::DailyUtc;
            &&& after.config == model.config
            &&& after.delta == model.composite
            &&& after.data == cumulative_delta::accumulated(model.composite, daily)
            &&& after.composite == model.composite
            &&& after.composite_spot == model.composite_spot
            &&& !after.ticks
            &&& model.config.source_mode == CvdSourceMode::CompositeSpotAndPerpetual
                ==> after.spot_data == cumulative_delta::accumulated(model.composite_spot, daily)
            &&& after.availability == if model.composite.len() == 0 && model.composite_spot.len()
                == 0 {
                CvdAvailability::Unknown
            } else {
                CvdAvailability::Available
            }
        }),
{
}

/// Another source, unit or set of venues starts from nothing. Another reset keeps the deltas
/// and adds them up anew. Any other change keeps everything.
pub proof fn another_configuration_keeps_what_it_can(model: IndicatorModel, config: CvdConfig)
    ensures
        ({
            let after = model.with_config(config);
            let other_data = model.config.source_mode != config.source_mode
                || model.config.aggregation_unit != config.aggregation_unit
                || model.config.venue_mask != config.venue_mask;
            let daily = config.reset == CvdReset::DailyUtc;
            &&& after.config == config
            &&& other_data ==> after.delta.len() == 0 && after.data.len() == 0
                && after.composite.len() == 0 && after.composite_spot.len() == 0
                && after.spot_data.len() == 0 && after.availability == CvdAvailability::Unknown
                && !after.ticks
            &&& !other_data ==> after.delta == model.delta && after.composite == model.composite
                && after.composite_spot == model.composite_spot && after.availability
                == model.availability && after.ticks == model.ticks
            &&& !other_data && model.config.reset == config.reset ==> after.data == model.data
                && after.spot_data == model.spot_data
            &&& !other_data && model.config.reset != config.reset ==> after.data
                == cumulative_delta::accumulated(model.delta, !model.ticks && daily)
            &&& !other_data && model.config.reset != config.reset && config.source_mode
                == CvdSourceMode::CompositeSpotAndPerpetual ==> after.spot_data
                == cumulative_delta::accumulated(model.composite_spot, daily)
        }),
{
}

} // verus!
