//! What open interest below a chart promises, stated on figures, moments and durations.
use vstd::prelude::*;
use crate::chart::indicator::kline::open_interest;
use crate::chart::indicator::kline::open_interest::{
    Exchange, FetchContext, IndicatorModel, OpenInterestAvailability,
};
use crate::chart::kline::market::Basis;
use crate::connector::records::OpenInterest;
use crate::units::{Bits64, Timeframe};

verus! {

/// Open interest is had of perpetuals on candles of up to four hours whose duration an exchange
/// offers; finer candles take figures of five minutes. A reason is given where it is not.
pub proof fn sources_are_as_fine_as_they_can_be(
    timeframe: Timeframe,
    exchange: Exchange,
    trades: u16,
)
    ensures
        open_interest::source_of(timeframe) matches Some(source) ==> {
            &&& source.ms() >= timeframe.ms()
            &&& timeframe.ms() >= 300_000 ==> source == timeframe
            &&& timeframe.ms() < 300_000 ==> source.ms() == 300_000
        },
        open_interest::source_of(timeframe) is Some <==> timeframe.ms() == 60_000 || timeframe.ms()
            == 180_000 || timeframe.ms() == 300_000 || timeframe.ms() == 900_000 || timeframe.ms()
            == 1_800_000 || timeframe.ms() == 3_600_000 || timeframe.ms() == 14_400_000,
        open_interest::availability(Basis::Tick(trades), exchange)
            == OpenInterestAvailability::NotOnBasis(Basis::Tick(trades)),
        exchange != Exchange::OtherPerpetuals ==> open_interest::availability(
            Basis::Time(timeframe),
            exchange,
        ) == OpenInterestAvailability::NotOnExchange(exchange),
        exchange == Exchange::OtherPerpetuals && open_interest::source_of(timeframe) is None
            ==> open_interest::availability(Basis::Time(timeframe), exchange)
            == OpenInterestAvailability::NotOnTimeframe(timeframe),
        exchange == Exchange::OtherPerpetuals && open_interest::source_of(timeframe) is Some
            ==> open_interest::availability(Basis::Time(timeframe), exchange)
            == OpenInterestAvailability::Available,
{
}

/// A candle reaches from the figure before it to its own, no higher and no lower. Figures are
/// at least zero.
pub proof fn candles_reach_between_two_figures(data: Seq<(u64, Bits64)>, i: int)
    requires
        0 <= i < data.len(),
        forall|k: int| 0 <= k < data.len() ==> (#[trigger] data[k]).1.bits <= 0x7ff0_0000_0000_0000,
    ensures
        ({
            let (time, candle) = open_interest::candles_of(data)[i];
            &&& open_interest::candles_of(data).len() == data.len()
            &&& time == data[i].0
            &&& candle.close == data[i].1
            &&& i > 0 ==> candle.open == data[i - 1].1
            &&& i == 0 ==> candle.open == data[0].1
            &&& candle.high.bits >= candle.open.bits && candle.high.bits >= candle.close.bits
            &&& candle.high == candle.open || candle.high == candle.close
            &&& candle.low.bits <= candle.open.bits && candle.low.bits <= candle.close.bits
            &&& candle.low == candle.open || candle.low == candle.close
        }),
{
    assert(data[i].1.bits <= 0x7ff0_0000_0000_0000);
    if i > 0 {
        assert(data[i - 1].1.bits <= 0x7ff0_0000_0000_0000);
    }
}

/// Of two figures of which one is no number the other counts as the larger and as the smaller.
pub proof fn numbers_come_before_what_is_none(a: Bits64, b: Bits64)
    requires
        0x7ff0_0000_0000_0000 < a.bits < 0x8000_0000_0000_0000,
        b.bits <= 0x7ff0_0000_0000_0000,
    ensures
        open_interest::larger_figure(a, b) == b,
        open_interest::larger_figure(b, a) == b,
        open_interest::smaller_figure(a, b) == b,
        open_interest::smaller_figure(b, a) == b,
{
}

proof fn lemma_place(data: Seq<(u64, Bits64)>, time: u64)
    ensures
        0 <= open_interest::place_in(data, time) <= data.len(),
        forall|i: int|
            0 <= i < open_interest::place_in(data, time) ==> (#[trigger] data[i]).0 < time,
        open_interest::place_in(data, time) < data.len() ==> data[open_interest::place_in(
            data,
            time,
        )].0 >= time,
    decreases data.len(),
{
    if data.len() > 0 && data[0].0 < time {
        let rest = data.skip(1);
        lemma_place(rest, time);
        let place = open_interest::place_in(data, time);
        assert forall|i: int| 0 <= i < place implies (#[trigger] data[i]).0 < time by {
            if i > 0 {
                assert(rest[i - 1] == data[i]);
            }
        }
        if place < data.len() {
            assert(rest[place - 1] == data[place]);
        }
    }
}

/// A figure takes the place of the one of its moment, or is put between its neighbours, and
/// every other figure stays.
pub proof fn figures_replace_those_of_their_moment(
    data: Seq<(u64, Bits64)>,
    entry: OpenInterest,
) -> (k: int)
    requires
        forall|a: int, b: int|
            0 <= a < b < data.len() ==> (#[trigger] data[a]).0 < (#[trigger] data[b]).0,
    ensures
        ({
            let after = open_interest::recorded(data, entry);
            let held = 0 <= k < data.len() && data[k].0 == entry.time.ms;
            &&& 0 <= k < after.len()
            &&& after[k] == (entry.time.ms, entry.value)
            &&& held ==> after.len() == data.len()
            &&& !held ==> after.len() == data.len() + 1
            &&& forall|i: int| 0 <= i < k ==> #[trigger] after[i] == data[i] && after[i].0
                < entry.time.ms
            &&& forall|i: int|
                k < i < after.len() ==> (#[trigger] after[i]).0 > entry.time.ms && after[i]
                    == data[if held {
                    i
                } else {
                    i - 1
                }]
        }),
{
    lemma_place(data, entry.time.ms);
    let k = open_interest::place_in(data, entry.time.ms);
    let after = open_interest::recorded(data, entry);
    let held = k < data.len() && data[k].0 == entry.time.ms;
    assert forall|i: int| k < i < after.len() implies (#[trigger] after[i]).0 > entry.time.ms
        && after[i] == data[if held {
        i
    } else {
        i - 1
    }] by {
        let from = if held {
            i
        } else {
            i - 1
        };
        if from > k {
            assert(data[k].0 < data[from].0);
        }
    }
    k
}

/// Figures are taken in one after the other, in their order.
pub proof fn deliveries_can_be_split(
    data: Seq<(u64, Bits64)>,
    first: Seq<OpenInterest>,
    second: Seq<OpenInterest>,
)
    ensures
        open_interest::all_recorded(data, first + second) == open_interest::all_recorded(
            open_interest::all_recorded(data, first),
            second,
        ),
        open_interest::all_recorded(data, Seq::empty()) == data,
        second.len() == 1 ==> open_interest::all_recorded(data, second) == open_interest::recorded(
            data,
            second[0],
        ),
    decreases second.len(),
{
    if second.len() == 0 {
        assert(first + second =~= first);
    } else {
        let front = second.drop_last();
        assert((first + second).drop_last() =~= first + front);
        assert((first + second).last() == second.last());
        deliveries_can_be_split(data, first, front);
        if second.len() == 1 {
            assert(front =~= Seq::<OpenInterest>::empty());
        }
    }
}

proof fn lemma_range(data: Seq<(u64, Bits64)>, latest: u64)
    ensures
        open_interest::time_range(data, latest).0 <= latest,
        forall|i: int|
            0 <= i < data.len() ==> open_interest::time_range(data, latest).0 <= (
            #[trigger] data[i]).0 <= open_interest::time_range(data, latest).1,
        open_interest::time_range(data, latest).0 == latest || exists|i: int|
            0 <= i < data.len() && (#[trigger] data[i]).0 == open_interest::time_range(
                data,
                latest,
            ).0,
        open_interest::time_range(data, latest).1 == 0 || exists|i: int|
            0 <= i < data.len() && (#[trigger] data[i]).0 == open_interest::time_range(
                data,
                latest,
            ).1,
    decreases data.len(),
{
    if data.len() > 0 {
        let front = data.drop_last();
        lemma_range(front, latest);
        let last = data.len() - 1;
        assert(data[last] == data.last());
        assert(forall|i: int| 0 <= i < front.len() ==> #[trigger] front[i] == data[i]);
        let before = open_interest::time_range(front, latest);
        if exists|i: int| 0 <= i < front.len() && (#[trigger] front[i]).0 == before.0 {
            let i = choose|i: int| 0 <= i < front.len() && (#[trigger] front[i]).0 == before.0;
            assert(data[i].0 == before.0);
        }
        if exists|i: int| 0 <= i < front.len() && (#[trigger] front[i]).0 == before.1 {
            let i = choose|i: int| 0 <= i < front.len() && (#[trigger] front[i]).0 == before.1;
            assert(data[i].0 == before.1);
        }
        let range = open_interest::time_range(data, latest);
        assert forall|i: int| 0 <= i < data.len() implies range.0 <= (#[trigger] data[i]).0
            <= range.1 by {
            if i < last {
                assert(front[i] == data[i]);
            }
        }
    }
}

/// What is visible before the first figure is fetched first, from where data is fetched ahead
/// up to that figure. Once a whole step has come up since the last figure, the rest up to the
/// last candle is fetched. `first` and `last` are the first and the last figure.
pub proof fn missing_figures_are_fetched(
    model: IndicatorModel,
    context: FetchContext,
    source: Timeframe,
    first: int,
    last: int,
)
    requires
        0 <= first < model.data.len(),
        0 <= last < model.data.len(),
        forall|i: int|
            0 <= i < model.data.len() ==> model.data[first].0 <= (#[trigger] model.data[i]).0
                <= model.data[last].0,
        model.data[first].0 <= context.kline_latest.ms,
        model.data[last].0 + source.ms() <= 0xffff_ffff_ffff_ffff,
    ensures
        ({
            let begin = model.data[first].0;
            let end = model.data[last].0;
            let found = model.missing(context, source);
            &&& context.visible_earliest.ms < begin ==> (found matches Some(range) && range.from
                == context.prefetch_earliest && range.to.ms == begin && range.timeframe == source)
            &&& context.visible_earliest.ms >= begin && end + source.ms()
                <= context.kline_latest.ms ==> (found matches Some(range) && range.to
                == context.kline_latest && range.timeframe == source && range.from.ms >= end
                && range.from.ms >= context.prefetch_earliest.ms && (range.from.ms == end
                || range.from == context.prefetch_earliest))
            &&& context.visible_earliest.ms >= begin && end + source.ms()
                > context.kline_latest.ms ==> found is None
        }),
{
    lemma_range(model.data, context.kline_latest.ms);
    let range = open_interest::time_range(model.data, context.kline_latest.ms);
    assert(range.0 <= model.data[first].0);
    assert(range.1 >= model.data[last].0);
}

/// Without figures everything up to the last candle is fetched.
pub proof fn without_figures_all_are_fetched(
    model: IndicatorModel,
    context: FetchContext,
    source: Timeframe,
)
    requires
        model.data.len() == 0,
        context.visible_earliest.ms < context.kline_latest.ms,
    ensures
        model.missing(context, source) matches Some(range) && range.from
            == context.prefetch_earliest && range.to == context.kline_latest && range.timeframe
            == source,
{
}

/// Figures of another source are dropped, those of the same are kept.
pub proof fn sources_do_not_mix(model: IndicatorModel, source: Timeframe)
    ensures
        model.with_source(source).source_timeframe == Some(source),
        model.source_timeframe == Some(source) ==> model.with_source(source) == model,
        model.source_timeframe != Some(source) ==> model.with_source(source).data.len() == 0
            && model.with_source(source).candles.len() == 0,
{
}

} // verus!
