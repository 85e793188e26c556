//! What a footprint promises, stated on the quantities of neighbouring prices, on the studies
//! and on the candles themselves.
use vstd::prelude::*;
use crate::chart::kline::footprint;
use crate::chart::kline::footprint::{
    BubbleQuantities, ClusterKind, FootprintStudy, Imbalance, ImbalanceRule, ImbalanceSide,
    LevelFigures, NPoc, NPocLine, PocEntry,
};
use crate::chart::kline::profiles::PriceLevel;
use crate::units::{Bits64, PriceStep};

verus! {

/// A level is found at its price, the first one where several share it.
proof fn lemma_found(levels: Seq<PriceLevel>, units: int, k: int)
    requires
        0 <= k < levels.len(),
        levels[k].price.units == units,
        forall|j: int| 0 <= j < k ==> (#[trigger] levels[j]).price.units != units,
    ensures
        footprint::level_place(levels, units) == k,
    decreases levels.len(),
{
    let front = levels.drop_last();
    if k < front.len() {
        assert forall|j: int| 0 <= j < k implies (#[trigger] front[j]).price.units != units by {
            assert(levels[j].price.units != units);
        }
        lemma_found(front, units, k);
    } else {
        assert forall|j: int| 0 <= j < front.len() implies (#[trigger] front[j]).price.units
            != units by {
            assert(levels[j].price.units != units);
        }
        lemma_not_found(front, units);
    }
}

proof fn lemma_not_found(levels: Seq<PriceLevel>, units: int)
    requires
        forall|j: int| 0 <= j < levels.len() ==> (#[trigger] levels[j]).price.units != units,
    ensures
        footprint::level_place(levels, units) == levels.len(),
    decreases levels.len(),
{
    if levels.len() > 0 {
        let front = levels.drop_last();
        assert forall|j: int| 0 <= j < front.len() implies (#[trigger] front[j]).price.units
            != units by {
            assert(levels[j].price.units != units);
        }
        lemma_not_found(front, units);
    }
}

/// Outside of tables, what was sold at a price is held against what was bought one step
/// higher, at `k`. The larger of the two is marked whenever it exceeds what is required of it,
/// a sale at its own price and a purchase one step higher, and nothing else is. With
/// `ignore_zeros` both have to be above zero. Quantities are figures at least zero.
pub proof fn the_larger_diagonal_is_marked(
    levels: Seq<PriceLevel>,
    figures: Seq<LevelFigures>,
    i: int,
    k: int,
    kind: ClusterKind,
    step: PriceStep,
    rule: ImbalanceRule,
)
    requires
        0 <= i < levels.len(),
        0 <= k < levels.len(),
        figures.len() == levels.len(),
        levels[k].price.units == levels[i].price.units + step.units,
        forall|j: int| 0 <= j < k ==> (#[trigger] levels[j]).price.units != levels[k].price.units,
        figures[i].sell.bits <= 0x7ff0_0000_0000_0000,
        figures[i].over_sell.bits <= 0x7ff0_0000_0000_0000,
        figures[k].buy.bits <= 0x7ff0_0000_0000_0000,
        figures[k].over_buy.bits <= 0x7ff0_0000_0000_0000,
        kind != ClusterKind::Table,
    ensures
        ({
            let marker = footprint::cell_of(levels, figures, i, kind, step, Some(rule)).marker;
            let sold = figures[i].sell;
            let bought = figures[k].buy;
            let counts = !rule.ignore_zeros || (sold.bits > 0 && bought.bits > 0);
            &&& counts && sold.bits > bought.bits && sold.bits > figures[k].over_buy.bits
                ==> marker == Some(
                Imbalance {
                    side: ImbalanceSide::Sell,
                    price: levels[i].price,
                    dominant: sold,
                    required: figures[k].over_buy,
                    unbounded: false,
                },
            )
            &&& counts && bought.bits >= sold.bits && bought.bits > figures[i].over_sell.bits
                ==> marker == Some(
                Imbalance {
                    side: ImbalanceSide::Buy,
                    price: levels[k].price,
                    dominant: bought,
                    required: figures[i].over_sell,
                    unbounded: false,
                },
            )
            &&& marker is Some ==> counts && ((sold.bits > bought.bits && sold.bits
                > figures[k].over_buy.bits) || (bought.bits >= sold.bits && bought.bits
                > figures[i].over_sell.bits))
        }),
{
    lemma_found(levels, levels[i].price.units + step.units, k);
}

/// Where no one traded one step higher, where no study is on, and in tables, nothing is marked
/// beside a cell; outside of tables nothing is marked in it.
pub proof fn markers_need_a_neighbour(
    levels: Seq<PriceLevel>,
    figures: Seq<LevelFigures>,
    i: int,
    kind: ClusterKind,
    step: PriceStep,
    rule: Option<ImbalanceRule>,
)
    requires
        0 <= i < levels.len(),
    ensures
        ({
            let cell = footprint::cell_of(levels, figures, i, kind, step, rule);
            &&& (forall|j: int|
                0 <= j < levels.len() ==> (#[trigger] levels[j]).price.units
                    != levels[i].price.units + step.units) ==> cell.marker is None
            &&& kind == ClusterKind::Table || rule is None ==> cell.marker is None
            &&& kind != ClusterKind::Table || rule is None ==> cell.buy_imbalance is None
                && cell.sell_imbalance is None
        }),
{
    if forall|j: int|
        0 <= j < levels.len() ==> (#[trigger] levels[j]).price.units != levels[i].price.units
            + step.units {
        lemma_not_found(levels, levels[i].price.units + step.units);
    }
}

/// In a table a purchase is held against what was sold one step lower, at `b`. It is marked
/// whenever it exceeds what is required, and without a bound where nothing is.
pub proof fn tables_mark_dominant_purchases(
    levels: Seq<PriceLevel>,
    figures: Seq<LevelFigures>,
    i: int,
    b: int,
    step: PriceStep,
    rule: ImbalanceRule,
)
    requires
        0 <= i < levels.len(),
        0 <= b < levels.len(),
        figures.len() == levels.len(),
        levels[b].price.units == levels[i].price.units - step.units,
        forall|j: int| 0 <= j < b ==> (#[trigger] levels[j]).price.units != levels[b].price.units,
        figures[i].buy.bits <= 0x7ff0_0000_0000_0000,
        figures[b].sell.bits <= 0x7ff0_0000_0000_0000,
        figures[b].over_sell.bits <= 0x7ff0_0000_0000_0000,
    ensures
        ({
            let found = footprint::cell_of(
                levels,
                figures,
                i,
                ClusterKind::Table,
                step,
                Some(rule),
            ).buy_imbalance;
            let bought = figures[i].buy;
            let sold = figures[b].sell;
            let required = figures[b].over_sell;
            let counts = !rule.ignore_zeros || (sold.bits > 0 && bought.bits > 0);
            &&& counts && bought.bits > required.bits ==> found == Some(
                Imbalance {
                    side: ImbalanceSide::Buy,
                    price: levels[i].price,
                    dominant: bought,
                    required,
                    unbounded: required.bits == 0,
                },
            )
            &&& found is Some ==> counts && bought.bits > required.bits
        }),
{
    lemma_found(levels, levels[i].price.units - step.units, b);
}

/// In a table a sale is held against what was bought one step higher, at `a`.
pub proof fn tables_mark_dominant_sales(
    levels: Seq<PriceLevel>,
    figures: Seq<LevelFigures>,
    i: int,
    a: int,
    step: PriceStep,
    rule: ImbalanceRule,
)
    requires
        0 <= i < levels.len(),
        0 <= a < levels.len(),
        figures.len() == levels.len(),
        levels[a].price.units == levels[i].price.units + step.units,
        forall|j: int| 0 <= j < a ==> (#[trigger] levels[j]).price.units != levels[a].price.units,
        figures[i].sell.bits <= 0x7ff0_0000_0000_0000,
        figures[a].buy.bits <= 0x7ff0_0000_0000_0000,
        figures[a].over_buy.bits <= 0x7ff0_0000_0000_0000,
    ensures
        ({
            let found = footprint::cell_of(
                levels,
                figures,
                i,
                ClusterKind::Table,
                step,
                Some(rule),
            ).sell_imbalance;
            let sold = figures[i].sell;
            let bought = figures[a].buy;
            let required = figures[a].over_buy;
            let counts = !rule.ignore_zeros || (sold.bits > 0 && bought.bits > 0);
            &&& counts && sold.bits > required.bits ==> found == Some(
                Imbalance {
                    side: ImbalanceSide::Sell,
                    price: levels[i].price,
                    dominant: sold,
                    required,
                    unbounded: required.bits == 0,
                },
            )
            &&& found is Some ==> counts && sold.bits > required.bits
        }),
{
    lemma_found(levels, levels[i].price.units + step.units, a);
}

/// In a table a quantity against which nothing was traded is marked where it is above zero,
/// unless zeros are ignored.
pub proof fn tables_mark_what_nothing_opposes(
    levels: Seq<PriceLevel>,
    figures: Seq<LevelFigures>,
    i: int,
    step: PriceStep,
    rule: ImbalanceRule,
)
    requires
        0 <= i < levels.len(),
        figures.len() == levels.len(),
        figures[i].buy.bits <= 0x7ff0_0000_0000_0000,
        figures[i].sell.bits <= 0x7ff0_0000_0000_0000,
    ensures
        ({
            let cell = footprint::cell_of(
                levels,
                figures,
                i,
                ClusterKind::Table,
                step,
                Some(rule),
            );
            let none = Bits64 { bits: 0 };
            let price = levels[i].price;
            &&& (forall|j: int|
                0 <= j < levels.len() ==> (#[trigger] levels[j]).price.units
                    != levels[i].price.units - step.units) ==> cell.buy_imbalance == (
            if !rule.ignore_zeros && figures[i].buy.bits > 0 {
                Some(
                    Imbalance {
                        side: ImbalanceSide::Buy,
                        price,
                        dominant: figures[i].buy,
                        required: none,
                        unbounded: true,
                    },
                )
            } else {
                None
            })
            &&& (forall|j: int|
                0 <= j < levels.len() ==> (#[trigger] levels[j]).price.units
                    != levels[i].price.units + step.units) ==> cell.sell_imbalance == (
            if !rule.ignore_zeros && figures[i].sell.bits > 0 {
                Some(
                    Imbalance {
                        side: ImbalanceSide::Sell,
                        price,
                        dominant: figures[i].sell,
                        required: none,
                        unbounded: true,
                    },
                )
            } else {
                None
            })
        }),
{
    if forall|j: int|
        0 <= j < levels.len() ==> (#[trigger] levels[j]).price.units != levels[i].price.units
            - step.units {
        lemma_not_found(levels, levels[i].price.units - step.units);
    }
    if forall|j: int|
        0 <= j < levels.len() ==> (#[trigger] levels[j]).price.units != levels[i].price.units
            + step.units {
        lemma_not_found(levels, levels[i].price.units + step.units);
    }
}

/// A cell stands at its price. Its sides are what was bought and what was sold; a profile of
/// the volume adds their sum, a profile of the difference shows the difference alone, and bid
/// and ask leave out an empty side.
pub proof fn cells_show_both_sides(
    levels: Seq<PriceLevel>,
    figures: Seq<LevelFigures>,
    i: int,
    kind: ClusterKind,
    step: PriceStep,
    rule: Option<ImbalanceRule>,
)
    requires
        0 <= i < levels.len(),
    ensures
        ({
            let cell = footprint::cell_of(levels, figures, i, kind, step, rule);
            let level = levels[i];
            &&& cell.price == level.price
            &&& cell.buy matches Some(qty) ==> qty == level.buy
            &&& cell.sell matches Some(qty) ==> qty == level.sell
            &&& (cell.buy is Some) == (kind == ClusterKind::Table || kind
                == ClusterKind::VolumeProfile || (kind == ClusterKind::BidAsk && level.buy.units
                > 0))
            &&& (cell.sell is Some) == (kind == ClusterKind::Table || kind
                == ClusterKind::VolumeProfile || (kind == ClusterKind::BidAsk && level.sell.units
                > 0))
            &&& (cell.figure is Some) == (kind == ClusterKind::VolumeProfile || kind
                == ClusterKind::DeltaProfile)
            &&& kind == ClusterKind::VolumeProfile ==> cell.figure->0 - level.sell.units
                == level.buy.units
            &&& kind == ClusterKind::DeltaProfile ==> cell.figure->0 + level.sell.units
                == level.buy.units
        }),
{
}

/// The scale of a candle is the widest of its bars: no bar is wider, and one is as wide.
pub proof fn the_widest_bar_sets_the_scale(levels: Seq<PriceLevel>, kind: ClusterKind) -> (k: int)
    requires
        levels.len() > 0,
    ensures
        0 <= k < levels.len(),
        forall|i: int|
            0 <= i < levels.len() ==> ({
                let buy = (#[trigger] levels[i]).buy.units;
                let sell = levels[i].sell.units;
                let scale = footprint::largest_weight(levels, kind);
                match kind {
                    ClusterKind::VolumeProfile => buy + sell <= scale,
                    ClusterKind::DeltaProfile => buy - sell <= scale && sell - buy <= scale,
                    _ => buy <= scale && sell <= scale,
                }
            }),
        ({
            let buy = levels[k].buy.units;
            let sell = levels[k].sell.units;
            let scale = footprint::largest_weight(levels, kind);
            match kind {
                ClusterKind::VolumeProfile => scale == buy + sell,
                ClusterKind::DeltaProfile => scale == buy - sell || scale == sell - buy,
                _ => scale == buy || scale == sell,
            }
        }),
    decreases levels.len(),
{
    let last = levels.len() - 1;
    if levels.len() == 1 {
        0
    } else {
        let front = levels.drop_last();
        let before = the_widest_bar_sets_the_scale(front, kind);
        assert forall|i: int| 0 <= i < levels.len() implies ({
            let buy = (#[trigger] levels[i]).buy.units;
            let sell = levels[i].sell.units;
            let scale = footprint::largest_weight(levels, kind);
            match kind {
                ClusterKind::VolumeProfile => buy + sell <= scale,
                ClusterKind::DeltaProfile => buy - sell <= scale && sell - buy <= scale,
                _ => buy <= scale && sell <= scale,
            }
        }) by {
            if i < last {
                assert(front[i] == levels[i]);
            }
        }
        if footprint::weight_of(levels.last(), kind) >= footprint::largest_weight(front, kind) {
            last
        } else {
            before
        }
    }
}

/// Switching a study off takes out every study of its type and keeps the others, in order.
pub proof fn switching_off_takes_out_a_type(studies: Seq<FootprintStudy>, study: FootprintStudy)
    ensures
        study is NPoC ==> footprint::without_type(studies, study) == studies.filter(
            |held: FootprintStudy| held is Imbalance,
        ),
        study is Imbalance ==> footprint::without_type(studies, study) == studies.filter(
            |held: FootprintStudy| held is NPoC,
        ),
    decreases studies.len(),
{
    reveal(Seq::filter);
    if studies.len() > 0 {
        switching_off_takes_out_a_type(studies.drop_last(), study);
    }
}

/// A study is on where one of its type is held, and the first of them is the one that a change
/// of settings replaces.
pub proof fn settings_go_to_the_first_of_a_type(studies: Seq<FootprintStudy>, study: FootprintStudy)
    ensures
        study is NPoC ==> (footprint::has_type(studies, study) <==> exists|i: int|
            0 <= i < studies.len() && #[trigger] studies[i] is NPoC),
        study is Imbalance ==> (footprint::has_type(studies, study) <==> exists|i: int|
            0 <= i < studies.len() && #[trigger] studies[i] is Imbalance),
        0 <= footprint::first_of_type(studies, study) <= studies.len(),
        forall|i: int|
            0 <= i < footprint::first_of_type(studies, study) ==> ((#[trigger] studies[i] is NPoC)
                <==> study is Imbalance),
        footprint::first_of_type(studies, study) < studies.len() ==> (studies[footprint::first_of_type(
            studies,
            study,
        )] is NPoC <==> study is NPoC),
    decreases studies.len(),
{
    if study is NPoC {
        assert forall|i: int| 0 <= i < studies.len() implies ((#[trigger] studies[i]) is NPoC
            <==> studies[i].same_type(study)) by {}
    } else {
        assert forall|i: int| 0 <= i < studies.len() implies ((#[trigger] studies[i]) is Imbalance
            <==> studies[i].same_type(study)) by {}
    }
    if studies.len() > 0 {
        let front = studies.drop_last();
        settings_go_to_the_first_of_a_type(front, study);
        let place = footprint::first_of_type(studies, study);
        assert forall|i: int| 0 <= i < place implies ((#[trigger] studies[i] is NPoC)
            <==> study is Imbalance) by {
            if i < front.len() {
                assert(front[i] == studies[i]);
            }
        }
    }
}

/// The settings of a study are those of the first of its type.
pub proof fn the_first_study_of_a_type_counts(studies: Seq<FootprintStudy>, i: int)
    requires
        0 <= i < studies.len(),
    ensures
        studies[i] is NPoC && (forall|j: int| 0 <= j < i ==> !(#[trigger] studies[j] is NPoC))
            ==> footprint::lookback_of(studies) == Some(studies[i]->lookback),
        studies[i] is Imbalance && (forall|j: int|
            0 <= j < i ==> !(#[trigger] studies[j] is Imbalance)) ==> footprint::imbalance_of(
            studies,
        ) == Some((studies[i]->threshold, studies[i]->color_scale, studies[i]->ignore_zeros)),
        (forall|j: int| 0 <= j < studies.len() ==> !(#[trigger] studies[j] is NPoC))
            ==> footprint::lookback_of(studies) is None,
        (forall|j: int| 0 <= j < studies.len() ==> !(#[trigger] studies[j] is Imbalance))
            ==> footprint::imbalance_of(studies) is None,
    decreases studies.len(),
{
    let front = studies.drop_last();
    assert(forall|j: int| 0 <= j < front.len() ==> #[trigger] front[j] == studies[j]);
    lemma_no_study(front);
    lemma_no_study(studies);
    if i < front.len() {
        the_first_study_of_a_type_counts(front, i);
    }
}

proof fn lemma_no_study(studies: Seq<FootprintStudy>)
    ensures
        (forall|j: int| 0 <= j < studies.len() ==> !(#[trigger] studies[j] is NPoC))
            ==> footprint::lookback_of(studies) is None,
        (forall|j: int| 0 <= j < studies.len() ==> !(#[trigger] studies[j] is Imbalance))
            ==> footprint::imbalance_of(studies) is None,
    decreases studies.len(),
{
    if studies.len() > 0 {
        let front = studies.drop_last();
        assert(forall|j: int| 0 <= j < front.len() ==> #[trigger] front[j] == studies[j]);
        lemma_no_study(front);
        assert(studies[studies.len() - 1] == studies.last());
    }
}

/// The lines from a candle on are those of the candles whose point of control is settled:
/// `at` names them, newest first. An untouched one has an open line, a touched one ends where
/// it was touched.
pub proof fn lines_show_settled_points_of_control(entries: Seq<PocEntry>, from: int) -> (at: Seq<int>)
    requires
        0 <= from <= entries.len(),
    ensures
        at.len() == footprint::lines_from(entries, from).len(),
        forall|a: int, b: int| 0 <= a < b < at.len() ==> (#[trigger] at[a]) > (#[trigger] at[b]),
        forall|k: int|
            0 <= k < at.len() ==> {
                let line = footprint::lines_from(entries, from)[k];
                let entry = entries[#[trigger] at[k]];
                &&& from <= at[k] < entries.len()
                &&& entry.1 is Some
                &&& line.interval == entry.0
                &&& line.price == (entry.1->0).price
                &&& match (entry.1->0).status {
                    NPoc::Naked => line.filled_at is None,
                    NPoc::Filled { at } => line.filled_at == Some(at),
                    NPoc::Unset => false,
                }
            },
        forall|i: int|
            from <= i < entries.len() && (#[trigger] entries[i]).1 is Some && (entries[i].1->0).status
                != NPoc::Unset ==> at.contains(i),
    decreases entries.len() - from,
{
    if from >= entries.len() {
        seq![]
    } else {
        let tail = lines_show_settled_points_of_control(entries, from + 1);
        let after = footprint::lines_from(entries, from + 1);
        let all = footprint::lines_from(entries, from);
        let shown = entries[from].1 is Some && (entries[from].1->0).status != NPoc::Unset;
        let at = if shown {
            tail.push(from)
        } else {
            tail
        };
        assert forall|i: int| from <= i < entries.len() && (#[trigger] entries[i]).1 is Some && (
        entries[i].1->0).status != NPoc::Unset implies at.contains(i) by {
            if i > from {
                assert(tail.contains(i));
                let k = choose|k: int| 0 <= k < tail.len() && tail[k] == i;
                assert(at[k] == i);
            } else {
                assert(at[at.len() - 1] == i);
            }
        }
        assert forall|k: int| 0 <= k < at.len() implies {
            let line = all[k];
            let entry = entries[#[trigger] at[k]];
            &&& from <= at[k] < entries.len()
            &&& entry.1 is Some
            &&& line.interval == entry.0
            &&& line.price == (entry.1->0).price
            &&& match (entry.1->0).status {
                NPoc::Naked => line.filled_at is None,
                NPoc::Filled { at } => line.filled_at == Some(at),
                NPoc::Unset => false,
            }
        } by {
            if k < tail.len() {
                assert(at[k] == tail[k]);
                assert(all[k] == after[k]);
            }
        }
        at
    }
}

/// A lookback takes in that many of the last candles, all of them where there are fewer.
pub proof fn a_lookback_counts_from_the_end(count: nat, lookback: usize)
    ensures
        lookback <= count ==> footprint::lookback_start(count, lookback) + lookback == count,
        lookback > count ==> footprint::lookback_start(count, lookback) == 0,
{
}

/// A quantity above zero of a list that none of the list exceeds, or none where no quantity is
/// above zero.
pub open spec fn is_largest(best: Option<i128>, values: Seq<i128>) -> bool {
    match best {
        Some(best) => best > 0 && values.contains(best) && forall|i: int|
            0 <= i < values.len() ==> #[trigger] values[i] <= best,
        None => forall|i: int| 0 <= i < values.len() ==> #[trigger] values[i] <= 0,
    }
}

/// The largest bubble is one of the quantities above zero, and none is larger.
pub proof fn the_largest_quantity_is_found(values: Seq<i128>)
    ensures
        is_largest(footprint::largest_positive(values), values),
    decreases values.len(),
{
    if values.len() > 0 {
        let front = values.drop_last();
        the_largest_quantity_is_found(front);
        let last = values.len() - 1;
        assert(values[last] == values.last());
        if footprint::largest_positive(front) is Some {
            let best = footprint::largest_positive(front)->0;
            let k = choose|k: int| 0 <= k < front.len() && front[k] == best;
            assert(values[k] == best);
        }
        assert forall|i: int| 0 <= i < values.len() implies #[trigger] values[i] <= (
        match footprint::largest_positive(values) {
            Some(best) => best,
            None => 0,
        }) by {
            if i < last {
                assert(front[i] == values[i]);
            }
        }
    }
}

/// The bubble of a candle is the largest of its summary or of its trades: of the summary where
/// there is one and trades are not preferred, or where nothing was traded; of the trades
/// otherwise.
pub proof fn bubbles_come_from_the_preferred_source(candle: BubbleQuantities, prefer_raw_trades: bool)
    ensures
        ({
            let peak = footprint::peak_of(candle, prefer_raw_trades);
            let idle = forall|i: int|
                0 <= i < candle.traded@.len() ==> #[trigger] candle.traded@[i] <= 0;
            if candle.candidates@.len() > 0 && (!prefer_raw_trades || idle) {
                is_largest(peak, candle.candidates@)
            } else {
                is_largest(peak, candle.traded@)
            }
        }),
{
    the_largest_quantity_is_found(candle.traded@);
    the_largest_quantity_is_found(candle.candidates@);
}

/// The largest bubble of all candles is that of one of them, and no candle has a larger one.
pub proof fn the_largest_bubble_is_found(candles: Seq<BubbleQuantities>, prefer_raw_trades: bool) -> (k:
    int)
    ensures
        forall|i: int|
            0 <= i < candles.len() ==> (footprint::peak_of(#[trigger] candles[i], prefer_raw_trades)
                matches Some(peak) ==> footprint::peak_of_all(candles, prefer_raw_trades) is Some
                && peak <= footprint::peak_of_all(candles, prefer_raw_trades)->0),
        footprint::peak_of_all(candles, prefer_raw_trades) is Some ==> 0 <= k < candles.len()
            && footprint::peak_of(candles[k], prefer_raw_trades) == footprint::peak_of_all(
            candles,
            prefer_raw_trades,
        ),
    decreases candles.len(),
{
    if candles.len() == 0 {
        0
    } else {
        let front = candles.drop_last();
        let k = the_largest_bubble_is_found(front, prefer_raw_trades);
        let last = candles.len() - 1;
        assert(candles[last] == candles.last());
        assert forall|i: int| 0 <= i < candles.len() implies (footprint::peak_of(
            #[trigger] candles[i],
            prefer_raw_trades,
        ) matches Some(peak) ==> footprint::peak_of_all(candles, prefer_raw_trades) is Some && peak
            <= footprint::peak_of_all(candles, prefer_raw_trades)->0) by {
            if i < last {
                assert(front[i] == candles[i]);
            }
        }
        let before = footprint::peak_of_all(front, prefer_raw_trades);
        match footprint::peak_of(candles.last(), prefer_raw_trades) {
            Some(peak) => if before is None || peak >= before->0 {
                last
            } else {
                k
            },
            None => k,
        }
    }
}

} // verus!
