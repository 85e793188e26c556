//! What a footprint shows: the cells of its clusters, the imbalances between neighbouring
//! prices, its studies, and the points of control that no later candle has touched.
use vstd::prelude::*;
use crate::chart::kline::profiles::PriceLevel;
use crate::units::{Bits64, Price, PriceStep, Qty};

verus! {

#[derive(Clone, Copy, Debug, PartialEq, Eq, Structural)]
pub enum ClusterKind {
    BidAsk,
    DeltaProfile,
    Table,
    VolumeProfile,
}

#[derive(Clone, Copy, Debug, PartialEq, Eq, Structural)]
pub enum ImbalanceSide {
    Buy,
    Sell,
}

/// A study of the footprint.
#[derive(Clone, Copy, Debug, PartialEq, Eq, Structural)]
pub enum FootprintStudy {
    NPoC { lookback: usize },
    Imbalance { threshold: u64, color_scale: Option<usize>, ignore_zeros: bool },
}

impl FootprintStudy {
    pub open spec fn same_type(self, other: Self) -> bool {
        (self is NPoC) == (other is NPoC)
    }

    pub fn is_same_type(&self, other: &Self) -> (r: bool)
        ensures
            r == self.same_type(*other),
    {
        match (self, other) {
            (FootprintStudy::NPoC { .. }, FootprintStudy::NPoC { .. }) => true,
            (FootprintStudy::Imbalance { .. }, FootprintStudy::Imbalance { .. }) => true,
            _ => false,
        }
    }
}

/// One of the studies is of the type.
pub open spec fn has_type(studies: Seq<FootprintStudy>, study: FootprintStudy) -> bool {
    exists|i: int| 0 <= i < studies.len() && (#[trigger] studies[i]).same_type(study)
}

/// The studies that are not of the type, in order.
pub open spec fn without_type(studies: Seq<FootprintStudy>, study: FootprintStudy) -> Seq<
    FootprintStudy,
>
    decreases studies.len(),
{
    if studies.len() == 0 {
        seq![]
    } else if studies.last().same_type(study) {
        without_type(studies.drop_last(), study)
    } else {
        without_type(studies.drop_last(), study).push(studies.last())
    }
}

/// Switches a study on, unless one of its type is on, or off.
pub fn toggle_study(studies: Vec<FootprintStudy>, study: FootprintStudy, is_selected: bool) -> (r:
    Vec<FootprintStudy>)
    ensures
        r@ == (if !is_selected {
            without_type(studies@, study)
        } else if has_type(studies@, study) {
            studies@
        } else {
            studies@.push(study)
        }),
{
    if is_selected {
        let mut i: usize = 0;
        while i < studies.len()
            invariant
                is_selected,
                i <= studies@.len(),
                forall|j: int| 0 <= j < i ==> !(#[trigger] studies@[j]).same_type(study),
            decreases studies@.len() - i,
        {
            if studies[i].is_same_type(&study) {
                assert(studies@[i as int].same_type(study));
                return studies;
            }
            i = i + 1;
        }
        let mut studies = studies;
        studies.push(study);
        studies
    } else {
        let mut r: Vec<FootprintStudy> = Vec::new();
        let mut i: usize = 0;
        while i < studies.len()
            invariant
                i <= studies@.len(),
                r@ == without_type(studies@.take(i as int), study),
            decreases studies@.len() - i,
        {
            assert(studies@.take(i + 1).drop_last() =~= studies@.take(i as int));
            let held: FootprintStudy = studies[i];
            if !held.is_same_type(&study) {
                r.push(held);
            }
            i = i + 1;
        }
        assert(studies@.take(studies@.len() as int) =~= studies@);
        r
    }
}

/// The place of the first study of the type, or the number of studies.
pub open spec fn first_of_type(studies: Seq<FootprintStudy>, study: FootprintStudy) -> int
    decreases studies.len(),
{
    if studies.len() == 0 {
        0
    } else if first_of_type(studies.drop_last(), study) < studies.len() - 1 {
        first_of_type(studies.drop_last(), study)
    } else if studies.last().same_type(study) {
        studies.len() - 1
    } else {
        studies.len() as int
    }
}

proof fn lemma_first_of_type(studies: Seq<FootprintStudy>, study: FootprintStudy)
    ensures
        0 <= first_of_type(studies, study) <= studies.len(),
        first_of_type(studies, study) < studies.len() ==> studies[first_of_type(
            studies,
            study,
        )].same_type(study),
        forall|i: int|
            0 <= i < first_of_type(studies, study) ==> !(#[trigger] studies[i]).same_type(study),
    decreases studies.len(),
{
    if studies.len() > 0 {
        lemma_first_of_type(studies.drop_last(), study);
        assert forall|i: int| 0 <= i < first_of_type(studies, study) implies !(
        #[trigger] studies[i]).same_type(study) by {
            if i < studies.len() - 1 {
                assert(studies.drop_last()[i] == studies[i]);
            }
        }
    }
}

/// Changes the settings of the study of the type, where it is on.
pub fn configure_study(studies: Vec<FootprintStudy>, study: FootprintStudy) -> (r: Vec<
    FootprintStudy,
>)
    ensures
        r@ == (if first_of_type(studies@, study) < studies@.len() {
            studies@.update(first_of_type(studies@, study), study)
        } else {
            studies@
        }),
{
    proof {
        lemma_first_of_type(studies@, study);
    }
    let ghost before = studies@;
    let mut i: usize = 0;
    while i < studies.len() && !studies[i].is_same_type(&study)
        invariant
            studies@ == before,
            i <= before.len(),
            forall|j: int| 0 <= j < i ==> !(#[trigger] before[j]).same_type(study),
        decreases before.len() - i,
    {
        i = i + 1;
    }
    proof {
        let place = first_of_type(before, study);
        if place < i {
            assert(!before[place].same_type(study));
        }
        if i < place {
            assert(!before[i as int].same_type(study));
        }
    }
    let mut studies = studies;
    if i < studies.len() {
        studies.set(i, study);
    }
    studies
}

/// The place of the level at a price, or the number of levels.
pub open spec fn level_place(levels: Seq<PriceLevel>, units: int) -> int
    decreases levels.len(),
{
    if levels.len() == 0 {
        0
    } else if level_place(levels.drop_last(), units) < levels.len() - 1 {
        level_place(levels.drop_last(), units)
    } else if levels.last().price.units == units {
        levels.len() - 1
    } else {
        levels.len() as int
    }
}

proof fn lemma_level_place(levels: Seq<PriceLevel>, units: int)
    ensures
        0 <= level_place(levels, units) <= levels.len(),
        level_place(levels, units) < levels.len() ==> levels[level_place(
            levels,
            units,
        )].price.units == units,
        forall|i: int|
            0 <= i < level_place(levels, units) ==> (#[trigger] levels[i]).price.units != units,
    decreases levels.len(),
{
    if levels.len() > 0 {
        lemma_level_place(levels.drop_last(), units);
        assert forall|i: int| 0 <= i < level_place(levels, units) implies (
        #[trigger] levels[i]).price.units != units by {
            if i < levels.len() - 1 {
                assert(levels.drop_last()[i] == levels[i]);
            }
        }
    }
}

fn find_level(levels: &Vec<PriceLevel>, units: i128) -> (r: usize)
    ensures
        r == level_place(levels@, units as int),
        r <= levels@.len(),
{
    proof {
        lemma_level_place(levels@, units as int);
    }
    let mut i: usize = 0;
    while i < levels.len()
        invariant
            i <= levels@.len(),
            i <= level_place(levels@, units as int),
            0 <= level_place(levels@, units as int) <= levels@.len(),
            level_place(levels@, units as int) < levels@.len() ==> levels@[level_place(
                levels@,
                units as int,
            )].price.units == units,
            forall|j: int|
                0 <= j < level_place(levels@, units as int) ==> (#[trigger] levels@[j]).price.units
                    != units,
        decreases levels@.len() - i,
    {
        if levels[i].price.units as i128 == units {
            proof {
                if i < level_place(levels@, units as int) {
                    assert(levels@[i as int].price.units != units);
                }
            }
            return i;
        }
        i = i + 1;
    }
    i
}

/// The quantities of a traded price as figures, and what a quantity diagonally opposite to
/// each has to exceed to outweigh it: `quantity * (100 + threshold) / 100`, with the threshold
/// in percent, as floating point rounds it.
#[derive(Clone, Copy, Debug, PartialEq, Eq, Structural)]
pub struct LevelFigures {
    pub buy: Bits64,
    pub sell: Bits64,
    pub over_buy: Bits64,
    pub over_sell: Bits64,
}

/// The figures of a price at which no one traded.
pub open spec fn no_figures() -> LevelFigures {
    LevelFigures {
        buy: Bits64 { bits: 0 },
        sell: Bits64 { bits: 0 },
        over_buy: Bits64 { bits: 0 },
        over_sell: Bits64 { bits: 0 },
    }
}

/// A quantity that outweighs the one diagonally opposite: it exceeds what is required. Where
/// nothing is required, no ratio bounds it.
#[derive(Clone, Copy, Debug, PartialEq, Eq, Structural)]
pub struct Imbalance {
    pub side: ImbalanceSide,
    pub price: Price,
    pub dominant: Bits64,
    pub required: Bits64,
    pub unbounded: bool,
}

/// When an imbalance is shown. With `ignore_zeros` both quantities have to be there.
#[derive(Clone, Copy, Debug, PartialEq, Eq, Structural)]
pub struct ImbalanceRule {
    pub ignore_zeros: bool,
}

/// A figure that is not above zero.
pub open spec fn is_nothing(figure: Bits64) -> bool {
    figure.at_most(Bits64 { bits: 0 })
}

fn nothing(figure: Bits64) -> (r: bool)
    ensures
        r == is_nothing(figure),
{
    figure.is_at_most(Bits64 { bits: 0 })
}

/// The marker between the price at `i` and the next higher one: what was bought above against
/// what was sold here. What is larger is marked where it exceeds what is required; where both
/// are equal, what was bought.
pub open spec fn diagonal_marker(
    levels: Seq<PriceLevel>,
    figures: Seq<LevelFigures>,
    i: int,
    step: PriceStep,
    rule: ImbalanceRule,
) -> Option<Imbalance> {
    let k = level_place(levels, levels[i].price.units + step.units);
    if k < levels.len() {
        let here = figures[i];
        let above = figures[k];
        if rule.ignore_zeros && (is_nothing(here.sell) || is_nothing(above.buy)) {
            None
        } else if here.sell.at_most(above.buy) {
            if above.buy.above(here.over_sell) {
                Some(
                    Imbalance {
                        side: ImbalanceSide::Buy,
                        price: levels[k].price,
                        dominant: above.buy,
                        required: here.over_sell,
                        unbounded: false,
                    },
                )
            } else {
                None
            }
        } else if here.sell.above(above.over_buy) {
            Some(
                Imbalance {
                    side: ImbalanceSide::Sell,
                    price: levels[i].price,
                    dominant: here.sell,
                    required: above.over_buy,
                    unbounded: false,
                },
            )
        } else {
            None
        }
    } else {
        None
    }
}

fn find_marker(
    levels: &Vec<PriceLevel>,
    figures: &Vec<LevelFigures>,
    i: usize,
    step: PriceStep,
    rule: ImbalanceRule,
) -> (r: Option<Imbalance>)
    requires
        i < levels@.len(),
        figures@.len() == levels@.len(),
    ensures
        r == diagonal_marker(levels@, figures@, i as int, step, rule),
{
    let k: usize = find_level(levels, levels[i].price.units as i128 + step.units as i128);
    if k >= levels.len() {
        return None;
    }
    let here: LevelFigures = figures[i];
    let above: LevelFigures = figures[k];
    if rule.ignore_zeros && (nothing(here.sell) || nothing(above.buy)) {
        None
    } else if here.sell.is_at_most(above.buy) {
        if above.buy.is_above(here.over_sell) {
            Some(
                Imbalance {
                    side: ImbalanceSide::Buy,
                    price: levels[k].price,
                    dominant: above.buy,
                    required: here.over_sell,
                    unbounded: false,
                },
            )
        } else {
            None
        }
    } else if here.sell.is_above(above.over_buy) {
        Some(
            Imbalance {
                side: ImbalanceSide::Sell,
                price: levels[i].price,
                dominant: here.sell,
                required: above.over_buy,
                unbounded: false,
            },
        )
    } else {
        None
    }
}

/// The imbalance of one side of a cell of a table.
pub open spec fn cell_imbalance(
    side: ImbalanceSide,
    price: Price,
    dominant: Bits64,
    opposite: Bits64,
    required: Bits64,
    rule: ImbalanceRule,
) -> Option<Imbalance> {
    if rule.ignore_zeros && (is_nothing(dominant) || is_nothing(opposite)) {
        None
    } else if is_nothing(required) {
        if dominant.above(Bits64 { bits: 0 }) {
            Some(Imbalance { side, price, dominant, required, unbounded: true })
        } else {
            None
        }
    } else if dominant.at_most(required) {
        None
    } else {
        Some(Imbalance { side, price, dominant, required, unbounded: false })
    }
}

fn find_cell_imbalance(
    side: ImbalanceSide,
    price: Price,
    dominant: Bits64,
    opposite: Bits64,
    required: Bits64,
    rule: ImbalanceRule,
) -> (r: Option<Imbalance>)
    ensures
        r == cell_imbalance(side, price, dominant, opposite, required, rule),
{
    if rule.ignore_zeros && (nothing(dominant) || nothing(opposite)) {
        None
    } else if nothing(required) {
        if dominant.is_above(Bits64 { bits: 0 }) {
            Some(Imbalance { side, price, dominant, required, unbounded: true })
        } else {
            None
        }
    } else if dominant.is_at_most(required) {
        None
    } else {
        Some(Imbalance { side, price, dominant, required, unbounded: false })
    }
}

/// The figures at a price, those of nothing where no one traded there.
pub open spec fn figures_at(levels: Seq<PriceLevel>, figures: Seq<LevelFigures>, units: int) -> LevelFigures {
    let k = level_place(levels, units);
    if k < levels.len() {
        figures[k]
    } else {
        no_figures()
    }
}

fn find_figures(levels: &Vec<PriceLevel>, figures: &Vec<LevelFigures>, units: i128) -> (r:
    LevelFigures)
    requires
        figures@.len() == levels@.len(),
    ensures
        r == figures_at(levels@, figures@, units as int),
{
    let k: usize = find_level(levels, units);
    if k < levels.len() {
        figures[k]
    } else {
        LevelFigures {
            buy: Bits64 { bits: 0 },
            sell: Bits64 { bits: 0 },
            over_buy: Bits64 { bits: 0 },
            over_sell: Bits64 { bits: 0 },
        }
    }
}

/// What is drawn for one traded price.
#[derive(Clone, Copy, Debug, PartialEq, Eq, Structural)]
pub struct ClusterCell {
    pub price: Price,
    /// The quantities on the two sides that have a bar or a cell of their own.
    pub buy: Option<Qty>,
    pub sell: Option<Qty>,
    /// The figure of a profile: the volume, or the difference.
    pub figure: Option<i128>,
    pub buy_imbalance: Option<Imbalance>,
    pub sell_imbalance: Option<Imbalance>,
    pub marker: Option<Imbalance>,
}

/// A side of a cell. A table and a profile of the volume show both, bid and ask those that
/// are there, a profile of the difference neither.
pub open spec fn side_of(qty: Qty, kind: ClusterKind) -> Option<Qty> {
    match kind {
        ClusterKind::Table => Some(qty),
        ClusterKind::VolumeProfile => Some(qty),
        ClusterKind::BidAsk => if qty.units > 0 {
            Some(qty)
        } else {
            None
        },
        ClusterKind::DeltaProfile => None,
    }
}

fn shown_side(qty: Qty, kind: ClusterKind) -> (r: Option<Qty>)
    ensures
        r == side_of(qty, kind),
{
    match kind {
        ClusterKind::Table => Some(qty),
        ClusterKind::VolumeProfile => Some(qty),
        ClusterKind::BidAsk => if qty.units > 0 {
            Some(qty)
        } else {
            None
        },
        ClusterKind::DeltaProfile => None,
    }
}

/// The cell of the traded price at `i`. Profiles show one figure; tables mark imbalances in
/// the cell, the others beside it.
pub open spec fn cell_of(
    levels: Seq<PriceLevel>,
    figures: Seq<LevelFigures>,
    i: int,
    kind: ClusterKind,
    step: PriceStep,
    rule: Option<ImbalanceRule>,
) -> ClusterCell {
    let table = kind == ClusterKind::Table;
    let level = levels[i];
    let below = figures_at(levels, figures, level.price.units - step.units);
    let above = figures_at(levels, figures, level.price.units + step.units);
    ClusterCell {
        price: level.price,
        buy: side_of(level.buy, kind),
        sell: side_of(level.sell, kind),
        figure: match kind {
            ClusterKind::VolumeProfile => Some((level.buy.units + level.sell.units) as i128),
            ClusterKind::DeltaProfile => Some((level.buy.units - level.sell.units) as i128),
            _ => None,
        },
        buy_imbalance: match rule {
            Some(rule) => if table {
                cell_imbalance(
                    ImbalanceSide::Buy,
                    level.price,
                    figures[i].buy,
                    below.sell,
                    below.over_sell,
                    rule,
                )
            } else {
                None
            },
            None => None,
        },
        sell_imbalance: match rule {
            Some(rule) => if table {
                cell_imbalance(
                    ImbalanceSide::Sell,
                    level.price,
                    figures[i].sell,
                    above.buy,
                    above.over_buy,
                    rule,
                )
            } else {
                None
            },
            None => None,
        },
        marker: match rule {
            Some(rule) => if table {
                None
            } else {
                diagonal_marker(levels, figures, i, step, rule)
            },
            None => None,
        },
    }
}

fn build_cell(
    levels: &Vec<PriceLevel>,
    figures: &Vec<LevelFigures>,
    i: usize,
    kind: ClusterKind,
    step: PriceStep,
    rule: Option<ImbalanceRule>,
) -> (r: ClusterCell)
    requires
        i < levels@.len(),
        rule is Some ==> figures@.len() == levels@.len(),
    ensures
        r == cell_of(levels@, figures@, i as int, kind, step, rule),
{
    let table: bool = kind == ClusterKind::Table;
    let level: PriceLevel = levels[i];
    let figure: Option<i128> = match kind {
        ClusterKind::VolumeProfile => Some(level.buy.units as i128 + level.sell.units as i128),
        ClusterKind::DeltaProfile => Some(level.buy.units as i128 - level.sell.units as i128),
        _ => None,
    };
    let mut buy_imbalance: Option<Imbalance> = None;
    let mut sell_imbalance: Option<Imbalance> = None;
    let mut marker: Option<Imbalance> = None;
    if let Some(rule) = rule {
        if table {
            let price: i128 = level.price.units as i128;
            let below: LevelFigures = find_figures(levels, figures, price - step.units as i128);
            let above: LevelFigures = find_figures(levels, figures, price + step.units as i128);
            buy_imbalance =
            find_cell_imbalance(
                ImbalanceSide::Buy,
                level.price,
                figures[i].buy,
                below.sell,
                below.over_sell,
                rule,
            );
            sell_imbalance =
            find_cell_imbalance(
                ImbalanceSide::Sell,
                level.price,
                figures[i].sell,
                above.buy,
                above.over_buy,
                rule,
            );
        } else {
            marker = find_marker(levels, figures, i, step, rule);
        }
    }
    ClusterCell {
        price: level.price,
        buy: shown_side(level.buy, kind),
        sell: shown_side(level.sell, kind),
        figure,
        buy_imbalance,
        sell_imbalance,
        marker,
    }
}

/// The cells of a candle, one per traded price. `figures` are those of the traded prices;
/// they are needed where imbalances are shown.
pub fn build_clusters(
    levels: &Vec<PriceLevel>,
    figures: &Vec<LevelFigures>,
    kind: ClusterKind,
    step: PriceStep,
    rule: Option<ImbalanceRule>,
) -> (r: Vec<ClusterCell>)
    requires
        rule is Some ==> figures@.len() == levels@.len(),
    ensures
        r@.len() == levels@.len(),
        forall|i: int|
            0 <= i < r@.len() ==> #[trigger] r@[i] == cell_of(
                levels@,
                figures@,
                i,
                kind,
                step,
                rule,
            ),
{
    let mut r: Vec<ClusterCell> = Vec::new();
    let mut i: usize = 0;
    while i < levels.len()
        invariant
            rule is Some ==> figures@.len() == levels@.len(),
            i <= levels@.len(),
            r@.len() == i,
            forall|k: int|
                0 <= k < i ==> #[trigger] r@[k] == cell_of(
                    levels@,
                    figures@,
                    k,
                    kind,
                    step,
                    rule,
                ),
        decreases levels@.len() - i,
    {
        r.push(build_cell(levels, figures, i, kind, step, rule));
        i = i + 1;
    }
    r
}

/// Of a price and the next higher one at most one side is marked, and never one that has
/// less than the other; a marked side exceeds what is required, and with `ignore_zeros`
/// neither side is empty.
pub proof fn markers_never_name_the_smaller_side(
    levels: Seq<PriceLevel>,
    figures: Seq<LevelFigures>,
    i: int,
    step: PriceStep,
    rule: ImbalanceRule,
)
    requires
        0 <= i < levels.len(),
        figures.len() == levels.len(),
    ensures
        diagonal_marker(levels, figures, i, step, rule) matches Some(marker) ==> {
            let k = level_place(levels, levels[i].price.units + step.units);
            &&& 0 <= k < levels.len()
            &&& levels[k].price.units == levels[i].price.units + step.units
            &&& marker.dominant.above(marker.required)
            &&& match marker.side {
                ImbalanceSide::Buy => marker.dominant == figures[k].buy
                    && figures[i].sell.at_most(marker.dominant) && marker.price == levels[k].price,
                ImbalanceSide::Sell => marker.dominant == figures[i].sell
                    && !marker.dominant.at_most(figures[k].buy) && marker.price
                    == levels[i].price,
            }
            &&& rule.ignore_zeros ==> !is_nothing(figures[i].sell) && !is_nothing(figures[k].buy)
        },
{
    lemma_level_place(levels, levels[i].price.units + step.units);
}

/// The quantity of a traded price that the width of its bar stands for.
pub open spec fn weight_of(level: PriceLevel, kind: ClusterKind) -> int {
    match kind {
        ClusterKind::VolumeProfile => level.buy.units + level.sell.units,
        ClusterKind::DeltaProfile => if level.buy.units >= level.sell.units {
            level.buy.units - level.sell.units
        } else {
            level.sell.units - level.buy.units
        },
        _ => if level.buy.units >= level.sell.units {
            level.buy.units as int
        } else {
            level.sell.units as int
        },
    }
}

/// The largest quantity of a candle, zero where nothing was traded.
pub open spec fn largest_weight(levels: Seq<PriceLevel>, kind: ClusterKind) -> int
    decreases levels.len(),
{
    if levels.len() == 0 {
        0
    } else {
        let here = weight_of(levels.last(), kind);
        let before = largest_weight(levels.drop_last(), kind);
        if levels.len() == 1 || here >= before {
            here
        } else {
            before
        }
    }
}

/// The largest quantity of a candle, which its bars are scaled by.
pub fn individual_max(levels: &Vec<PriceLevel>, kind: ClusterKind) -> (r: i128)
    ensures
        r == largest_weight(levels@, kind),
{
    let mut r: i128 = 0;
    let mut i: usize = 0;
    while i < levels.len()
        invariant
            i <= levels@.len(),
            r == largest_weight(levels@.take(i as int), kind),
        decreases levels@.len() - i,
    {
        assert(levels@.take(i + 1).drop_last() =~= levels@.take(i as int));
        let buy: i128 = levels[i].buy.units as i128;
        let sell: i128 = levels[i].sell.units as i128;
        let here: i128 = match kind {
            ClusterKind::VolumeProfile => buy + sell,
            ClusterKind::DeltaProfile => if buy >= sell {
                buy - sell
            } else {
                sell - buy
            },
            _ => if buy >= sell {
                buy
            } else {
                sell
            },
        };
        if i == 0 || here >= r {
            r = here;
        }
        i = i + 1;
    }
    assert(levels@.take(levels@.len() as int) =~= levels@);
    r
}

/// Whether later candles have come back to the price with the most volume.
#[derive(Clone, Copy, Debug, PartialEq, Eq, Structural)]
pub enum NPoc {
    Unset,
    Naked,
    Filled { at: u64 },
}

/// The price of a candle with the most volume.
#[derive(Clone, Copy, Debug, PartialEq, Eq, Structural)]
pub struct PointOfControl {
    pub price: Price,
    pub status: NPoc,
}

/// A line from a candle to the candle that came back to its price, or to the right edge.
#[derive(Clone, Copy, Debug, PartialEq, Eq, Structural)]
pub struct NPocLine {
    pub interval: u64,
    pub price: Price,
    pub filled_at: Option<u64>,
}

/// The candle and its point of control, if it has one.
pub type PocEntry = (u64, Option<PointOfControl>);

pub open spec fn line_of(entry: PocEntry) -> Option<NPocLine> {
    match entry.1 {
        Some(poc) => match poc.status {
            NPoc::Naked => Some(
                NPocLine { interval: entry.0, price: poc.price, filled_at: None },
            ),
            NPoc::Filled { at } => Some(
                NPocLine { interval: entry.0, price: poc.price, filled_at: Some(at) },
            ),
            NPoc::Unset => None,
        },
        None => None,
    }
}

/// The lines of the candles from `from` on, newest first.
pub open spec fn lines_from(entries: Seq<PocEntry>, from: int) -> Seq<NPocLine>
    decreases entries.len() - from,
{
    if from >= entries.len() || from < 0 {
        seq![]
    } else {
        let tail = lines_from(entries, from + 1);
        match line_of(entries[from]) {
            Some(line) => tail.push(line),
            None => tail,
        }
    }
}

/// The lookback of the first study of points of control, if there is one.
pub open spec fn lookback_of(studies: Seq<FootprintStudy>) -> Option<usize>
    decreases studies.len(),
{
    if studies.len() == 0 {
        None
    } else {
        match lookback_of(studies.drop_last()) {
            Some(lookback) => Some(lookback),
            None => match studies.last() {
                FootprintStudy::NPoC { lookback } => Some(lookback),
                _ => None,
            },
        }
    }
}

fn find_lookback(studies: &Vec<FootprintStudy>) -> (r: Option<usize>)
    ensures
        r == lookback_of(studies@),
{
    let mut r: Option<usize> = None;
    let mut i: usize = 0;
    while i < studies.len()
        invariant
            i <= studies@.len(),
            r == lookback_of(studies@.take(i as int)),
        decreases studies@.len() - i,
    {
        assert(studies@.take(i + 1).drop_last() =~= studies@.take(i as int));
        if r.is_none() {
            if let FootprintStudy::NPoC { lookback } = studies[i] {
                r = Some(lookback);
            }
        }
        i = i + 1;
    }
    assert(studies@.take(studies@.len() as int) =~= studies@);
    r
}

/// The first study of imbalances, if there is one: its threshold, the scale of its colors, and
/// whether it ignores prices at which one side is missing.
pub open spec fn imbalance_of(studies: Seq<FootprintStudy>) -> Option<(u64, Option<usize>, bool)>
    decreases studies.len(),
{
    if studies.len() == 0 {
        None
    } else {
        match imbalance_of(studies.drop_last()) {
            Some(study) => Some(study),
            None => match studies.last() {
                FootprintStudy::Imbalance { threshold, color_scale, ignore_zeros } => Some(
                    (threshold, color_scale, ignore_zeros),
                ),
                _ => None,
            },
        }
    }
}

pub fn imbalance_study(studies: &Vec<FootprintStudy>) -> (r: Option<(u64, Option<usize>, bool)>)
    ensures
        r == imbalance_of(studies@),
{
    let mut r: Option<(u64, Option<usize>, bool)> = None;
    let mut i: usize = 0;
    while i < studies.len()
        invariant
            i <= studies@.len(),
            r == imbalance_of(studies@.take(i as int)),
        decreases studies@.len() - i,
    {
        assert(studies@.take(i + 1).drop_last() =~= studies@.take(i as int));
        if r.is_none() {
            if let FootprintStudy::Imbalance { threshold, color_scale, ignore_zeros } = studies[i] {
                r = Some((threshold, color_scale, ignore_zeros));
            }
        }
        i = i + 1;
    }
    assert(studies@.take(studies@.len() as int) =~= studies@);
    r
}

/// Where the candles of a lookback begin.
pub open spec fn lookback_start(count: nat, lookback: usize) -> int {
    if lookback >= count {
        0
    } else {
        count - lookback
    }
}

/// The lines of untouched and of touched points of control among the last candles, newest
/// first; none where the study is off.
pub fn npoc_lines(entries: &Vec<PocEntry>, studies: &Vec<FootprintStudy>) -> (r: Vec<NPocLine>)
    ensures
        r@ == (match lookback_of(studies@) {
            Some(lookback) => lines_from(
                entries@,
                lookback_start(entries@.len(), lookback),
            ),
            None => seq![],
        }),
{
    let mut r: Vec<NPocLine> = Vec::new();
    let lookback: usize = match find_lookback(studies) {
        Some(lookback) => lookback,
        None => {
            assert(r@ =~= seq![]);
            return r;
        },
    };
    let count: usize = entries.len();
    let start: usize = if lookback >= count {
        0
    } else {
        count - lookback
    };
    let mut rest: usize = count;
    assert(r@ =~= lines_from(entries@, count as int));
    while rest > start
        invariant
            start <= rest <= count,
            count == entries@.len(),
            r@ == lines_from(entries@, rest as int),
        decreases rest - start,
    {
        let (interval, poc) = entries[rest - 1];
        if let Some(poc) = poc {
            match poc.status {
                NPoc::Naked => {
                    r.push(NPocLine { interval, price: poc.price, filled_at: None });
                },
                NPoc::Filled { at } => {
                    r.push(NPocLine { interval, price: poc.price, filled_at: Some(at) });
                },
                NPoc::Unset => {},
            }
        }
        rest = rest - 1;
    }
    r
}

/// The largest positive quantity, if there is one.
pub open spec fn largest_positive(values: Seq<i128>) -> Option<i128>
    decreases values.len(),
{
    if values.len() == 0 {
        None
    } else {
        let before = largest_positive(values.drop_last());
        if values.last() > 0 && (before is None || values.last() >= before->0) {
            Some(values.last())
        } else {
            before
        }
    }
}

fn find_largest_positive(values: &Vec<i128>) -> (r: Option<i128>)
    ensures
        r == largest_positive(values@),
{
    let mut r: Option<i128> = None;
    let mut i: usize = 0;
    while i < values.len()
        invariant
            i <= values@.len(),
            r == largest_positive(values@.take(i as int)),
        decreases values@.len() - i,
    {
        assert(values@.take(i + 1).drop_last() =~= values@.take(i as int));
        let value: i128 = values[i];
        if value > 0 {
            match r {
                Some(best) => {
                    if value >= best {
                        r = Some(value);
                    }
                },
                None => {
                    r = Some(value);
                },
            }
        }
        i = i + 1;
    }
    assert(values@.take(values@.len() as int) =~= values@);
    r
}

/// The quantities that the bubbles of one candle may show: of its traded prices, and of
/// the candidates of its summary.
#[derive(Debug)]
pub struct BubbleQuantities {
    pub traded: Vec<i128>,
    pub candidates: Vec<i128>,
}

/// The largest bubble of a candle: from its trades where those are preferred or there is no
/// summary, and from its summary otherwise or where nothing was traded.
pub open spec fn peak_of(candle: BubbleQuantities, prefer_raw_trades: bool) -> Option<i128> {
    let summarized = candle.candidates@.len() > 0;
    if !prefer_raw_trades && summarized {
        largest_positive(candle.candidates@)
    } else if largest_positive(candle.traded@) is Some || !summarized {
        largest_positive(candle.traded@)
    } else {
        largest_positive(candle.candidates@)
    }
}

fn find_peak(candle: &BubbleQuantities, prefer_raw_trades: bool) -> (r: Option<i128>)
    ensures
        r == peak_of(*candle, prefer_raw_trades),
{
    let summarized: bool = candle.candidates.len() > 0;
    if !prefer_raw_trades && summarized {
        return find_largest_positive(&candle.candidates);
    }
    let traded: Option<i128> = find_largest_positive(&candle.traded);
    if traded.is_some() || !summarized {
        traded
    } else {
        find_largest_positive(&candle.candidates)
    }
}

/// The largest bubble of a list of candles.
pub open spec fn peak_of_all(candles: Seq<BubbleQuantities>, prefer_raw_trades: bool) -> Option<i128>
    decreases candles.len(),
{
    if candles.len() == 0 {
        None
    } else {
        let before = peak_of_all(candles.drop_last(), prefer_raw_trades);
        match peak_of(candles.last(), prefer_raw_trades) {
            Some(peak) => if before is None || peak >= before->0 {
                Some(peak)
            } else {
                before
            },
            None => before,
        }
    }
}

/// The largest bubble that the visible candles can show.
pub fn max_bubble_qty(candles: &Vec<BubbleQuantities>, prefer_raw_trades: bool) -> (r: Option<i128>)
    ensures
        r == peak_of_all(candles@, prefer_raw_trades),
{
    let mut r: Option<i128> = None;
    let mut i: usize = 0;
    while i < candles.len()
        invariant
            i <= candles@.len(),
            r == peak_of_all(candles@.take(i as int), prefer_raw_trades),
        decreases candles@.len() - i,
    {
        assert(candles@.take(i + 1).drop_last() =~= candles@.take(i as int));
        if let Some(peak) = find_peak(&candles[i], prefer_raw_trades) {
            match r {
                Some(best) => {
                    if peak >= best {
                        r = Some(peak);
                    }
                },
                None => {
                    r = Some(peak);
                },
            }
        }
        i = i + 1;
    }
    assert(candles@.take(candles@.len() as int) =~= candles@);
    r
}

} // verus!
