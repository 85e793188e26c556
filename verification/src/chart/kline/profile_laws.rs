//! What a session profile is for, stated on the volumes of its rows and on the candles.
use vstd::prelude::*;
use crate::chart::kline::profiles;
use crate::chart::kline::profiles::{
    FootprintCandle, PriceLevel, ProfileBin, ProfileFigures, ProfilePlan, SessionBins,
    SessionProfile, VwapModel,
};
use crate::chart::kline::sessions;
use crate::units::{Bits64, Price};

verus! {

/// A figure above zero, as far as infinity.
spec fn is_some_volume(figure: Bits64) -> bool {
    0 < figure.bits <= 0x7ff0_0000_0000_0000
}

proof fn lemma_traded(volumes: Seq<Bits64>)
    requires
        volumes.len() <= usize::MAX,
    ensures
        profiles::traded_rows(volumes).len() <= volumes.len(),
        forall|k: int|
            0 <= k < profiles::traded_rows(volumes).len() ==> 0 <= (#[trigger] profiles::traded_rows(
                volumes,
            )[k]) < volumes.len() && is_some_volume(
                volumes[profiles::traded_rows(volumes)[k] as int],
            ),
        forall|a: int, b: int|
            0 <= a < b < profiles::traded_rows(volumes).len() ==> (#[trigger] profiles::traded_rows(
                volumes,
            )[a]) < (#[trigger] profiles::traded_rows(volumes)[b]),
        forall|i: int|
            0 <= i < volumes.len() && is_some_volume(#[trigger] volumes[i]) ==> exists|k: int|
                0 <= k < profiles::traded_rows(volumes).len() && #[trigger] profiles::traded_rows(
                    volumes,
                )[k] == i,
    decreases volumes.len(),
{
    if volumes.len() > 0 {
        let front = volumes.drop_last();
        lemma_traded(front);
        let all = profiles::traded_rows(volumes);
        let head = profiles::traded_rows(front);
        assert forall|i: int| 0 <= i < volumes.len() && is_some_volume(
            #[trigger] volumes[i],
        ) implies exists|k: int| 0 <= k < all.len() && #[trigger] all[k] == i by {
            if i < front.len() {
                assert(is_some_volume(front[i]));
                let k = choose|k: int| 0 <= k < head.len() && #[trigger] head[k] == i;
                assert(all[k] == i);
            } else {
                assert(all[all.len() - 1] == i);
            }
        }
    }
}

/// The rows of a plan are exactly the rows with volume, from low to high, and its point of
/// control has the most volume of them, of several equal ones the highest price.
pub proof fn points_of_control_have_the_most_volume(plan: ProfilePlan, volumes: Seq<Bits64>)
    requires
        profiles::is_plan(plan, volumes),
        volumes.len() <= usize::MAX,
    ensures
        forall|a: int, b: int|
            0 <= a < b < plan.rows@.len() ==> (#[trigger] plan.rows@[a]) < (
            #[trigger] plan.rows@[b]) < volumes.len(),
        forall|i: int|
            0 <= i < volumes.len() ==> (0 < (#[trigger] volumes[i]).bits <= 0x7ff0_0000_0000_0000
                <==> plan.rows@.contains(i as usize)),
        plan.poc < plan.rows@.len(),
        plan.order@.len() == plan.rows@.len(),
        plan.order@[0] == plan.poc,
        forall|j: int|
            0 <= j < plan.rows@.len() ==> volumes[(#[trigger] plan.rows@[j]) as int].bits
                <= volumes[plan.rows@[plan.poc as int] as int].bits,
        forall|j: int|
            plan.poc < j < plan.rows@.len() ==> volumes[(#[trigger] plan.rows@[j]) as int].bits
                < volumes[plan.rows@[plan.poc as int] as int].bits,
{
    lemma_traded(volumes);
    let traded = profiles::traded_volumes(volumes);
    let poc = plan.poc as int;
    assert(traded[poc] == volumes[plan.rows@[poc] as int]);
    assert forall|j: int| 0 <= j < plan.rows@.len() implies volumes[(
    #[trigger] plan.rows@[j]) as int].bits <= volumes[plan.rows@[poc] as int].bits && (poc < j
        ==> volumes[plan.rows@[j] as int].bits < volumes[plan.rows@[poc] as int].bits) by {
        assert(traded[j] == volumes[plan.rows@[j] as int]);
        assert(traded[j].rank() <= traded[poc].rank());
    }
    assert forall|i: int| 0 <= i < volumes.len() implies (0 < (#[trigger] volumes[i]).bits
        <= 0x7ff0_0000_0000_0000 <==> plan.rows@.contains(i as usize)) by {
        if plan.rows@.contains(i as usize) {
            let k = choose|k: int| 0 <= k < plan.rows@.len() && plan.rows@[k] == i as usize;
            assert(is_some_volume(volumes[plan.rows@[k] as int]));
        }
        if is_some_volume(volumes[i]) {
            let k = choose|k: int|
                0 <= k < profiles::traded_rows(volumes).len() && #[trigger] profiles::traded_rows(
                    volumes,
                )[k] == i;
            assert(plan.rows@[k] == i as usize);
        }
    }
}

proof fn lemma_taken_so_far(traded: Seq<Bits64>, poc: int, steps: nat, order: Seq<usize>)
    requires
        0 <= poc < traded.len() <= usize::MAX,
        steps < traded.len(),
        steps < order.len(),
        forall|k: int| 0 <= k <= steps ==> #[trigger] order[k] == profiles::taken(traded, poc, k),
    ensures
        ({
            let (low, high) = profiles::window(traded, poc, steps);
            &&& 0 <= low <= poc <= high < traded.len()
            &&& high - low == steps
            &&& forall|j: int| 0 <= j <= steps ==> low <= #[trigger] order[j] <= high
            &&& forall|x: int| low <= x <= high ==> #[trigger] order.take(steps as int + 1).contains(
                x as usize,
            )
        }),
    decreases steps,
{
    profiles::lemma_window(traded, poc, steps);
    let (low, high) = profiles::window(traded, poc, steps);
    assert(order[steps as int] == profiles::taken(traded, poc, steps as int));
    if steps == 0 {
        assert forall|x: int| low <= x <= high implies #[trigger] order.take(
            steps as int + 1,
        ).contains(x as usize) by {
            assert(order.take(1)[0] == x as usize);
        }
    } else {
        let before = (steps - 1) as nat;
        lemma_taken_so_far(traded, poc, before, order);
        profiles::lemma_window(traded, poc, before);
        let (a, b) = profiles::window(traded, poc, before);
        let fresh = order[steps as int];
        assert(fresh == (if profiles::grows_up(traded, a, b) {
            b + 1
        } else {
            a - 1
        }));
        assert forall|x: int| low <= x <= high implies #[trigger] order.take(
            steps as int + 1,
        ).contains(x as usize) by {
            if a <= x <= b {
                let head = order.take(before as int + 1);
                assert(head.contains(x as usize));
                let j = choose|j: int| 0 <= j < head.len() && head[j] == x as usize;
                assert(order.take(steps as int + 1)[j] == x as usize);
            } else {
                assert(order.take(steps as int + 1)[steps as int] == x as usize);
            }
        }
    }
}

/// The row that is taken in next is a neighbour of the rows that were taken in before, which
/// lie next to each other from `low` to `high`. Where there is a neighbour on both sides, it
/// is the one with more volume, and of two equal ones the one at the higher price.
pub proof fn the_larger_neighbour_is_taken_in(plan: ProfilePlan, volumes: Seq<Bits64>, k: int) -> (r:
    (int, int))
    requires
        profiles::is_plan(plan, volumes),
        volumes.len() <= usize::MAX,
        1 <= k < plan.order@.len(),
    ensures
        0 <= r.0 <= r.1 < plan.rows@.len(),
        r.1 - r.0 == k - 1,
        forall|j: int| 0 <= j < k ==> r.0 <= #[trigger] plan.order@[j] <= r.1,
        forall|x: int|
            r.0 <= x <= r.1 ==> #[trigger] plan.order@.take(k).contains(x as usize),
        plan.order@[k] == r.0 - 1 || plan.order@[k] == r.1 + 1,
        0 <= plan.order@[k] < plan.rows@.len(),
        0 < r.0 && r.1 + 1 < plan.rows@.len() ==> {
            let below = volumes[plan.rows@[r.0 - 1] as int].bits;
            let above = volumes[plan.rows@[r.1 + 1] as int].bits;
            plan.order@[k] == (if above >= below {
                r.1 + 1
            } else {
                r.0 - 1
            })
        },
{
    lemma_traded(volumes);
    let traded = profiles::traded_volumes(volumes);
    let poc = plan.poc as int;
    let steps = (k - 1) as nat;
    lemma_taken_so_far(traded, poc, steps, plan.order@);
    let (low, high) = profiles::window(traded, poc, steps);
    assert(plan.order@[k] == profiles::taken(traded, poc, k));
    assert(plan.order@.take(k) =~= plan.order@.take(steps as int + 1));
    if low > 0 {
        assert(traded[low - 1] == volumes[plan.rows@[low - 1] as int]);
        assert(is_some_volume(volumes[plan.rows@[low - 1] as int]));
    }
    if high + 1 < traded.len() {
        assert(traded[high + 1] == volumes[plan.rows@[high + 1] as int]);
        assert(is_some_volume(volumes[plan.rows@[high + 1] as int]));
    }
    (low, high)
}

/// The value area of a profile is what a plan takes in first: the rows of its first steps,
/// and no others. Before the last step the sum is below the target, and with it it is not,
/// unless every row is in. Sums and target are figures at least zero.
pub proof fn value_areas_are_what_is_taken_in_first(
    profile: SessionProfile,
    place: int,
    session: SessionBins,
    figures: ProfileFigures,
    row: i64,
    plan: ProfilePlan,
) -> (steps: int)
    requires
        figures.fits(session),
        profiles::is_profile_of(profile, place, session, figures, row),
        profiles::is_plan(plan, figures.volumes@),
        figures.volumes@.len() <= usize::MAX,
        figures.target.bits <= 0x7ff0_0000_0000_0000,
        forall|j: int|
            0 <= j < figures.included@.len() ==> (#[trigger] figures.included@[j]).bits
                <= 0x7ff0_0000_0000_0000,
    ensures
        0 <= steps < plan.order@.len(),
        profile.poc == plan.poc,
        profile.value_area_low <= profile.poc <= profile.value_area_high < plan.rows@.len(),
        profile.value_area_high - profile.value_area_low == steps,
        forall|j: int|
            0 <= j <= steps ==> profile.value_area_low <= #[trigger] plan.order@[j]
                <= profile.value_area_high,
        forall|x: int|
            profile.value_area_low <= x <= profile.value_area_high ==> #[trigger] plan.order@.take(
                steps + 1,
            ).contains(x as usize),
        forall|j: int|
            0 <= j < steps ==> (#[trigger] figures.included@[j]).bits < figures.target.bits,
        figures.included@[steps].bits >= figures.target.bits || steps == plan.rows@.len() - 1,
{
    let traded = profiles::traded_volumes(figures.volumes@);
    lemma_traded(figures.volumes@);
    profiles::value_areas_reach_the_target(profile, place, session, figures, row);
    let (a, b) = (profile.poc as int, plan.poc as int);
    assert(a == b) by {
        if a < b {
            assert(traded[b].rank() < traded[a].rank());
            assert(traded[a].rank() <= traded[b].rank());
        } else if b < a {
            assert(traded[a].rank() < traded[b].rank());
            assert(traded[b].rank() <= traded[a].rank());
        }
    }
    let steps = profiles::steps_taken(figures.included@, figures.target, 0);
    lemma_steps_end(figures.included@, figures.target, 0);
    lemma_taken_so_far(traded, a, steps, plan.order@);
    assert forall|j: int| 0 <= j < steps implies (#[trigger] figures.included@[j]).bits
        < figures.target.bits by {
        assert(figures.target.above(figures.included@[j]));
    }
    steps as int
}

proof fn lemma_steps_end(included: Seq<Bits64>, target: Bits64, from: nat)
    requires
        from < included.len(),
    ensures
        from <= profiles::steps_taken(included, target, from) < included.len(),
    decreases included.len() - from,
{
    if from + 1 < included.len() && target.above(included[from as int]) {
        lemma_steps_end(included, target, from + 1);
    }
}

/// A profile shows the rows with volume at the prices in the middle of them, and carries the
/// place, the times and the highest and lowest price of its session.
pub proof fn profiles_show_the_rows_of_their_session(
    profile: SessionProfile,
    place: int,
    session: SessionBins,
    figures: ProfileFigures,
    row: i64,
    i: int,
)
    requires
        figures.fits(session),
        profiles::is_profile_of(profile, place, session, figures, row),
        figures.volumes@.len() <= usize::MAX,
        0 <= i < figures.volumes@.len(),
        i64::MIN <= session.bins@[i].units + row / 2 <= i64::MAX,
    ensures
        profile.session == place,
        profile.start == session.start,
        profile.end == session.end,
        profile.high == session.high,
        profile.low == session.low,
        (0 < figures.volumes@[i].bits <= 0x7ff0_0000_0000_0000) <==> exists|k: int|
            0 <= k < profile.rows@.len() && (#[trigger] profile.rows@[k]).bin == i
                && profile.rows@[k].price.units == session.bins@[i].units + row / 2,
        forall|a: int, b: int|
            0 <= a < b < profile.rows@.len() ==> (#[trigger] profile.rows@[a]).bin < (
            #[trigger] profile.rows@[b]).bin,
{
    lemma_traded(figures.volumes@);
    let places = profiles::traded_rows(figures.volumes@);
    if is_some_volume(figures.volumes@[i]) {
        let k = choose|k: int| 0 <= k < places.len() && #[trigger] places[k] == i;
        assert(profile.rows@[k].bin == i);
    }
    if exists|k: int|
        0 <= k < profile.rows@.len() && (#[trigger] profile.rows@[k]).bin == i
            && profile.rows@[k].price.units == session.bins@[i].units + row / 2 {
        let k = choose|k: int|
            0 <= k < profile.rows@.len() && (#[trigger] profile.rows@[k]).bin == i
                && profile.rows@[k].price.units == session.bins@[i].units + row / 2;
        assert(places[k] == i);
    }
}

/// The height of a row is that of its ticks, at least one, and at least one unit.
pub proof fn rows_are_as_high_as_their_ticks(tick: i64, ticks: u32)
    ensures
        profiles::row_height(tick, ticks) >= 1,
        tick >= 1 && ticks >= 1 && tick * ticks <= i64::MAX ==> profiles::row_height(tick, ticks)
            == tick * ticks,
        tick >= 1 ==> profiles::row_height(tick, 0) == tick,
{
    if tick >= 1 && ticks >= 1 {
        assert(tick * ticks >= 1) by (nonlinear_arith)
            requires
                tick >= 1,
                ticks >= 1,
        ;
    }
}

/// A price lies in the row that begins at or below it and ends above it, and rows begin at
/// multiples of their height.
pub proof fn prices_lie_in_their_row(price: Price, row: i64)
    requires
        row >= 1,
        price.units >= i64::MIN + row,
    ensures
        profiles::bin_of(price, row) <= price.units < profiles::bin_of(price, row) + row,
        profiles::bin_of(price, row) as int % row as int == 0,
{
    let p = price.units as int;
    let h = row as int;
    vstd::arithmetic::div_mod::lemma_fundamental_div_mod(p, h);
    vstd::arithmetic::div_mod::lemma_mod_multiples_basic(p / h, h);
    vstd::arithmetic::mul::lemma_mul_is_commutative(p / h, h);
}

/// What a row holds is what was traded at its prices, in order.
pub proof fn rows_hold_what_was_traded_in_them(
    levels: Seq<PriceLevel>,
    row: i64,
    bins: Seq<ProfileBin>,
    k: int,
)
    requires
        profiles::is_bins(levels, row, bins),
        row >= 1,
        forall|i: int|
            0 <= i < levels.len() ==> (#[trigger] levels[i]).price.units >= i64::MIN + row,
        0 <= k < bins.len(),
    ensures
        bins[k].levels@ == levels.filter(
            |level: PriceLevel| bins[k].units <= level.price.units < bins[k].units + row,
        ),
        bins[k].levels@.len() > 0,
{
    let units = bins[k].units;
    assert(profiles::is_listed(bins, units));
    assert(profiles::is_traded(levels, row, units));
    let i = choose|i: int|
        0 <= i < levels.len() && profiles::bin_of((#[trigger] levels[i]).price, row) == units;
    prices_lie_in_their_row(levels[i].price, row);
    lemma_row_filter(levels, row, units);
    let pred = |level: PriceLevel| units <= level.price.units < units + row;
    assert(pred(levels[i]));
    levels.lemma_filter_contains(pred, i);
    assert(levels.filter(pred).contains(levels[i]));
    assert(levels.filter(pred) == levels.filter(
        |level: PriceLevel| bins[k].units <= level.price.units < bins[k].units + row,
    ));
}

proof fn lemma_row_filter(levels: Seq<PriceLevel>, row: i64, units: i64)
    requires
        row >= 1,
        units as int % row as int == 0,
        forall|i: int|
            0 <= i < levels.len() ==> (#[trigger] levels[i]).price.units >= i64::MIN + row,
    ensures
        profiles::levels_in(levels, row, units) == levels.filter(
            |level: PriceLevel| units <= level.price.units < units + row,
        ),
    decreases levels.len(),
{
    reveal(Seq::filter);
    if levels.len() > 0 {
        let front = levels.drop_last();
        assert forall|i: int| 0 <= i < front.len() implies (#[trigger] front[i]).price.units
            >= i64::MIN + row by {
            assert(front[i] == levels[i]);
        }
        lemma_row_filter(front, row, units);
        let last = levels[levels.len() - 1];
        prices_lie_in_their_row(last.price, row);
        let begin = profiles::bin_of(last.price, row) as int;
        lemma_one_row(begin, units as int, row as int, last.price.units as int);
    }
}

proof fn lemma_one_row(a: int, b: int, h: int, p: int)
    requires
        h >= 1,
        a % h == 0,
        b % h == 0,
        a <= p < a + h,
    ensures
        b <= p < b + h <==> a == b,
{
    vstd::arithmetic::div_mod::lemma_fundamental_div_mod(a, h);
    vstd::arithmetic::div_mod::lemma_fundamental_div_mod(b, h);
    vstd::arithmetic::mul::lemma_mul_is_commutative(h, a / h);
    vstd::arithmetic::mul::lemma_mul_is_commutative(h, b / h);
    if b <= p < b + h {
        vstd::arithmetic::div_mod::lemma_fundamental_div_mod_converse(p, h, a / h, p - a);
        vstd::arithmetic::div_mod::lemma_fundamental_div_mod_converse(p, h, b / h, p - b);
    }
}

/// Everything that was traded lies in some row.
pub proof fn every_traded_price_has_its_row(
    levels: Seq<PriceLevel>,
    row: i64,
    bins: Seq<ProfileBin>,
    i: int,
) -> (k: int)
    requires
        profiles::is_bins(levels, row, bins),
        row >= 1,
        0 <= i < levels.len(),
        levels[i].price.units >= i64::MIN + row,
    ensures
        0 <= k < bins.len(),
        bins[k].units <= levels[i].price.units < bins[k].units + row,
{
    let units = profiles::bin_of(levels[i].price, row);
    prices_lie_in_their_row(levels[i].price, row);
    assert(profiles::is_traded(levels, row, units));
    assert(profiles::is_listed(bins, units));
    choose|k: int| 0 <= k < bins.len() && (#[trigger] bins[k]).units == units
}

/// The candles that are looked at are those from `from` to `to`.
pub proof fn visible_candles_lie_in_the_range(
    candles: Seq<FootprintCandle>,
    from: u64,
    to: u64,
)
    ensures
        profiles::visible(candles, from, to) == candles.filter(
            |candle: FootprintCandle| from <= candle.time.ms <= to,
        ),
    decreases candles.len(),
{
    reveal(Seq::filter);
    if candles.len() > 0 {
        visible_candles_lie_in_the_range(candles.drop_last(), from, to);
    }
}

/// Each candle with trades adds them to a session that begins at the start of its session,
/// and reaches as high and as low as the candle.
pub proof fn candles_count_in_their_session(
    candles: Seq<FootprintCandle>,
    session_ms: u64,
    i: int,
) -> (k: int)
    requires
        0 <= i < candles.len(),
        candles[i].levels@.len() > 0,
    ensures
        0 <= k < profiles::grouped(candles, session_ms).len(),
        ({
            let group = profiles::grouped(candles, session_ms)[k];
            &&& group.start == sessions::session_start(candles[i].time.ms, session_ms)
            &&& group.high.units >= candles[i].high.units
            &&& group.low.units <= candles[i].low.units
            &&& forall|m: int|
                0 <= m < candles[i].levels@.len() ==> #[trigger] group.levels.contains(
                    candles[i].levels@[m],
                )
        }),
    decreases candles.len(),
{
    let front = candles.drop_last();
    let head = profiles::grouped(front, session_ms);
    let all = profiles::grouped(candles, session_ms);
    if i < front.len() {
        let k = candles_count_in_their_session(front, session_ms, i);
        assert(front[i] == candles[i]);
        assert forall|m: int| 0 <= m < candles[i].levels@.len() implies #[trigger] all[
            k].levels.contains(candles[i].levels@[m]) by {
            assert(head[k].levels.contains(front[i].levels@[m]));
            let at = choose|at: int|
                0 <= at < head[k].levels.len() && head[k].levels[at] == candles[i].levels@[m];
            assert(all[k].levels[at] == candles[i].levels@[m]);
        }
        k
    } else {
        let k = all.len() - 1;
        assert forall|m: int| 0 <= m < candles[i].levels@.len() implies #[trigger] all[
            k].levels.contains(candles[i].levels@[m]) by {
            let offset = all[k].levels.len() - candles[i].levels@.len();
            assert(all[k].levels[offset + m] == candles[i].levels@[m]);
        }
        k
    }
}

spec fn levels_of_groups(groups: Seq<profiles::SessionGroup>) -> nat
    decreases groups.len(),
{
    if groups.len() == 0 {
        0
    } else {
        levels_of_groups(groups.drop_last()) + groups.last().levels.len()
    }
}

/// Nothing else is in the sessions: each traded price of the candles occurs in them once.
pub proof fn sessions_hold_each_trade_once(candles: Seq<FootprintCandle>, session_ms: u64)
    ensures
        profiles::grouped(candles, session_ms).fold_left(
            0int,
            |sum: int, group: profiles::SessionGroup| sum + group.levels.len(),
        ) == candles.fold_left(0int, |sum: int, candle: FootprintCandle| sum + candle.levels@.len()),
{
    lemma_group_total(candles, session_ms);
    lemma_fold_groups(profiles::grouped(candles, session_ms));
}

proof fn lemma_fold_groups(groups: Seq<profiles::SessionGroup>)
    ensures
        groups.fold_left(
            0int,
            |sum: int, group: profiles::SessionGroup| sum + group.levels.len(),
        ) == levels_of_groups(groups),
    decreases groups.len(),
{
    if groups.len() > 0 {
        lemma_fold_groups(groups.drop_last());
    }
}

proof fn lemma_group_total(candles: Seq<FootprintCandle>, session_ms: u64)
    ensures
        levels_of_groups(profiles::grouped(candles, session_ms)) == candles.fold_left(
            0int,
            |sum: int, candle: FootprintCandle| sum + candle.levels@.len(),
        ),
    decreases candles.len(),
{
    if candles.len() > 0 {
        let front = candles.drop_last();
        lemma_group_total(front, session_ms);
        let head = profiles::grouped(front, session_ms);
        let all = profiles::grouped(candles, session_ms);
        if all.len() > 0 && candles.last().levels@.len() > 0 {
            if all.len() == head.len() {
                assert(all.drop_last() =~= head.drop_last());
            } else {
                assert(all.drop_last() =~= head);
            }
        }
    }
}

/// The volume of a candle is the sum of what was bought and sold at its prices.
pub proof fn candle_volumes_are_sums(levels: Seq<PriceLevel>)
    ensures
        profiles::traded_volume(levels) == levels.fold_left(
            0int,
            |sum: int, level: PriceLevel| sum + level.buy.units + level.sell.units,
        ),
    decreases levels.len(),
{
    if levels.len() > 0 {
        candle_volumes_are_sums(levels.drop_last());
    }
}

/// An average is shown at a candle from the first volume of its session on: a candle of the
/// range is a point of the session that begins where its own does as soon as something was
/// traded there, with quantities at least zero.
pub proof fn averages_begin_with_the_first_trade(
    candles: Seq<FootprintCandle>,
    anchor_ms: u64,
    from: u64,
    to: u64,
    i: int,
) -> (k: int)
    requires
        candles.len() <= usize::MAX,
        0 <= i < candles.len(),
        from <= candles[i].time.ms <= to,
        forall|c: int|
            0 <= c < candles.len() ==> profiles::traded_volume((#[trigger] candles[c]).levels@) >= 0,
        profiles::traded_volume(candles[i].levels@) > 0,
    ensures
        0 <= k < profiles::vwap_sessions(candles, anchor_ms, from, to).len(),
        profiles::vwap_sessions(candles, anchor_ms, from, to)[k].start == sessions::session_start(
            candles[i].time.ms,
            anchor_ms,
        ),
        profiles::vwap_sessions(candles, anchor_ms, from, to)[k].points.contains(i as usize),
        profiles::vwap_sessions(candles, anchor_ms, from, to)[k].volume
            >= profiles::traded_volume(candles[i].levels@),
        forall|s: int|
            0 <= s < profiles::vwap_sessions(candles, anchor_ms, from, to).len() ==> (
            #[trigger] profiles::vwap_sessions(candles, anchor_ms, from, to)[s]).volume >= 0,
    decreases candles.len(),
{
    let front = candles.drop_last();
    assert forall|c: int| 0 <= c < front.len() implies profiles::traded_volume(
        (#[trigger] front[c]).levels@,
    ) >= 0 by {
        assert(front[c] == candles[c]);
    }
    lemma_vwap_nonnegative(front, anchor_ms, from, to);
    let head = profiles::vwap_sessions(front, anchor_ms, from, to);
    let all = profiles::vwap_sessions(candles, anchor_ms, from, to);
    assert(candles[candles.len() - 1] == candles.last());
    if i < front.len() {
        assert(front[i] == candles[i]);
        let k = averages_begin_with_the_first_trade(front, anchor_ms, from, to, i);
        let at = choose|at: int|
            0 <= at < head[k].points.len() && head[k].points[at] == i as usize;
        assert(all[k].points[at] == i as usize);
        k
    } else {
        let k = all.len() - 1;
        assert(all[k].points[all[k].points.len() - 1] == i as usize);
        k
    }
}

proof fn lemma_vwap_nonnegative(
    candles: Seq<FootprintCandle>,
    anchor_ms: u64,
    from: u64,
    to: u64,
)
    requires
        forall|c: int|
            0 <= c < candles.len() ==> profiles::traded_volume((#[trigger] candles[c]).levels@) >= 0,
    ensures
        forall|s: int|
            0 <= s < profiles::vwap_sessions(candles, anchor_ms, from, to).len() ==> (
            #[trigger] profiles::vwap_sessions(candles, anchor_ms, from, to)[s]).volume >= 0,
    decreases candles.len(),
{
    if candles.len() > 0 {
        let front = candles.drop_last();
        assert forall|c: int| 0 <= c < front.len() implies profiles::traded_volume(
            (#[trigger] front[c]).levels@,
        ) >= 0 by {
            assert(front[c] == candles[c]);
        }
        lemma_vwap_nonnegative(front, anchor_ms, from, to);
        assert(candles[candles.len() - 1] == candles.last());
        let head = profiles::vwap_sessions(front, anchor_ms, from, to);
        let all = profiles::vwap_sessions(candles, anchor_ms, from, to);
        assert forall|s: int| 0 <= s < all.len() implies (#[trigger] all[s]).volume >= 0 by {
            if head.len() > 0 {
                assert(head[head.len() - 1].volume >= 0);
            }
            if s < head.len() {
                assert(head[s].volume >= 0);
            }
        }
    }
}

/// Each point of an average is a candle of the range, of the session it stands in.
pub proof fn average_points_are_candles_of_their_session(
    candles: Seq<FootprintCandle>,
    anchor_ms: u64,
    from: u64,
    to: u64,
    s: int,
    p: int,
)
    requires
        candles.len() <= usize::MAX,
        0 <= s < profiles::vwap_sessions(candles, anchor_ms, from, to).len(),
        0 <= p < profiles::vwap_sessions(candles, anchor_ms, from, to)[s].points.len(),
    ensures
        ({
            let session = profiles::vwap_sessions(candles, anchor_ms, from, to)[s];
            let at = session.points[p] as int;
            &&& 0 <= at < candles.len()
            &&& from <= candles[at].time.ms <= to
            &&& session.start == sessions::session_start(candles[at].time.ms, anchor_ms)
        }),
    decreases candles.len(),
{
    if candles.len() > 0 {
        let front = candles.drop_last();
        let head = profiles::vwap_sessions(front, anchor_ms, from, to);
        let all = profiles::vwap_sessions(candles, anchor_ms, from, to);
        assert(candles[candles.len() - 1] == candles.last());
        if s < head.len() && p < head[s].points.len() {
            average_points_are_candles_of_their_session(front, anchor_ms, from, to, s, p);
            let at = head[s].points[p] as int;
            assert(front[at] == candles[at]);
            assert(all[s].points[p] == head[s].points[p]);
        }
    }
}

/// Only sessions with a point are shown, and all of these.
pub proof fn shown_averages_have_points(list: Seq<VwapModel>)
    ensures
        profiles::shown_sessions(list) == list.filter(
            |session: VwapModel| session.points.len() > 0,
        ),
    decreases list.len(),
{
    reveal(Seq::filter);
    if list.len() > 0 {
        shown_averages_have_points(list.drop_last());
    }
}

} // verus!
