//! What labels, typed prices, styles and panels promise, stated on characters, bounds and
//! fields.
use vstd::prelude::*;
use crate::chart::kline::drawing::geometry::{DrawingAnchor, DrawingX, GeometryModel};
use crate::chart::kline::drawing::labels;
use crate::chart::kline::drawing::panels;
use crate::chart::kline::drawing::state;
use crate::chart::kline::drawing::style;
use crate::chart::kline::drawing::style::{
    DrawingColor, FixedRangeVolumeProfileConfig, StyleChange, StyleModel,
};
use crate::chart::kline::drawing::transitions::DrawingModel;
use crate::text;
use crate::units::{Bits32, Price, UnixMs};

verus! {

proof fn lemma_powers(a: nat, b: nat)
    ensures
        labels::power_of_ten(a + b) == labels::power_of_ten(a) * labels::power_of_ten(b),
        labels::power_of_ten(a) >= 1,
    decreases a,
{
    if a == 0 {
        assert(labels::power_of_ten(0) == 1);
    } else {
        let less = (a - 1) as nat;
        lemma_powers(less, b);
        let p = labels::power_of_ten(less);
        let q = labels::power_of_ten(b);
        assert((a + b - 1) as nat == less + b);
        assert(10 * (p * q) == (10 * p) * q) by (nonlinear_arith);
    }
}

/// A price is written as a whole number and as many decimals as asked for, and what is written
/// is the price cut off there: its hundred-billionths lie in the step that the text names. A
/// price below zero has a minus in front.
pub proof fn prices_are_written_to_their_decimals(price: Price, decimals: nat) -> (r: (nat, nat))
    requires
        1 <= decimals <= 11,
    ensures
        ({
            let (whole, rest) = r;
            let sign = if price.units < 0 {
                seq!['-']
            } else {
                Seq::<char>::empty()
            };
            let size = if price.units < 0 {
                -price.units
            } else {
                price.units as int
            };
            let step = labels::power_of_ten((11 - decimals) as nat);
            let written = (whole * labels::power_of_ten(decimals) + rest) * step;
            &&& labels::price_text(price, decimals) == sign + text::decimal(whole) + seq!['.']
                + text::padded(rest, decimals)
            &&& rest < labels::power_of_ten(decimals)
            &&& written <= size < written + step
        }),
        labels::power_of_ten(0) == 1,
        labels::power_of_ten(1) == 10,
        labels::power_of_ten(11) == 100_000_000_000,
{
    let size = labels::magnitude(price);
    let scale = labels::PRICE_SCALE as nat;
    let cut = (11 - decimals) as nat;
    let step = labels::power_of_ten(cut);
    let steps = labels::power_of_ten(decimals);
    reveal_with_fuel(labels::power_of_ten, 12);
    assert(labels::power_of_ten(11) == 100_000_000_000);
    lemma_powers(decimals, cut);
    lemma_powers(cut, decimals);
    assert(scale == steps * step);
    let whole = size / scale;
    let below = size % scale;
    let rest = below / step;
    vstd::arithmetic::div_mod::lemma_fundamental_div_mod(size as int, scale as int);
    vstd::arithmetic::div_mod::lemma_fundamental_div_mod(below as int, step as int);
    assert(rest < steps) by (nonlinear_arith)
        requires
            below < steps * step,
            rest * step <= below,
            step >= 1,
    ;
    assert((whole * steps + rest) * step == scale * whole + step * rest) by (nonlinear_arith)
        requires
            scale == steps * step,
    ;
    (whole, rest)
}

/// Without decimals a price is written as its whole part.
pub proof fn whole_prices_have_no_point(price: Price)
    requires
        price.units >= 0,
    ensures
        labels::price_text(price, 0) == text::decimal(price.units as nat / 100_000_000_000),
{
    assert(Seq::<char>::empty() + text::decimal(price.units as nat / 100_000_000_000)
        =~= text::decimal(price.units as nat / 100_000_000_000));
}

/// A time of day is written as hours, minutes and seconds of two digits that add up to it.
pub proof fn times_of_day_add_up(ms: u64) -> (r: (nat, nat, nat))
    ensures
        r.0 < 24,
        r.1 < 60,
        r.2 < 60,
        r.0 * 3_600 + r.1 * 60 + r.2 == ms as nat / 1_000 % 86_400,
        labels::clock_text(ms) == text::padded(r.0, 2) + seq![':'] + text::padded(r.1, 2)
            + seq![':'] + text::padded(r.2, 2),
        ms <= 8_210_266_876_799_999 ==> labels::x_text(DrawingX::Time(UnixMs { ms }))
            == labels::clock_text(ms),
        ms > 8_210_266_876_799_999 ==> labels::x_text(DrawingX::Time(UnixMs { ms }))
            == text::decimal(ms as nat),
        labels::x_text(DrawingX::Tick(ms)) == text::decimal(ms as nat),
{
    let seconds = ms as nat / 1_000 % 86_400;
    (seconds / 3_600, seconds / 60 % 60, seconds % 60)
}

/// A place is written as its position, an at sign and its price; a shape of two places as both
/// with an arrow between, a line as what it stands at.
pub proof fn positions_are_written_by_place(
    first: DrawingAnchor,
    second: DrawingAnchor,
    content: Seq<char>,
    decimals: nat,
)
    ensures
        ({
            let a = GeometryModel::Text(first, content).position(decimals);
            let b = GeometryModel::Text(second, content).position(decimals);
            let both = a + " → "@ + b;
            &&& a == labels::x_text(first.x) + " @ "@ + labels::price_text(first.price, decimals)
            &&& GeometryModel::Rectangle(first, second).position(decimals) == both
            &&& GeometryModel::Fibonacci(first, second).position(decimals) == both
            &&& GeometryModel::TrendLine(first, second).position(decimals) == both
            &&& GeometryModel::Freehand(seq![first, second]).position(decimals) == a
            &&& GeometryModel::Freehand(Seq::empty()).position(decimals) == "Empty"@
            &&& GeometryModel::HorizontalLine(first.price).position(decimals)
                == labels::price_text(first.price, decimals)
            &&& GeometryModel::VerticalLine(first.x).position(decimals) == labels::x_text(first.x)
            &&& first.x matches DrawingX::Time(from) ==> second.x matches DrawingX::Time(to)
                ==> GeometryModel::FixedRangeVolumeProfile(from, to).position(decimals)
                == labels::x_text(first.x) + " → "@ + labels::x_text(second.x)
        }),
{
}

/// A text that fits stays; a longer one is cut to the length asked for, three dots included.
pub proof fn long_texts_end_in_dots(value: Seq<char>, max_chars: nat)
    requires
        max_chars >= 3,
    ensures
        value.len() <= max_chars ==> labels::shortened(value, max_chars) == value,
        value.len() > max_chars ==> {
            let cut = labels::shortened(value, max_chars);
            &&& cut.len() == max_chars
            &&& forall|i: int| 0 <= i < max_chars - 3 ==> #[trigger] cut[i] == value[i]
            &&& forall|i: int| max_chars - 3 <= i < max_chars ==> #[trigger] cut[i] == '.'
        },
{
    reveal_strlit("...");
}

/// White space around a typed price is dropped, and so are spaces, underscores and apostrophes
/// inside it; everything else stays in order.
pub proof fn fillers_are_dropped(value: Seq<char>)
    ensures
        labels::without_fillers(value) == value.filter(
            |c: char| c != ' ' && c != '\u{a0}' && c != '_' && c != '\'',
        ),
        labels::trimmed_front(value).len() <= value.len(),
        labels::trimmed_front(value).len() > 0 ==> !text::is_space(labels::trimmed_front(value)[0]),
        labels::trimmed_front(value) == value.skip(
            value.len() - labels::trimmed_front(value).len(),
        ),
        forall|i: int|
            0 <= i < value.len() - labels::trimmed_front(value).len() ==> text::is_space(
                #[trigger] value[i],
            ),
{
    lemma_fillers(value);
    lemma_front(value);
}

/// White space behind a typed price is dropped.
pub proof fn trailing_space_is_dropped(value: Seq<char>)
    ensures
        labels::trimmed_back(value).len() <= value.len(),
        labels::trimmed_back(value) == value.take(labels::trimmed_back(value).len() as int),
        labels::trimmed_back(value).len() > 0 ==> !text::is_space(
            labels::trimmed_back(value).last(),
        ),
        forall|i: int|
            labels::trimmed_back(value).len() <= i < value.len() ==> text::is_space(
                #[trigger] value[i],
            ),
    decreases value.len(),
{
    if value.len() > 0 && text::is_space(value.last()) {
        let front = value.drop_last();
        trailing_space_is_dropped(front);
        let kept = labels::trimmed_back(value);
        assert(kept =~= value.take(kept.len() as int));
        assert forall|i: int| kept.len() <= i < value.len() implies text::is_space(
            #[trigger] value[i],
        ) by {
            if i < front.len() {
                assert(front[i] == value[i]);
            }
        }
    } else {
        assert(value.take(value.len() as int) =~= value);
    }
}

proof fn lemma_fillers(value: Seq<char>)
    ensures
        labels::without_fillers(value) == value.filter(
            |c: char| c != ' ' && c != '\u{a0}' && c != '_' && c != '\'',
        ),
    decreases value.len(),
{
    reveal(Seq::filter);
    if value.len() > 0 {
        lemma_fillers(value.drop_last());
    }
}

proof fn lemma_front(value: Seq<char>)
    ensures
        labels::trimmed_front(value).len() <= value.len(),
        labels::trimmed_front(value).len() > 0 ==> !text::is_space(labels::trimmed_front(value)[0]),
        labels::trimmed_front(value) == value.skip(
            value.len() - labels::trimmed_front(value).len(),
        ),
        forall|i: int|
            0 <= i < value.len() - labels::trimmed_front(value).len() ==> text::is_space(
                #[trigger] value[i],
            ),
    decreases value.len(),
{
    if value.len() > 0 && text::is_space(value[0]) {
        let rest = value.skip(1);
        lemma_front(rest);
        let kept = labels::trimmed_front(value);
        assert(kept =~= value.skip(value.len() - kept.len()));
        assert forall|i: int| 0 <= i < value.len() - kept.len() implies text::is_space(
            #[trigger] value[i],
        ) by {
            if i > 0 {
                assert(rest[i - 1] == value[i]);
            }
        }
    } else {
        assert(value.skip(0) =~= value);
    }
}

/// A point or a comma.
pub open spec fn is_mark(c: char) -> bool {
    c == '.' || c == ','
}

proof fn lemma_last(body: Seq<char>)
    ensures
        -1 <= labels::last_separator(body) < body.len(),
        labels::last_separator(body) >= 0 ==> is_mark(body[labels::last_separator(body)]),
        forall|i: int|
            labels::last_separator(body) < i < body.len() ==> !is_mark(#[trigger] body[i]),
    decreases body.len(),
{
    if body.len() > 0 && !labels::is_separator(body.last()) {
        let front = body.drop_last();
        lemma_last(front);
        assert forall|i: int| labels::last_separator(body) < i < body.len() implies !is_mark(
            #[trigger] body[i],
        ) by {
            if i < front.len() {
                assert(front[i] == body[i]);
            }
        }
    }
}

/// The last separator of a number is its decimal mark where digits follow it, unless it could
/// as well separate thousands: where it is the only kind of separator and three digits follow.
pub proof fn the_last_separator_is_the_decimal_mark(body: Seq<char>, at: int)
    requires
        0 <= at < body.len(),
        is_mark(body[at]),
        forall|i: int| at < i < body.len() ==> !is_mark(#[trigger] body[i]),
    ensures
        ({
            let digits = body.len() - 1 - at;
            let both = body.contains('.') && body.contains(',');
            &&& digits > 0 && (digits != 3 || both) ==> labels::decimal_mark(body) == Some(at)
            &&& digits == 0 || (digits == 3 && !both) ==> labels::decimal_mark(body) is None
        }),
{
    lemma_last(body);
    let last = labels::last_separator(body);
    if last < at {
        assert(!is_mark(body[at]));
    }
    if at < last {
        assert(!is_mark(body[last]));
    }
}

/// Digits stay in order; the decimal mark becomes a point, and every other separator is
/// dropped.
pub proof fn digits_stay_and_the_mark_becomes_a_point(body: Seq<char>, at: int)
    ensures
        labels::plain_digits(body, None) == body.filter(|c: char| !is_mark(c)),
        0 <= at < body.len() && is_mark(body[at]) ==> labels::plain_digits(body, Some(at))
            == body.take(at).filter(|c: char| !is_mark(c)).push('.') + body.skip(at + 1).filter(
            |c: char| !is_mark(c),
        ),
    decreases body.len(),
{
    reveal(Seq::filter);
    let digit = |c: char| !is_mark(c);
    if body.len() > 0 {
        let front = body.drop_last();
        let last = body.len() - 1;
        digits_stay_and_the_mark_becomes_a_point(front, at);
        if 0 <= at < body.len() && is_mark(body[at]) {
            if at < last {
                assert(front.take(at) =~= body.take(at));
                assert(body.skip(at + 1).drop_last() =~= front.skip(at + 1));
                assert(body.skip(at + 1).last() == body.last());
                assert(front[at] == body[at]);
                assert(labels::plain_digits(body, Some(at)) =~= body.take(at).filter(digit).push(
                    '.',
                ) + body.skip(at + 1).filter(digit));
            } else {
                assert(body.take(at) =~= front);
                assert(body.skip(at + 1) =~= Seq::<char>::empty());
                lemma_no_mark(front, at);
                assert(labels::plain_digits(body, Some(at)) =~= body.take(at).filter(digit).push(
                    '.',
                ) + body.skip(at + 1).filter(digit));
            }
        }
    }
}

proof fn lemma_no_mark(body: Seq<char>, at: int)
    requires
        at >= body.len(),
    ensures
        labels::plain_digits(body, Some(at)) == labels::plain_digits(body, None),
    decreases body.len(),
{
    if body.len() > 0 {
        lemma_no_mark(body.drop_last(), at);
    }
}

/// A typed price counts where it consists of digits and separators, a sign in front aside, and
/// where separators that mark no decimals separate thousands. A minus stays, a plus is
/// dropped.
pub proof fn typed_prices_are_read(input: Seq<char>)
    ensures
        ({
            let value = labels::compact(input);
            let signed = value.len() > 0 && (value[0] == '-' || value[0] == '+');
            let body = labels::unsigned(value);
            let number = body.len() > 0 && forall|i: int|
                0 <= i < body.len() ==> text::is_digit(#[trigger] body[i]) || is_mark(body[i]);
            let marked = exists|i: int| 0 <= i < body.len() && is_mark(#[trigger] body[i]);
            let mark = labels::decimal_mark(body);
            let digits = labels::plain_digits(body, mark);
            let read = number && (!marked || mark is Some || labels::is_grouped(body));
            &&& signed ==> body == value.skip(1)
            &&& !signed ==> body == value
            &&& read <==> labels::plain_price(input) is Some
            &&& read && value[0] == '-' ==> labels::plain_price(input) == Some(seq!['-'] + digits)
            &&& read && value[0] != '-' ==> labels::plain_price(input) == Some(digits)
        }),
{
    let body = labels::unsigned(labels::compact(input));
    lemma_last(body);
    let last = labels::last_separator(body);
    if last >= 0 {
        assert(is_mark(body[last]));
    }
    let number = body.len() > 0 && forall|i: int|
        0 <= i < body.len() ==> text::is_digit(#[trigger] body[i]) || is_mark(body[i]);
    assert(labels::is_number_body(body) == number);
    let marked = exists|i: int| 0 <= i < body.len() && is_mark(#[trigger] body[i]);
    assert(marked == (last >= 0));
}

/// A number is kept within its bounds, and what is no finite number gives way to the fallback.
pub proof fn settings_are_kept_within_bounds(
    config: FixedRangeVolumeProfileConfig,
    fallback: FixedRangeVolumeProfileConfig,
)
    requires
        config.width_percent.bits < 0x7f80_0000,
        config.value_area_percent.bits < 0x7f80_0000,
    ensures
        ({
            let clean = style::sanitized(config, fallback);
            &&& 0x4120_0000 <= clean.width_percent.bits <= 0x42b4_0000
            &&& 0x4120_0000 <= config.width_percent.bits <= 0x42b4_0000 ==> clean.width_percent
                == config.width_percent
            &&& config.width_percent.bits < 0x4120_0000 ==> clean.width_percent.bits == 0x4120_0000
            &&& config.width_percent.bits > 0x42b4_0000 ==> clean.width_percent.bits == 0x42b4_0000
            &&& 0x4248_0000 <= clean.value_area_percent.bits <= 0x42be_0000
            &&& 0x4248_0000 <= config.value_area_percent.bits <= 0x42be_0000
                ==> clean.value_area_percent == config.value_area_percent
            &&& config.value_area_percent.bits < 0x4248_0000 ==> clean.value_area_percent.bits
                == 0x4248_0000
            &&& config.value_area_percent.bits > 0x42be_0000 ==> clean.value_area_percent.bits
                == 0x42be_0000
            &&& 1 <= clean.row_size_ticks <= 50
            &&& 1 <= config.row_size_ticks <= 50 ==> clean.row_size_ticks == config.row_size_ticks
            &&& config.row_size_ticks > 50 ==> clean.row_size_ticks == 50
            &&& clean.placement == config.placement && clean.mode == config.mode
            &&& clean.show_poc == config.show_poc && clean.show_vwap == config.show_vwap
            &&& clean.show_value_area == config.show_value_area
            &&& clean.show_range_high_low == config.show_range_high_low
        }),
        style::clamped(
            Bits32 { bits: 0x7fc0_0000 },
            config.width_percent,
            config.value_area_percent,
            fallback.width_percent,
        ) == fallback.width_percent,
{
    crate::unit_laws::finite_figures_lie_below_infinity(
        crate::units::Bits64 { bits: 0 },
        config.width_percent,
    );
    crate::unit_laws::finite_figures_lie_below_infinity(
        crate::units::Bits64 { bits: 0 },
        config.value_area_percent,
    );
    crate::unit_laws::finite_figures_lie_below_infinity(
        crate::units::Bits64 { bits: 0 },
        Bits32 { bits: 0x7fc0_0000 },
    );
}

/// Each change of a style changes what it names and nothing else: a color both of lines and of
/// areas, a number its own, a level its visibility.
pub proof fn style_changes_change_what_they_name(
    held: StyleModel,
    color: DrawingColor,
    value: Bits32,
    shown: bool,
    index: usize,
    config: FixedRangeVolumeProfileConfig,
    fallback: FixedRangeVolumeProfileConfig,
)
    ensures
        ({
            let after = held.changed(StyleChange::SetColor(color), fallback);
            &&& after.look.color == color && after.look.fill_color == color
            &&& after.look.stroke_width == held.look.stroke_width && after.look.opacity
                == held.look.opacity && after.fibonacci_levels == held.fibonacci_levels
        }),
        ({
            let after = held.changed(StyleChange::SetStrokeWidth(value), fallback);
            after.look.stroke_width == value && after.look.color == held.look.color
                && after.look.opacity == held.look.opacity && after.look.text_size
                == held.look.text_size
        }),
        ({
            let after = held.changed(StyleChange::SetOpacity(value), fallback);
            after.look.opacity == value && after.look.fill_opacity == held.look.fill_opacity
                && after.look.stroke_width == held.look.stroke_width
        }),
        ({
            let after = held.changed(StyleChange::SetFillOpacity(value), fallback);
            after.look.fill_opacity == value && after.look.opacity == held.look.opacity
                && after.look.color == held.look.color
        }),
        ({
            let after = held.changed(StyleChange::SetTextSize(value), fallback);
            after.look.text_size == value && after.look.text_scale == held.look.text_scale
                && after.look.stroke_width == held.look.stroke_width
        }),
        ({
            let after = held.changed(StyleChange::ToggleLabels(shown), fallback);
            after.look.show_labels == shown && after.look.color == held.look.color
                && after.fibonacci_levels == held.fibonacci_levels
        }),
        ({
            let after = held.changed(StyleChange::ToggleFibonacciLevel(index), fallback);
            &&& after.look == held.look
            &&& after.fibonacci_levels.len() == held.fibonacci_levels.len()
            &&& index < held.fibonacci_levels.len() ==> {
                &&& after.fibonacci_levels[index as int].visible
                    == !held.fibonacci_levels[index as int].visible
                &&& after.fibonacci_levels[index as int].value
                    == held.fibonacci_levels[index as int].value
            }
            &&& forall|i: int|
                0 <= i < held.fibonacci_levels.len() && i != index
                    ==> #[trigger] after.fibonacci_levels[i] == held.fibonacci_levels[i]
        }),
        ({
            let after = held.changed(StyleChange::SetFixedRangeVolumeProfile(config), fallback);
            after.look.fixed_range_volume_profile == style::sanitized(config, fallback)
                && after.look.color == held.look.color && after.fibonacci_levels
                == held.fibonacci_levels
        }),
{
}

/// The drawing under the pointer is the topmost visible one that lies under it.
pub proof fn the_topmost_drawing_is_hit(drawings: Seq<DrawingModel>, under: Seq<bool>, at: int)
    requires
        under.len() >= drawings.len(),
    ensures
        0 <= at < drawings.len() && drawings[at].visible && under[at] && (forall|i: int|
            at < i < drawings.len() ==> !(#[trigger] drawings[i]).visible || !under[i])
            ==> panels::topmost(drawings, under) == Some(drawings[at].id),
        (forall|i: int|
            0 <= i < drawings.len() ==> !(#[trigger] drawings[i]).visible || !under[i])
            ==> panels::topmost(drawings, under) is None,
    decreases drawings.len(),
{
    if drawings.len() > 0 {
        let front = drawings.drop_last();
        let last = drawings.len() - 1;
        assert(drawings[last] == drawings.last());
        assert(forall|i: int| 0 <= i < last ==> #[trigger] front[i] == drawings[i]);
        the_topmost_drawing_is_hit(front, under, at);
        if forall|i: int|
            0 <= i < drawings.len() ==> !(#[trigger] drawings[i]).visible || !under[i] {
            assert forall|i: int| 0 <= i < front.len() implies !(#[trigger] front[i]).visible
                || !under[i] by {
                assert(!drawings[i].visible || !under[i]);
            }
        }
        if 0 <= at < last && (forall|i: int|
            at < i < drawings.len() ==> !(#[trigger] drawings[i]).visible || !under[i]) {
            assert forall|i: int| at < i < front.len() implies !(#[trigger] front[i]).visible
                || !under[i] by {
                assert(!drawings[i].visible || !under[i]);
            }
            assert(!drawings[last].visible || !under[last]);
            assert(front[at] == drawings[at]);
        }
    }
}

/// The handle under the pointer is the first one near it, of a text only the second one.
pub proof fn the_first_near_handle_is_hit(near: Seq<bool>, only_second: bool, from: int)
    requires
        0 <= from <= near.len(),
    ensures
        match panels::first_near(near, only_second, from) {
            Some(at) => {
                &&& from <= at < near.len()
                &&& near[at]
                &&& only_second ==> at == 1
                &&& forall|i: int| from <= i < at ==> !#[trigger] near[i] || (only_second && i != 1)
            },
            None => forall|i: int|
                from <= i < near.len() ==> !#[trigger] near[i] || (only_second && i != 1),
        },
    decreases near.len() - from,
{
    if from < near.len() && !(near[from] && (!only_second || from == 1)) {
        the_first_near_handle_is_hit(near, only_second, from + 1);
    }
}

/// A new drawing never gets an id that a saved one has: no id is larger than the largest, and
/// one is as large.
pub proof fn saved_ids_are_not_given_again(drawings: Seq<DrawingModel>)
    ensures
        forall|i: int|
            0 <= i < drawings.len() ==> (#[trigger] drawings[i]).id <= state::largest_id(drawings),
        drawings.len() == 0 ==> state::largest_id(drawings) == 0,
    decreases drawings.len(),
{
    if drawings.len() > 0 {
        let front = drawings.drop_last();
        saved_ids_are_not_given_again(front);
        assert forall|i: int| 0 <= i < drawings.len() implies (#[trigger] drawings[i]).id
            <= state::largest_id(drawings) by {
            if i < front.len() {
                assert(front[i] == drawings[i]);
            }
        }
    }
}

/// A visible profile is drawn from its earlier candle to the end of its later one; hidden ones
/// and other shapes are not.
pub proof fn profiles_are_drawn_over_their_candles(
    drawing: DrawingModel,
    timeframe_ms: u64,
    fallback: FixedRangeVolumeProfileConfig,
)
    ensures
        !drawing.visible || !(drawing.geometry is FixedRangeVolumeProfile)
            ==> state::shown_profile(drawing, timeframe_ms, fallback) is None,
        drawing.geometry matches GeometryModel::FixedRangeVolumeProfile(first, second)
            ==> drawing.visible && first.ms + timeframe_ms <= 0xffff_ffff_ffff_ffff && second.ms
            + timeframe_ms <= 0xffff_ffff_ffff_ffff ==> (state::shown_profile(
            drawing,
            timeframe_ms,
            fallback,
        ) matches Some(profile) && {
            &&& profile.0.ms <= first.ms && profile.0.ms <= second.ms
            &&& profile.0 == first || profile.0 == second
            &&& profile.1.ms >= first.ms + timeframe_ms && profile.1.ms >= second.ms
                + timeframe_ms
            &&& profile.1.ms - timeframe_ms == first.ms || profile.1.ms - timeframe_ms == second.ms
        }),
{
}

} // verus!
