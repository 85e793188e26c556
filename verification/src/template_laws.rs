//! What templates and texts promise, stated on characters, bits and places.
use vstd::prelude::*;
use crate::layout;
use crate::layout::{Axis, Pane, TemplateError, WindowSpec};
use crate::text;
use crate::unit_laws;
use crate::units::{Bits32, Bits64};

verus! {

/// The digits of a number stand for it: read as decimal digits they give it back, and none but
/// zero begins with a zero.
pub proof fn decimal_digits_give_the_number(n: nat)
    ensures
        text::decimal(n).len() > 0,
        text::all_digits(text::decimal(n)),
        text::digits_value(text::decimal(n)) == n,
        n > 0 ==> text::decimal(n)[0] != '0',
    decreases n,
{
    reveal_with_fuel(text::digits_value, 2);
    if n >= 10 {
        decimal_digits_give_the_number(n / 10);
        let head = text::decimal(n / 10);
        assert(text::decimal(n).drop_last() =~= head);
        assert(text::decimal(n)[0] == head[0]);
        assert forall|i: int| 0 <= i < text::decimal(n).len() implies text::is_digit(
            #[trigger] text::decimal(n)[i],
        ) by {
            if i < head.len() {
                assert(text::is_digit(head[i]));
            }
        }
    } else {
        assert(text::decimal(n).drop_last() =~= Seq::<char>::empty());
    }
}

/// A digit is as far from `0` as its value says, a hexadecimal one above nine as far from `a`.
pub proof fn digits_stand_for_their_value(d: int)
    requires
        0 <= d < 16,
    ensures
        d < 10 ==> text::digit_char(d) as int == 48 + d,
        d < 10 ==> text::hex_char(d) as int == 48 + d,
        d >= 10 ==> text::hex_char(d) as int == 97 + d - 10,
{
}

/// A number is read from its digits, with or without a plus sign; nothing is read from an empty
/// text or from one with any other character.
pub proof fn numbers_are_read_from_their_digits(n: u64, other: Seq<char>, i: int)
    ensures
        text::parsed_u64(text::decimal(n as nat)) == Some(n),
        text::parsed_u64(seq!['+'] + text::decimal(n as nat)) == Some(n),
        text::parsed_u64(Seq::<char>::empty()) is None,
        0 <= i < other.len() && !('0' <= other[i] <= '9') && !(i == 0 && other[0] == '+')
            ==> text::parsed_u64(other) is None,
{
    let digits = text::decimal(n as nat);
    decimal_digits_give_the_number(n as nat);
    assert(text::is_digit(digits[0]));
    let signed = seq!['+'] + digits;
    assert(signed.skip(1) =~= digits);
    if 0 <= i < other.len() && !('0' <= other[i] <= '9') && !(i == 0 && other[0] == '+') {
        let rest = text::unsigned_part(other);
        if other[0] == '+' {
            assert(rest[i - 1] == other[i]);
        } else {
            assert(rest[i] == other[i]);
        }
    }
}

/// What is behind the last mark holds no mark, and the mark stands right before it; a text
/// without the mark is taken whole.
pub proof fn the_last_mark_is_found(chars: Seq<char>, mark: char)
    ensures
        0 <= text::after_last(chars, mark) <= chars.len(),
        forall|i: int|
            text::after_last(chars, mark) <= i < chars.len() ==> #[trigger] chars[i] != mark,
        text::after_last(chars, mark) > 0 ==> chars[text::after_last(chars, mark) - 1] == mark,
    decreases chars.len(),
{
    if chars.len() > 0 && chars.last() != mark {
        let front = chars.drop_last();
        the_last_mark_is_found(front, mark);
        assert forall|i: int| text::after_last(chars, mark) <= i < chars.len() implies
            #[trigger] chars[i] != mark by {
            if i < front.len() {
                assert(front[i] == chars[i]);
            }
        }
    }
}

/// The first character that differs decides which of two texts comes first; a text comes before
/// every longer one that begins with it.
pub proof fn the_first_difference_orders_texts(a: Seq<char>, b: Seq<char>, k: int)
    requires
        0 <= k <= a.len(),
        k <= b.len(),
        forall|i: int| 0 <= i < k ==> #[trigger] a[i] == b[i],
    ensures
        k < a.len() && k < b.len() && a[k] != b[k] ==> (text::lex_lt(a, b) <==> a[k] < b[k]),
        k == a.len() && k < b.len() ==> text::lex_lt(a, b) && !text::lex_lt(b, a),
        k == a.len() && k == b.len() ==> !text::lex_lt(a, b),
    decreases k,
{
    if k > 0 {
        assert(a[0] == b[0]);
        assert forall|i: int| 0 <= i < k - 1 implies #[trigger] a.skip(1)[i] == b.skip(1)[i] by {
            assert(a[i + 1] == b[i + 1]);
        }
        the_first_difference_orders_texts(a.skip(1), b.skip(1), k - 1);
    }
}

/// The first layout with the saved name is the active one.
pub proof fn the_first_layout_of_a_name_is_active(names: Seq<String>, target: Seq<char>)
    ensures
        0 <= layout::first_named(names, target) <= names.len(),
        layout::first_named(names, target) < names.len() ==> names[layout::first_named(
            names,
            target,
        )]@ == target,
        forall|i: int|
            0 <= i < layout::first_named(names, target) ==> (#[trigger] names[i])@ != target,
    decreases names.len(),
{
    if names.len() > 0 && names[0]@ != target {
        let rest = names.skip(1);
        the_first_layout_of_a_name_is_active(rest, target);
        let at = layout::first_named(rest, target);
        assert forall|i: int| 0 <= i < 1 + at implies (#[trigger] names[i])@ != target by {
            if i > 0 {
                assert(rest[i - 1] == names[i]);
            }
        }
        if at < rest.len() {
            assert(rest[at] == names[1 + at]);
        }
    }
}

/// A split leaves each part at least a twentieth, 0.05 to 0.95 by their bits.
pub proof fn splits_leave_room_for_both_parts(ratio: Bits32)
    ensures
        layout::valid_ratio(ratio) <==> 0x3d4c_cccd <= ratio.bits <= 0x3f73_3333,
{
    unit_laws::finite_figures_lie_below_infinity(Bits64 { bits: 0 }, ratio);
    unit_laws::single_figures_compare_as_numbers(ratio, Bits32 { bits: 0x3d4c_cccd });
    unit_laws::single_figures_compare_as_numbers(Bits32 { bits: 0x3d4c_cccd }, ratio);
    unit_laws::single_figures_compare_as_numbers(ratio, Bits32 { bits: 0x3f73_3333 });
    if ratio.bits == 0x8000_0000 {
        unit_laws::single_figures_compare_as_numbers(
            Bits32 { bits: 0 },
            Bits32 { bits: 0x3d4c_cccd },
        );
    }
}

/// A window has a width and a height above zero, and stands at a place that is a number.
pub proof fn windows_have_a_size_and_a_place(window: WindowSpec)
    ensures
        layout::valid_window(window) <==> {
            &&& 0 < window.width.bits < 0x7f80_0000
            &&& 0 < window.height.bits < 0x7f80_0000
            &&& window.pos_x.bits < 0x7f80_0000 || 0x8000_0000 <= window.pos_x.bits < 0xff80_0000
            &&& window.pos_y.bits < 0x7f80_0000 || 0x8000_0000 <= window.pos_y.bits < 0xff80_0000
        },
{
    let any = Bits64 { bits: 0 };
    unit_laws::finite_figures_lie_below_infinity(any, window.width);
    unit_laws::finite_figures_lie_below_infinity(any, window.height);
    unit_laws::finite_figures_lie_below_infinity(any, window.pos_x);
    unit_laws::finite_figures_lie_below_infinity(any, window.pos_y);
}

/// A single pane is taken in; a split of two trees has one pane more than both together, and is
/// taken in where both are and there is room for it.
pub proof fn splits_add_a_pane(axis: Axis, ratio: Bits32, a: Pane, b: Pane, slot: usize)
    ensures
        layout::looked_through(Pane::Content { slot }, 0, 0) == Ok::<nat, TemplateError>(1),
        ({
            let both = Pane::Split { axis, ratio, a: Box::new(a), b: Box::new(b) };
            &&& layout::looked_through(both, 0, 0) is Ok ==> {
                &&& layout::looked_through(a, 1, 0) is Ok
                &&& layout::looked_through(b, 1, 0) is Ok
                &&& layout::looked_through(both, 0, 0)->Ok_0 == 1 + layout::looked_through(
                    a,
                    1,
                    0,
                )->Ok_0 + layout::looked_through(b, 1, 0)->Ok_0
            }
            &&& layout::looked_through(a, 1, 0) is Ok && layout::looked_through(b, 1, 0) is Ok
                && 0x3d4c_cccd <= ratio.bits <= 0x3f73_3333 && 1 + layout::looked_through(
                a,
                1,
                0,
            )->Ok_0 + layout::looked_through(b, 1, 0)->Ok_0 <= 128 ==> layout::looked_through(
                both,
                0,
                0,
            ) is Ok
        }),
{
    let both = Pane::Split { axis, ratio, a: Box::new(a), b: Box::new(b) };
    splits_leave_room_for_both_parts(ratio);
    layout::accepted_trees_are_small(a, 1, 0);
    layout::accepted_trees_are_small(b, 1, 0);
    layout::accepted_trees_are_small(both, 0, 0);
}

/// A layout is taken in exactly where its name is not blank, each of its trees is, each window
/// has a size and a place, and all trees together have no more than 128 panes.
pub proof fn layouts_are_taken_in_whole(
    name: Seq<char>,
    pane: Pane,
    popout: Seq<(Pane, WindowSpec)>,
)
    ensures
        layout::layout_verdict(name, pane, popout) is Ok <==> {
            &&& !text::blank(name)
            &&& layout::looked_through(pane, 0, 0) is Ok
            &&& forall|i: int| 0 <= i < popout.len() ==> is_sound_window(#[trigger] popout[i])
            &&& layout::pane_count(pane) + layout::popout_count(popout) <= 128
        },
        text::blank(name) ==> layout::layout_verdict(name, pane, popout) == Err::<
            (),
            TemplateError,
        >(TemplateError::EmptyName),
{
    layout::accepted_trees_are_small(pane, 0, 0);
    if layout::layout_verdict(name, pane, popout) is Ok {
        layout::accepted_layouts_are_small(name, pane, popout);
        assert forall|i: int| 0 <= i < popout.len() implies is_sound_window(
            #[trigger] popout[i],
        ) by {
            lemma_popout(popout, layout::pane_count(pane), i);
        }
    }
    if layout::looked_through(pane, 0, 0) is Ok && layout::pane_count(pane) + layout::popout_count(
        popout,
    ) <= 128 && forall|i: int|
        0 <= i < popout.len() ==> is_sound_window(#[trigger] popout[i]) {
        lemma_popouts(popout, layout::pane_count(pane));
    }
}

/// Whether a window has a size and a place, and its tree can be taken in by itself.
pub open spec fn is_sound_window(window: (Pane, WindowSpec)) -> bool {
    layout::valid_window(window.1) && layout::looked_through(window.0, 0, 0) is Ok
}

proof fn lemma_popout(popout: Seq<(Pane, WindowSpec)>, panes: nat, i: int)
    requires
        layout::popouts_looked_through(popout, panes) is Ok,
        0 <= i < popout.len(),
    ensures
        is_sound_window(popout[i]),
    decreases popout.len(),
{
    let front = popout.drop_last();
    if i < front.len() {
        lemma_popout(front, panes, i);
        assert(front[i] == popout[i]);
    } else {
        let count = layout::popouts_looked_through(front, panes)->Ok_0;
        layout::accepted_trees_are_small(popout.last().0, 0, count);
        layout::accepted_trees_are_small(popout.last().0, 0, 0);
    }
}

proof fn lemma_popouts(popout: Seq<(Pane, WindowSpec)>, panes: nat)
    requires
        panes + layout::popout_count(popout) <= 128,
        forall|i: int| 0 <= i < popout.len() ==> is_sound_window(#[trigger] popout[i]),
    ensures
        layout::popouts_looked_through(popout, panes) == Ok::<nat, TemplateError>(
            panes + layout::popout_count(popout),
        ),
    decreases popout.len(),
{
    if popout.len() > 0 {
        let front = popout.drop_last();
        assert forall|i: int| 0 <= i < front.len() implies is_sound_window(
            #[trigger] front[i],
        ) by {
            assert(is_sound_window(popout[i]));
        }
        lemma_popouts(front, panes);
        assert(is_sound_window(popout[popout.len() - 1]));
        layout::accepted_trees_are_small(popout.last().0, 0, 0);
        layout::accepted_trees_are_small(
            popout.last().0,
            0,
            panes + layout::popout_count(front),
        );
    }
}

} // verus!
