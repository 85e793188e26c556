//! What the units promise, stated on their plain values.
use vstd::prelude::*;
use crate::units;
use crate::units::{Bits32, Bits64, Qty, Timeframe};

verus! {

/// Figures at least zero are ordered as their patterns, figures below zero the other way
/// round, and every figure below zero comes before every other. Both zeros are equal.
pub proof fn figures_compare_as_numbers(a: Bits64, b: Bits64)
    ensures
        a.bits <= 0x7ff0_0000_0000_0000 && b.bits <= 0x7ff0_0000_0000_0000 ==> {
            &&& a.at_most(b) <==> a.bits <= b.bits
            &&& a.above(b) <==> a.bits > b.bits
            &&& a.rank() <= b.rank() <==> a.bits <= b.bits
        },
        0x8000_0000_0000_0000 <= a.bits <= 0xfff0_0000_0000_0000 && 0x8000_0000_0000_0000 <= b.bits
            <= 0xfff0_0000_0000_0000 ==> {
            &&& a.at_most(b) <==> a.bits >= b.bits
            &&& a.above(b) <==> a.bits < b.bits
            &&& a.rank() <= b.rank() <==> a.bits >= b.bits
        },
        0x8000_0000_0000_0000 < a.bits <= 0xfff0_0000_0000_0000 && b.bits <= 0x7ff0_0000_0000_0000
            ==> a.at_most(b) && b.above(a) && !a.above(b) && !b.at_most(a) && a.rank() < b.rank(),
        a.bits == 0x8000_0000_0000_0000 && b.bits == 0 ==> a.at_most(b) && b.at_most(a) && !a.above(
            b,
        ) && !b.above(a),
{
}

/// What is not a number compares with nothing.
pub proof fn nothing_compares_with_what_is_no_number(a: Bits64, b: Bits64)
    requires
        0x7ff0_0000_0000_0000 < a.bits < 0x8000_0000_0000_0000 || a.bits > 0xfff0_0000_0000_0000,
    ensures
        !a.at_most(b),
        !b.at_most(a),
        !a.above(b),
        !b.above(a),
        !a.finite(),
{
    let bits = a.bits;
    assert(0x7ff0_0000_0000_0000 < bits < 0x8000_0000_0000_0000 || bits > 0xfff0_0000_0000_0000
        ==> bits & 0x7ff0_0000_0000_0000 == 0x7ff0_0000_0000_0000) by (bit_vector);
}

/// A figure is finite where its pattern, sign aside, is below that of infinity.
pub proof fn finite_figures_lie_below_infinity(a: Bits64, b: Bits32)
    ensures
        a.finite() <==> (a.bits < 0x7ff0_0000_0000_0000 || 0x8000_0000_0000_0000 <= a.bits
            < 0xfff0_0000_0000_0000),
        a.positive() <==> 0 < a.bits < 0x7ff0_0000_0000_0000,
        a.finite() && a.not_below_zero() <==> (a.bits < 0x7ff0_0000_0000_0000 || a.bits
            == 0x8000_0000_0000_0000),
        b.finite() <==> (b.bits < 0x7f80_0000 || 0x8000_0000 <= b.bits < 0xff80_0000),
{
    let x = a.bits;
    let y = b.bits;
    assert((x & 0x7ff0_0000_0000_0000 != 0x7ff0_0000_0000_0000) <==> (x < 0x7ff0_0000_0000_0000
        || (0x8000_0000_0000_0000 <= x && x < 0xfff0_0000_0000_0000))) by (bit_vector);
    assert((y & 0x7f80_0000 != 0x7f80_0000) <==> (y < 0x7f80_0000 || (0x8000_0000 <= y && y
        < 0xff80_0000))) by (bit_vector);
}

/// The same of figures of single precision.
pub proof fn single_figures_compare_as_numbers(a: Bits32, b: Bits32)
    ensures
        a.bits <= 0x7f80_0000 && b.bits <= 0x7f80_0000 ==> {
            &&& a.is_number() && b.is_number()
            &&& a.place() <= b.place() <==> a.bits <= b.bits
            &&& a.rank() <= b.rank() <==> a.bits <= b.bits
        },
        0x8000_0000 <= a.bits <= 0xff80_0000 && 0x8000_0000 <= b.bits <= 0xff80_0000 ==> {
            &&& a.is_number() && b.is_number()
            &&& a.place() <= b.place() <==> a.bits >= b.bits
            &&& a.rank() <= b.rank() <==> a.bits >= b.bits
        },
        0x8000_0000 < a.bits <= 0xff80_0000 && b.bits <= 0x7f80_0000 ==> a.place() < b.place()
            && a.rank() < b.rank(),
        a.bits == 0x8000_0000 && b.bits == 0 ==> a.place() == b.place(),
        0x7f80_0000 < a.bits < 0x8000_0000 || a.bits > 0xff80_0000 ==> !a.is_number() && !a.finite(),
        a.rank() == b.rank() <==> a.bits == b.bits,
{
    finite_figures_lie_below_infinity(Bits64 { bits: 0 }, a);
}

/// Sums and differences are exact where they fit, and stop at the ends of their range.
pub proof fn arithmetic_stops_at_the_ends(a: u64, b: u64, x: Qty, y: Qty)
    ensures
        a + b <= 0xffff_ffff_ffff_ffff ==> units::sat_add(a, b) == a + b,
        a + b > 0xffff_ffff_ffff_ffff ==> units::sat_add(a, b) == 0xffff_ffff_ffff_ffff,
        a >= b ==> units::sat_sub(a, b) == a - b,
        a < b ==> units::sat_sub(a, b) == 0,
        units::min_u64(a, b) <= a && units::min_u64(a, b) <= b && (units::min_u64(a, b) == a
            || units::min_u64(a, b) == b),
        units::max_u64(a, b) >= a && units::max_u64(a, b) >= b && (units::max_u64(a, b) == a
            || units::max_u64(a, b) == b),
        -0x8000_0000_0000_0000 <= x.units + y.units <= 0x7fff_ffff_ffff_ffff ==> x.plus(y).units
            == x.units + y.units,
        x.units + y.units > 0x7fff_ffff_ffff_ffff ==> x.plus(y).units == 0x7fff_ffff_ffff_ffff,
        x.units + y.units < -0x8000_0000_0000_0000 ==> x.plus(y).units == -0x8000_0000_0000_0000,
        -0x8000_0000_0000_0000 <= x.units - y.units <= 0x7fff_ffff_ffff_ffff ==> x.minus(y).units
            == x.units - y.units,
        x.units - y.units > 0x7fff_ffff_ffff_ffff ==> x.minus(y).units == 0x7fff_ffff_ffff_ffff,
        x.units - y.units < -0x8000_0000_0000_0000 ==> x.minus(y).units == -0x8000_0000_0000_0000,
        x.larger_of(y).units >= x.units && x.larger_of(y).units >= y.units,
        x.larger_of(y) == x || x.larger_of(y) == y,
        x.smaller_of(y).units <= x.units && x.smaller_of(y).units <= y.units,
        x.smaller_of(y) == x || x.smaller_of(y) == y,
{
}

/// Each interval is the multiple of another that its name says.
pub proof fn intervals_are_what_they_are_called()
    ensures
        10 * Timeframe::MS100.ms() == Timeframe::MS1000.ms(),
        Timeframe::MS200.ms() == 2 * Timeframe::MS100.ms(),
        Timeframe::MS300.ms() == 3 * Timeframe::MS100.ms(),
        Timeframe::MS500.ms() == 5 * Timeframe::MS100.ms(),
        Timeframe::MS1000.ms() == 1_000,
        Timeframe::M1.ms() == 60 * Timeframe::MS1000.ms(),
        Timeframe::M3.ms() == 3 * Timeframe::M1.ms(),
        Timeframe::M5.ms() == 5 * Timeframe::M1.ms(),
        Timeframe::M15.ms() == 15 * Timeframe::M1.ms(),
        Timeframe::M30.ms() == 30 * Timeframe::M1.ms(),
        Timeframe::H1.ms() == 60 * Timeframe::M1.ms(),
        Timeframe::H2.ms() == 2 * Timeframe::H1.ms(),
        Timeframe::H4.ms() == 4 * Timeframe::H1.ms(),
        Timeframe::H12.ms() == 12 * Timeframe::H1.ms(),
        Timeframe::D1.ms() == 24 * Timeframe::H1.ms(),
        forall|t: Timeframe| 100 <= #[trigger] t.ms() <= 86_400_000,
{
}

} // verus!
