//! Plain-value units shared by every module: timestamps, prices, quantities,
//! timeframes, and the bit patterns of floating-point figures that are stored and
//! compared but never computed with.
use vstd::prelude::*;

verus! {

/// Milliseconds since the Unix epoch.
#[derive(Clone, Copy, Debug, PartialEq, Eq, Structural)]
pub struct UnixMs {
    pub ms: u64,
}

pub open spec fn sat_add(a: u64, b: u64) -> u64 {
    if a + b > u64::MAX {
        u64::MAX
    } else {
        (a + b) as u64
    }
}

pub open spec fn sat_sub(a: u64, b: u64) -> u64 {
    if a < b {
        0
    } else {
        (a - b) as u64
    }
}

pub open spec fn min_u64(a: u64, b: u64) -> u64 {
    if a <= b {
        a
    } else {
        b
    }
}

pub open spec fn max_u64(a: u64, b: u64) -> u64 {
    if a >= b {
        a
    } else {
        b
    }
}

/// `a + b`, or the largest value where the sum does not fit.
pub fn saturating_add_u64(a: u64, b: u64) -> (r: u64)
    ensures
        r == sat_add(a, b),
{
    a.saturating_add(b)
}

/// `a - b`, or zero where `b` is larger.
pub fn saturating_sub_u64(a: u64, b: u64) -> (r: u64)
    ensures
        r == sat_sub(a, b),
{
    a.saturating_sub(b)
}

pub fn smaller(a: u64, b: u64) -> (r: u64)
    ensures
        r == min_u64(a, b),
{
    if a <= b {
        a
    } else {
        b
    }
}

pub fn larger(a: u64, b: u64) -> (r: u64)
    ensures
        r == max_u64(a, b),
{
    if a >= b {
        a
    } else {
        b
    }
}

impl UnixMs {
    pub fn new(ms: u64) -> (r: Self)
        ensures
            r.ms == ms,
    {
        UnixMs { ms }
    }

    pub fn as_u64(self) -> (r: u64)
        ensures
            r == self.ms,
    {
        self.ms
    }

    pub fn saturating_add(self, ms: u64) -> (r: Self)
        ensures
            r.ms == sat_add(self.ms, ms),
    {
        UnixMs { ms: saturating_add_u64(self.ms, ms) }
    }

    pub fn saturating_sub(self, ms: u64) -> (r: Self)
        ensures
            r.ms == sat_sub(self.ms, ms),
    {
        UnixMs { ms: saturating_sub_u64(self.ms, ms) }
    }

    pub fn saturating_diff(self, earlier: Self) -> (r: u64)
        ensures
            r == sat_sub(self.ms, earlier.ms),
    {
        saturating_sub_u64(self.ms, earlier.ms)
    }
}

/// A price in fixed-point units: one unit is `10^-11`.
#[derive(Clone, Copy, Debug, PartialEq, Eq, Structural)]
pub struct Price {
    pub units: i64,
}

impl Price {
    pub fn from_units(units: i64) -> (r: Self)
        ensures
            r.units == units,
    {
        Price { units }
    }
}

/// The smallest price move of a chart, in price units.
#[derive(Clone, Copy, Debug, PartialEq, Eq, Structural)]
pub struct PriceStep {
    pub units: i64,
}

/// A traded quantity in fixed-point units; differences of quantities are negative
/// where selling dominates.
#[derive(Clone, Copy, Debug, PartialEq, Eq, Structural)]
pub struct Qty {
    pub units: i64,
}

/// A number kept within the range of quantities.
pub open spec fn within_i64(value: int) -> i64 {
    if value < i64::MIN {
        i64::MIN
    } else if value > i64::MAX {
        i64::MAX
    } else {
        value as i64
    }
}

fn keep_within_i64(value: i128) -> (r: i64)
    ensures
        r == within_i64(value as int),
{
    if value < i64::MIN as i128 {
        i64::MIN
    } else if value > i64::MAX as i128 {
        i64::MAX
    } else {
        value as i64
    }
}

impl Qty {
    pub fn from_units(units: i64) -> (r: Self)
        ensures
            r.units == units,
    {
        Qty { units }
    }

    pub open spec fn plus(self, other: Qty) -> Qty {
        Qty { units: within_i64(self.units + other.units) }
    }

    pub open spec fn minus(self, other: Qty) -> Qty {
        Qty { units: within_i64(self.units - other.units) }
    }

    pub open spec fn larger_of(self, other: Qty) -> Qty {
        if self.units >= other.units {
            self
        } else {
            other
        }
    }

    pub open spec fn smaller_of(self, other: Qty) -> Qty {
        if self.units <= other.units {
            self
        } else {
            other
        }
    }

    pub fn saturating_add(self, other: Qty) -> (r: Qty)
        ensures
            r == self.plus(other),
    {
        Qty { units: keep_within_i64(self.units as i128 + other.units as i128) }
    }

    pub fn saturating_sub(self, other: Qty) -> (r: Qty)
        ensures
            r == self.minus(other),
    {
        Qty { units: keep_within_i64(self.units as i128 - other.units as i128) }
    }

    pub fn max_with(self, other: Qty) -> (r: Qty)
        ensures
            r == self.larger_of(other),
    {
        if self.units >= other.units {
            self
        } else {
            other
        }
    }

    pub fn min_with(self, other: Qty) -> (r: Qty)
        ensures
            r == self.smaller_of(other),
    {
        if self.units <= other.units {
            self
        } else {
            other
        }
    }
}

/// The traded volume of a candle, with or without its split by aggressor side.
#[derive(Clone, Copy, Debug, PartialEq, Eq, Structural)]
pub enum Volume {
    TotalOnly(Qty),
    BuySell(Qty, Qty),
}

/// Candle intervals offered by the exchanges.
#[derive(Clone, Copy, Debug, PartialEq, Eq, Structural)]
pub enum Timeframe {
    MS100,
    MS200,
    MS300,
    MS500,
    MS1000,
    M1,
    M3,
    M5,
    M15,
    M30,
    H1,
    H2,
    H4,
    H12,
    D1,
}

impl Timeframe {
    pub open spec fn ms(self) -> u64 {
        match self {
            Timeframe::MS100 => 100,
            Timeframe::MS200 => 200,
            Timeframe::MS300 => 300,
            Timeframe::MS500 => 500,
            Timeframe::MS1000 => 1_000,
            Timeframe::M1 => 60_000,
            Timeframe::M3 => 180_000,
            Timeframe::M5 => 300_000,
            Timeframe::M15 => 900_000,
            Timeframe::M30 => 1_800_000,
            Timeframe::H1 => 3_600_000,
            Timeframe::H2 => 7_200_000,
            Timeframe::H4 => 14_400_000,
            Timeframe::H12 => 43_200_000,
            Timeframe::D1 => 86_400_000,
        }
    }

    pub fn to_milliseconds(self) -> (r: u64)
        ensures
            r == self.ms(),
            r > 0,
    {
        match self {
            Timeframe::MS100 => 100,
            Timeframe::MS200 => 200,
            Timeframe::MS300 => 300,
            Timeframe::MS500 => 500,
            Timeframe::MS1000 => 1_000,
            Timeframe::M1 => 60_000,
            Timeframe::M3 => 180_000,
            Timeframe::M5 => 300_000,
            Timeframe::M15 => 900_000,
            Timeframe::M30 => 1_800_000,
            Timeframe::H1 => 3_600_000,
            Timeframe::H2 => 7_200_000,
            Timeframe::H4 => 14_400_000,
            Timeframe::H12 => 43_200_000,
            Timeframe::D1 => 86_400_000,
        }
    }
}

/// The bit pattern of a double-precision figure (IEEE 754 binary64).
#[derive(Clone, Copy, Debug, PartialEq, Eq, Structural)]
pub struct Bits64 {
    pub bits: u64,
}

impl Bits64 {
    /// Neither infinite nor NaN: the eleven exponent bits are not all set.
    pub open spec fn finite(self) -> bool {
        (self.bits & 0x7ff0_0000_0000_0000) != 0x7ff0_0000_0000_0000
    }

    /// Zero of either sign, or a pattern without the sign bit.
    pub open spec fn not_below_zero(self) -> bool {
        self.bits <= 0x8000_0000_0000_0000
    }

    pub fn is_finite(self) -> (r: bool)
        ensures
            r == self.finite(),
    {
        (self.bits & 0x7ff0_0000_0000_0000) != 0x7ff0_0000_0000_0000
    }

    /// Whether a finite figure is at least zero.
    pub fn is_not_below_zero(self) -> (r: bool)
        ensures
            r == self.not_below_zero(),
    {
        self.bits <= 0x8000_0000_0000_0000
    }

    /// Whether the figure is finite and strictly positive.
    pub open spec fn positive(self) -> bool {
        self.finite() && 0 < self.bits < 0x8000_0000_0000_0000
    }

    pub fn is_positive(self) -> (r: bool)
        ensures
            r == self.positive(),
    {
        self.is_finite() && 0 < self.bits && self.bits < 0x8000_0000_0000_0000
    }

    /// The pattern without its sign bit.
    pub open spec fn magnitude(self) -> u64 {
        if self.bits < 0x8000_0000_0000_0000 {
            self.bits
        } else {
            (self.bits - 0x8000_0000_0000_0000) as u64
        }
    }

    /// A number: zero, finite or infinite.
    pub open spec fn is_number(self) -> bool {
        self.magnitude() <= 0x7ff0_0000_0000_0000
    }

    /// The place of a number among all numbers; both zeros have the same.
    pub open spec fn place(self) -> int {
        if self.bits < 0x8000_0000_0000_0000 {
            self.magnitude() as int
        } else {
            -(self.magnitude() as int)
        }
    }

    /// The comparison `<=` of two figures, which never holds of something that is not a
    /// number.
    pub open spec fn at_most(self, other: Bits64) -> bool {
        self.is_number() && other.is_number() && self.place() <= other.place()
    }

    fn signed_place(self) -> (r: Option<i64>)
        ensures
            r is Some <==> self.is_number(),
            r is Some ==> r->0 == self.place(),
    {
        let negative: bool = self.bits >= 0x8000_0000_0000_0000;
        let magnitude: u64 = if negative {
            self.bits - 0x8000_0000_0000_0000
        } else {
            self.bits
        };
        if magnitude > 0x7ff0_0000_0000_0000 {
            None
        } else if negative {
            Some(-(magnitude as i64))
        } else {
            Some(magnitude as i64)
        }
    }

    pub fn is_at_most(self, other: Bits64) -> (r: bool)
        ensures
            r == self.at_most(other),
    {
        match (self.signed_place(), other.signed_place()) {
            (Some(a), Some(b)) => a <= b,
            _ => false,
        }
    }

    /// The comparison `>` of two figures, which never holds of something that is not a number.
    pub open spec fn above(self, other: Bits64) -> bool {
        self.is_number() && other.is_number() && self.place() > other.place()
    }

    pub fn is_above(self, other: Bits64) -> (r: bool)
        ensures
            r == self.above(other),
    {
        match (self.signed_place(), other.signed_place()) {
            (Some(a), Some(b)) => a > b,
            _ => false,
        }
    }

    /// The position of the figure in the total order of all bit patterns:
    /// patterns with the sign bit come first, larger magnitudes earlier.
    pub open spec fn rank(self) -> u64 {
        if self.bits < 0x8000_0000_0000_0000 {
            (0x8000_0000_0000_0000 + self.bits) as u64
        } else {
            (0xffff_ffff_ffff_ffff - self.bits) as u64
        }
    }

    pub fn total_rank(self) -> (r: u64)
        ensures
            r == self.rank(),
    {
        if self.bits < 0x8000_0000_0000_0000 {
            0x8000_0000_0000_0000 + self.bits
        } else {
            0xffff_ffff_ffff_ffff - self.bits
        }
    }
}

/// The bit pattern of a single-precision figure (IEEE 754 binary32).
#[derive(Clone, Copy, Debug, PartialEq, Eq, Structural)]
pub struct Bits32 {
    pub bits: u32,
}

impl Bits32 {
    /// Neither infinite nor NaN: the eight exponent bits are not all set.
    pub open spec fn finite(self) -> bool {
        (self.bits & 0x7f80_0000) != 0x7f80_0000
    }

    pub fn is_finite(self) -> (r: bool)
        ensures
            r == self.finite(),
    {
        (self.bits & 0x7f80_0000) != 0x7f80_0000
    }

    /// The position of the figure in the total order of all bit patterns:
    /// patterns with the sign bit come first, larger magnitudes earlier.
    pub open spec fn rank(self) -> int {
        if self.bits < 0x8000_0000 {
            0x8000_0000 + self.bits
        } else {
            0xffff_ffff - self.bits
        }
    }

    pub fn total_rank(self) -> (r: u64)
        ensures
            r == self.rank(),
            r <= 0xffff_ffff,
    {
        if self.bits < 0x8000_0000 {
            0x8000_0000u64 + self.bits as u64
        } else {
            0xffff_ffffu64 - self.bits as u64
        }
    }

    /// The pattern without its sign bit.
    pub open spec fn magnitude(self) -> int {
        if self.bits < 0x8000_0000 {
            self.bits as int
        } else {
            self.bits - 0x8000_0000
        }
    }

    /// A number: zero, finite or infinite.
    pub open spec fn is_number(self) -> bool {
        self.magnitude() <= 0x7f80_0000
    }

    /// The place of a number among all numbers; both zeros have the same.
    pub open spec fn place(self) -> int {
        if self.bits < 0x8000_0000 {
            self.magnitude()
        } else {
            -self.magnitude()
        }
    }

    /// The place of the figure, where it is a number.
    pub fn number_place(self) -> (r: Option<i64>)
        ensures
            r is Some <==> self.is_number(),
            r is Some ==> r->0 == self.place(),
    {
        let negative: bool = self.bits >= 0x8000_0000;
        let magnitude: i64 = if negative {
            self.bits as i64 - 0x8000_0000
        } else {
            self.bits as i64
        };
        if magnitude > 0x7f80_0000 {
            None
        } else if negative {
            Some(-magnitude)
        } else {
            Some(magnitude)
        }
    }
}

} // verus!
