//! Exact decimal arithmetic on integer mantissas.
//!
//! Every money amount, price and rate in the library is a [`Fixed`]: an
//! integer count of billionths of a currency unit. Arithmetic is ordinary
//! integer arithmetic on mantissas, with products and quotients rescaled by
//! [`SCALE`]; quotients round toward negative infinity on the non-negative
//! operands the library uses.

use vstd::prelude::*;

verus! {

/// Mantissa steps per currency unit: a `Fixed` stores billionths.
pub const SCALE: i128 = 1_000_000_000;

/// Largest money mantissa the engine stores (one billion currency units).
pub const MAX_UNITS: i128 = 1_000_000_000_000_000_000;

/// Smallest bar price the engine accepts (one thousandth of a unit).
pub const MIN_PRICE: i128 = 1_000_000;

/// Largest bar price the engine accepts (one hundred thousand units).
pub const MAX_PRICE: i128 = 100_000_000_000_000;

/// Largest share count a position can hold.
pub const MAX_QTY: i128 = 1_000_000_000_000;

/// Largest number of bars in one series.
pub const MAX_BARS: usize = 100_000_000;

/// An exact decimal number with nine fractional digits: the value is
/// `mantissa / SCALE`.
#[derive(Clone, Copy, Debug, PartialEq, Eq, Structural, Hash)]
pub struct Fixed {
    pub mantissa: i128,
}

/// Floor division of a non-negative mantissa by a positive one.
pub fn div_floor(a: i128, b: i128) -> (r: i128)
    requires
        0 <= a,
        0 < b,
    ensures
        r == a as int / b as int,
{
    a / b
}

impl Fixed {
    /// The mantissa as a mathematical integer.
    pub open spec fn m(self) -> int {
        self.mantissa as int
    }

    /// The zero value.
    pub fn zero() -> (r: Fixed)
        ensures
            r.m() == 0,
    {
        Fixed { mantissa: 0 }
    }

    /// Builds the value `mantissa / SCALE`.
    pub fn from_mantissa(mantissa: i128) -> (r: Fixed)
        ensures
            r.mantissa == mantissa,
    {
        Fixed { mantissa }
    }

    /// Builds the value `units`, a whole number of currency units.
    pub fn from_int(units: i64) -> (r: Fixed)
        ensures
            r.m() == units * SCALE,
    {
        proof {
            assert((units as int) * (SCALE as int) <= i128::MAX && i128::MIN <= (units as int) * (
            SCALE as int)) by (nonlinear_arith)
                requires
                    i64::MIN <= units <= i64::MAX,
                    SCALE == 1_000_000_000,
            ;
        }
        Fixed { mantissa: (units as i128) * SCALE }
    }

    /// Exact sum of two values.
    pub fn add(self, other: Fixed) -> (r: Fixed)
        requires
            i128::MIN <= self.m() + other.m() <= i128::MAX,
        ensures
            r.m() == self.m() + other.m(),
    {
        Fixed { mantissa: self.mantissa + other.mantissa }
    }

    /// Exact difference of two values.
    pub fn sub(self, other: Fixed) -> (r: Fixed)
        requires
            i128::MIN <= self.m() - other.m() <= i128::MAX,
        ensures
            r.m() == self.m() - other.m(),
    {
        Fixed { mantissa: self.mantissa - other.mantissa }
    }

    /// Product of two non-negative values, rounded down to nine digits.
    pub fn mul_down(self, other: Fixed) -> (r: Fixed)
        requires
            0 <= self.m(),
            0 <= other.m(),
            self.m() * other.m() <= i128::MAX,
        ensures
            r.m() == self.m() * other.m() / (SCALE as int),
    {
        proof {
            assert(self.m() * other.m() >= 0) by (nonlinear_arith)
                requires
                    self.m() >= 0,
                    other.m() >= 0,
            ;
            assert(self.m() * other.m() / (SCALE as int) <= self.m() * other.m()) by (
            nonlinear_arith)
                requires
                    self.m() * other.m() >= 0,
                    SCALE == 1_000_000_000,
            ;
        }
        Fixed { mantissa: div_floor(self.mantissa * other.mantissa, SCALE) }
    }

    /// Quotient of a non-negative value by a positive one, rounded down
    /// to nine digits.
    pub fn div_down(self, other: Fixed) -> (r: Fixed)
        requires
            0 <= self.m(),
            0 < other.m(),
            self.m() * (SCALE as int) <= i128::MAX,
        ensures
            r.m() == self.m() * (SCALE as int) / other.m(),
    {
        proof {
            assert(self.m() * (SCALE as int) >= 0) by (nonlinear_arith)
                requires
                    self.m() >= 0,
                    SCALE == 1_000_000_000,
            ;
            assert(self.m() * (SCALE as int) / other.m() <= self.m() * (SCALE as int)) by (
            nonlinear_arith)
                requires
                    self.m() * (SCALE as int) >= 0,
                    other.m() > 0,
            ;
        }
        Fixed { mantissa: div_floor(self.mantissa * SCALE, other.mantissa) }
    }

    /// `true` when `self` is strictly below `other`.
    pub fn lt(self, other: Fixed) -> (r: bool)
        ensures
            r == (self.m() < other.m()),
    {
        self.mantissa < other.mantissa
    }

    /// `true` when `self` is at most `other`.
    pub fn le(self, other: Fixed) -> (r: bool)
        ensures
            r == (self.m() <= other.m()),
    {
        self.mantissa <= other.mantissa
    }

    /// `true` when the value is zero.
    pub fn is_zero(self) -> (r: bool)
        ensures
            r == (self.m() == 0),
    {
        self.mantissa == 0
    }
}

} // verus!
