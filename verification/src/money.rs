//! Fixed-point decimal money: every amount is a whole count of
//! micro-units (one millionth of a currency unit), so all arithmetic is
//! exact integer arithmetic and divisions round toward zero.

use vstd::prelude::*;

verus! {

/// Micro-units per whole currency unit.
pub const SCALE: u64 = 1_000_000;

/// Micro-units per cent, the minimal currency unit.
pub const CENT: u64 = 10_000;

/// A non-negative decimal amount, stored as a count of micro-units.
#[derive(Clone, Copy, PartialEq, Eq, Structural, Debug)]
pub struct Money {
    pub units: u64,
}

impl Money {
    /// The zero amount.
    pub fn zero() -> (r: Money)
        ensures
            r.units == 0,
    {
        Money { units: 0 }
    }

    /// An amount given directly in micro-units.
    pub fn from_units(units: u64) -> (r: Money)
        ensures
            r.units == units,
    {
        Money { units }
    }

    /// An amount of `whole` currency units.
    pub fn from_whole(whole: u64) -> (r: Money)
        requires
            whole * SCALE <= u64::MAX,
        ensures
            r.units == whole * SCALE,
    {
        Money { units: whole * SCALE }
    }

    /// True iff the amount is strictly positive.
    pub fn is_positive(&self) -> (r: bool)
        ensures
            r == (self.units > 0),
    {
        self.units > 0
    }

    /// Exact sum of two amounts.
    pub fn add(self, other: Money) -> (r: Money)
        requires
            self.units + other.units <= u64::MAX,
        ensures
            r.units == self.units + other.units,
    {
        Money { units: self.units + other.units }
    }

    /// Exact division by a positive integer, rounding down.
    pub fn div_int(self, den: u64) -> (r: Money)
        requires
            den > 0,
        ensures
            r.units == self.units as int / den as int,
    {
        Money { units: self.units / den }
    }

    /// Multiplies by the ratio `num / den`, rounding down: the one
    /// lossy operation, used to take a proportional share.
    pub fn mul_div(self, num: u64, den: u64) -> (r: Money)
        requires
            den > 0,
            self.units * num / den as int <= u64::MAX,
        ensures
            r.units == self.units * num / den as int,
    {
        proof {
            assert(self.units as int * num as int <= u64::MAX as int * u64::MAX as int)
                by (nonlinear_arith)
                requires
                    self.units <= u64::MAX,
                    num <= u64::MAX,
            ;
            assert((u64::MAX as int) * (u64::MAX as int) < (u128::MAX as int))
                by (nonlinear_arith);
        }
        let wide: u128 = (self.units as u128) * (num as u128);
        let q: u128 = wide / (den as u128);
        Money { units: q as u64 }
    }
}

} // verus!
