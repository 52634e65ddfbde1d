//! Fixed-point decimals with 18 fractional digits.
//!
//! A value is a `u128` count of atomic units, so `1.0` is `10^18` atomics.
//! Fee rates, belief prices and slippage tolerances are all such fractions;
//! multiplying an amount by a rate floors the scaled product back to an
//! integer amount.

use vstd::prelude::*;

use crate::wide_uint::{mul_div_u128, p128};

verus! {

/// Atomics of the value one: 10^18.
pub const DECIMAL_FRACTIONAL: u128 = 1_000_000_000_000_000_000;

/// Atomics of one, squared: 10^36.
pub const DECIMAL_FRACTIONAL_SQUARED: u128 = 1_000_000_000_000_000_000_000_000_000_000_000_000;

/// `x` scaled by a rate of `atomics / 10^18`, floored: the meaning of
/// "amount times decimal" everywhere in this crate.
pub open spec fn dec_mul(x: int, atomics: int) -> int {
    (x * atomics) / 1_000_000_000_000_000_000
}

/// The atomics of the fraction `n / d`, floored: the meaning of
/// "decimal from ratio".
pub open spec fn ratio_atomics(n: int, d: int) -> int {
    (n * 1_000_000_000_000_000_000) / d
}

#[derive(Clone, Copy, Debug, PartialEq, Eq, Structural)]
pub struct Decimal {
    pub atomics: u128,
}

impl Decimal {
    pub fn zero() -> (r: Decimal)
        ensures
            r.atomics == 0,
    {
        Decimal { atomics: 0 }
    }

    pub fn one() -> (r: Decimal)
        ensures
            r.atomics == DECIMAL_FRACTIONAL,
    {
        Decimal { atomics: DECIMAL_FRACTIONAL }
    }

    /// `x` per cent.
    pub fn percent(x: u64) -> (r: Decimal)
        ensures
            r.atomics == x * 10_000_000_000_000_000,
    {
        proof {
            assert((x as u128) * 10_000_000_000_000_000 < p128()) by (nonlinear_arith);
        }
        Decimal { atomics: (x as u128) * 10_000_000_000_000_000 }
    }

    /// `x` per mille.
    pub fn permille(x: u64) -> (r: Decimal)
        ensures
            r.atomics == x * 1_000_000_000_000_000,
    {
        proof {
            assert((x as u128) * 1_000_000_000_000_000 < p128()) by (nonlinear_arith);
        }
        Decimal { atomics: (x as u128) * 1_000_000_000_000_000 }
    }

    /// The fraction `n / d`, floored to 18 digits.
    pub fn from_ratio(n: u128, d: u128) -> (r: Decimal)
        requires
            d > 0,
            ratio_atomics(n as int, d as int) < p128(),
        ensures
            r.atomics == ratio_atomics(n as int, d as int),
    {
        Decimal { atomics: mul_div_u128(n, DECIMAL_FRACTIONAL, d) }
    }

    pub fn is_zero(&self) -> (r: bool)
        ensures
            r == (self.atomics == 0),
    {
        self.atomics == 0
    }

    pub fn le(&self, other: &Decimal) -> (r: bool)
        ensures
            r == (self.atomics <= other.atomics),
    {
        self.atomics <= other.atomics
    }

}

/// An amount times a rate, floored.
pub fn mul_amount(x: u128, rate: &Decimal) -> (r: u128)
    requires
        dec_mul(x as int, rate.atomics as int) < p128(),
    ensures
        r == dec_mul(x as int, rate.atomics as int),
{
    mul_div_u128(x, rate.atomics, DECIMAL_FRACTIONAL)
}

} // verus!
