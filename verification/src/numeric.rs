//! Fixed-point rates with 18 fractional decimal digits.
//!
//! A `Rate` stores a non-negative rational number `atomics / RATE_DENOM`,
//! the same representation the surrounding system uses for exchange rates,
//! premium rates, fill ratios and payout rates.  All rate arithmetic here is
//! checked: an operation whose true result does not fit returns `None`
//! instead of wrapping or saturating.

use vstd::prelude::*;

verus! {

/// Number of atomic units in a rate of one: `10^18`.
pub const RATE_DENOM: u128 = 1_000_000_000_000_000_000;

/// A non-negative fixed-point number with 18 fractional decimal digits.
/// The represented value is `atomics / RATE_DENOM`.
#[derive(Clone, Copy, PartialEq, Eq, Structural, Debug)]
pub struct Rate {
    pub atomics: u128,
}

/// Relies on `cosmwasm_std::Uint128::checked_multiply_ratio`: computes
/// `floor(a * b / c)` with a 256-bit intermediate, returning `None` when the
/// divisor is zero or the quotient does not fit in `u128`.
#[verifier::external_body]
fn muldiv_floor(a: u128, b: u128, c: u128) -> (r: Option<u128>)
    ensures
        (match r {
            Some(v) => c != 0 && a * b / (c as int) <= u128::MAX && v == a * b / (c as int),
            None => c == 0 || a * b / (c as int) > u128::MAX,
        }),
{
    match cosmwasm_std::Uint128::new(a).checked_multiply_ratio(b, c) {
        Ok(v) => Some(v.u128()),
        Err(_) => None,
    }
}

impl Rate {
    /// The rate zero.
    pub fn zero() -> (r: Rate)
        ensures
            r.atomics == 0,
    {
        Rate { atomics: 0 }
    }

    /// The rate one.
    pub fn one() -> (r: Rate)
        ensures
            r.atomics == RATE_DENOM,
    {
        Rate { atomics: RATE_DENOM }
    }

    /// The rate `numerator / denominator`, rounded towards zero.
    /// Returns `None` when the denominator is zero or the result does not
    /// fit.
    pub fn from_ratio(numerator: u128, denominator: u128) -> (r: Option<Rate>)
        ensures
            r is Some <==> denominator != 0
                && numerator * RATE_DENOM / (denominator as int) <= u128::MAX,
            r is Some ==> r->0.atomics == numerator * RATE_DENOM / (denominator as int),
    {
        match muldiv_floor(numerator, RATE_DENOM, denominator) {
            Some(atomics) => Some(Rate { atomics }),
            None => None,
        }
    }

    /// The sum of two rates, or `None` on overflow.
    pub fn checked_add(self, other: Rate) -> (r: Option<Rate>)
        ensures
            r is Some <==> self.atomics + other.atomics <= u128::MAX,
            r is Some ==> r->0.atomics == self.atomics + other.atomics,
    {
        match self.atomics.checked_add(other.atomics) {
            Some(atomics) => Some(Rate { atomics }),
            None => None,
        }
    }

    /// The difference `self - other`; requires `other <= self`.
    pub fn sub(self, other: Rate) -> (r: Rate)
        requires
            other.atomics <= self.atomics,
        ensures
            r.atomics == self.atomics - other.atomics,
    {
        Rate { atomics: self.atomics - other.atomics }
    }

    /// The rate scaled by a whole number, exactly, or `None` on overflow.
    pub fn checked_scale(self, factor: u128) -> (r: Option<Rate>)
        ensures
            r is Some <==> self.atomics * factor <= u128::MAX,
            r is Some ==> r->0.atomics == self.atomics * factor,
    {
        match self.atomics.checked_mul(factor) {
            Some(atomics) => Some(Rate { atomics }),
            None => None,
        }
    }
}

/// `floor(amount * rate)` as a spec-level integer.
pub open spec fn mul_rate_spec(amount: int, rate: Rate) -> int {
    amount * rate.atomics / (RATE_DENOM as int)
}

/// The amount scaled by the rate, rounded towards zero: the product an
/// amount of tokens earns at a given per-token rate.  Returns `None` when
/// the result does not fit.
pub fn amount_mul_rate(amount: u128, rate: Rate) -> (r: Option<u128>)
    ensures
        r is Some <==> mul_rate_spec(amount as int, rate) <= u128::MAX,
        r is Some ==> r->0 == mul_rate_spec(amount as int, rate),
{
    muldiv_floor(amount, rate.atomics, RATE_DENOM)
}

} // verus!
