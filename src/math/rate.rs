//! `Rate`: an unsigned 128-bit fixed-point number with 18 fractional digits,
//! for interest rates, ratios and percentages.
use crate::error::LendingError;
use crate::math::decimal::{wad, Decimal, PERCENT_SCALER, WAD};
use vstd::prelude::*;

verus! {

/// `a + b`, where it fits in a `u128`.
pub open spec fn rate_add(a: nat, b: nat) -> Option<nat> {
    if a + b <= u128::MAX {
        Some(a + b)
    } else {
        None
    }
}

/// `a - b`, where `a >= b`.
pub open spec fn rate_sub(a: nat, b: nat) -> Option<nat> {
    if a >= b {
        Some((a - b) as nat)
    } else {
        None
    }
}

/// Fixed-point product of scaled values: the raw product must fit in a `u128`.
pub open spec fn rate_mul(a: nat, b: nat) -> Option<nat> {
    if a * b <= u128::MAX {
        Some(a * b / wad())
    } else {
        None
    }
}

/// Fixed-point quotient of scaled values: `a * 10^18` must fit in a `u128`.
pub open spec fn rate_div(a: nat, b: nat) -> Option<nat> {
    if b > 0 && wad() * a <= u128::MAX {
        Some(wad() * a / b)
    } else {
        None
    }
}

/// Binary exponentiation from the state (`base`, `acc`, `exp`): square the
/// base while halving the exponent, and multiply the accumulator by the
/// squared base whenever the halved exponent is odd.
pub open spec fn pow_steps(base: nat, acc: nat, exp: nat) -> Option<nat>
    decreases exp,
{
    if exp == 0 {
        Some(acc)
    } else {
        let half = exp / 2;
        match rate_mul(base, base) {
            None => None,
            Some(sq) => if half % 2 != 0 {
                match rate_mul(acc, sq) {
                    None => None,
                    Some(next) => pow_steps(sq, next, half),
                }
            } else {
                pow_steps(sq, acc, half)
            },
        }
    }
}

/// `base` to the power `exp`, by binary exponentiation with a checked,
/// rounded-down product at each step.
pub open spec fn rate_pow(base: nat, exp: nat) -> Option<nat> {
    pow_steps(base, if exp % 2 != 0 { base } else { wad() }, exp)
}

/// Relates the result of a checked operation to its value in `int`s.
pub open spec fn rate_result(r: Result<Rate, LendingError>, v: Option<nat>) -> bool {
    match r {
        Ok(x) => v == Some(x@),
        Err(e) => v is None && e == LendingError::MathOverflow,
    }
}

/// A fixed-point number scaled by 10^18.
#[derive(Clone, Copy, Debug, Default, PartialEq, Eq, Structural)]
pub struct Rate(u128);

impl View for Rate {
    type V = nat;

    /// The scaled value.
    closed spec fn view(&self) -> nat {
        self.0 as nat
    }
}

/// The product of two factors of at least one is at least the larger factor.
pub proof fn lemma_rate_mul_grows(a: nat, b: nat)
    requires
        a >= wad(),
        b >= wad(),
    ensures
        rate_mul(a, b) matches Some(c) ==> c >= b && c >= wad(),
{
    assert(a * b >= wad() * b) by (nonlinear_arith)
        requires
            a >= wad(),
    ;
    vstd::arithmetic::div_mod::lemma_div_is_ordered((wad() * b) as int, (a * b) as int, wad() as int);
    vstd::arithmetic::div_mod::lemma_div_multiples_vanish(b as int, wad() as int);
}

/// Binary exponentiation of a factor of at least one gives at least one.
pub proof fn lemma_pow_steps_grows(base: nat, acc: nat, exp: nat)
    requires
        base >= wad(),
        acc >= wad(),
    ensures
        pow_steps(base, acc, exp) matches Some(p) ==> p >= wad(),
    decreases exp,
{
    if exp > 0 {
        lemma_rate_mul_grows(base, base);
        if let Some(sq) = rate_mul(base, base) {
            lemma_rate_mul_grows(acc, sq);
            if let Some(next) = rate_mul(acc, sq) {
                lemma_pow_steps_grows(sq, next, exp / 2);
            }
            lemma_pow_steps_grows(sq, acc, exp / 2);
        }
    }
}

impl Rate {
    /// Zero.
    pub fn zero() -> (r: Rate)
        ensures
            r@ == 0,
    {
        Rate(0)
    }

    /// One.
    pub fn one() -> (r: Rate)
        ensures
            r@ == wad(),
    {
        Rate(WAD as u128)
    }

    /// The rate whose scaled value is `scaled_val`.
    pub fn from_scaled_val(scaled_val: u64) -> (r: Rate)
        ensures
            r@ == scaled_val,
    {
        Rate(scaled_val as u128)
    }

    /// The scaled value.
    pub fn to_scaled_val(&self) -> (r: u128)
        ensures
            r == self@,
    {
        self.0
    }

    /// `percent` percent.
    pub fn from_percent(percent: u8) -> (r: Rate)
        ensures
            r@ == percent * PERCENT_SCALER,
    {
        proof {
            assert(percent * PERCENT_SCALER <= 255 * PERCENT_SCALER) by (nonlinear_arith)
                requires
                    percent <= 255,
            ;
        }
        Rate(percent as u128 * PERCENT_SCALER as u128)
    }

    /// `percent` percent, for percentages above 255.
    pub fn from_percent_u64(percent: u64) -> (r: Rate)
        ensures
            r@ == percent * PERCENT_SCALER,
    {
        proof {
            assert(percent * PERCENT_SCALER <= u64::MAX * PERCENT_SCALER) by (nonlinear_arith)
                requires
                    percent <= u64::MAX,
            ;
        }
        Rate(percent as u128 * PERCENT_SCALER as u128)
    }

    /// The decimal `value` as a rate, where its scaled value fits in a `u128`.
    pub fn try_from_decimal(value: Decimal) -> (r: Result<Rate, LendingError>)
        ensures
            rate_result(r, if value@ <= u128::MAX { Some(value@) } else { None }),
    {
        match value.to_scaled_val() {
            Ok(v) => Ok(Rate(v)),
            Err(e) => Err(e),
        }
    }

    /// `self + rhs`.
    pub fn try_add(&self, rhs: Rate) -> (r: Result<Rate, LendingError>)
        ensures
            rate_result(r, rate_add(self@, rhs@)),
    {
        match self.0.checked_add(rhs.0) {
            Some(v) => Ok(Rate(v)),
            None => Err(LendingError::MathOverflow),
        }
    }

    /// `self - rhs`.
    pub fn try_sub(&self, rhs: Rate) -> (r: Result<Rate, LendingError>)
        ensures
            rate_result(r, rate_sub(self@, rhs@)),
    {
        match self.0.checked_sub(rhs.0) {
            Some(v) => Ok(Rate(v)),
            None => Err(LendingError::MathOverflow),
        }
    }

    /// `self * rhs`.
    pub fn try_mul(&self, rhs: Rate) -> (r: Result<Rate, LendingError>)
        ensures
            rate_result(r, rate_mul(self@, rhs@)),
    {
        match self.0.checked_mul(rhs.0) {
            Some(v) => Ok(Rate(v / WAD as u128)),
            None => Err(LendingError::MathOverflow),
        }
    }

    /// `self / rhs`.
    pub fn try_div(&self, rhs: Rate) -> (r: Result<Rate, LendingError>)
        ensures
            rate_result(r, rate_div(self@, rhs@)),
    {
        if rhs.0 == 0 {
            return Err(LendingError::MathOverflow);
        }
        match (WAD as u128).checked_mul(self.0) {
            Some(v) => Ok(Rate(v / rhs.0)),
            None => Err(LendingError::MathOverflow),
        }
    }

    /// `self / rhs` for a whole number `rhs`, rounded down.
    pub fn try_div_u64(&self, rhs: u64) -> (r: Result<Rate, LendingError>)
        ensures
            rate_result(r, if rhs > 0 { Some(self@ / (rhs as nat)) } else { None }),
    {
        if rhs == 0 {
            return Err(LendingError::MathOverflow);
        }
        Ok(Rate(self.0 / rhs as u128))
    }

    /// `self` to the power `exp`.
    pub fn try_pow(&self, exp: u64) -> (r: Result<Rate, LendingError>)
        ensures
            rate_result(r, rate_pow(self@, exp as nat)),
    {
        let mut e = exp;
        let mut base = *self;
        let mut acc = if e % 2 != 0 {
            base
        } else {
            Rate::one()
        };
        while e > 0
            invariant
                pow_steps(base@, acc@, e as nat) == rate_pow(self@, exp as nat),
            decreases e,
        {
            e = e / 2;
            base = match base.try_mul(base) {
                Ok(b) => b,
                Err(err) => return Err(err),
            };
            if e % 2 != 0 {
                acc = match acc.try_mul(base) {
                    Ok(a) => a,
                    Err(err) => return Err(err),
                };
            }
        }
        Ok(acc)
    }

    /// Whether `self < rhs`.
    pub fn lt(&self, rhs: &Rate) -> (r: bool)
        ensures
            r == (self@ < rhs@),
    {
        self.0 < rhs.0
    }

    /// Whether `self <= rhs`.
    pub fn le(&self, rhs: &Rate) -> (r: bool)
        ensures
            r == (self@ <= rhs@),
    {
        self.0 <= rhs.0
    }

    /// Whether `self == rhs` as numbers.
    pub fn eq(&self, rhs: &Rate) -> (r: bool)
        ensures
            r == (self@ == rhs@),
    {
        self.0 == rhs.0
    }
}

} // verus!
