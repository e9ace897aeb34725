//! `Decimal`: an unsigned 192-bit fixed-point number with 18 fractional digits.
//!
//! Every operation is checked: a result outside the 192-bit range, or a
//! division by zero, is `LendingError::MathOverflow`, never a wrapped value.
use crate::error::LendingError;
use crate::math::rate::Rate;
use crate::math::wide::{b128, b192, b64, divrem, mul_192, mul_small, mul_wide, Wide, B64};
use vstd::prelude::*;

verus! {

/// Scale of a decimal: 10^18 stands for 1.
pub const WAD: u64 = 1_000_000_000_000_000_000;

/// Half of `WAD`, for rounding.
pub const HALF_WAD: u64 = 500_000_000_000_000_000;

/// Scaled value of one percent.
pub const PERCENT_SCALER: u64 = 10_000_000_000_000_000;

/// Scaled value of one basis point.
pub const BPS_SCALER: u64 = 100_000_000_000_000;

/// Scaled value of one deca basis point (ten basis points).
pub const DECA_BPS_SCALER: u64 = 1_000_000_000_000_000;

/// 10^18.
pub open spec fn wad() -> nat {
    1_000_000_000_000_000_000
}

/// `a + b`, where it fits in 192 bits.
pub open spec fn dec_add(a: nat, b: nat) -> Option<nat> {
    if a + b < b192() {
        Some(a + b)
    } else {
        None
    }
}

/// `a - b`, where `a >= b`.
pub open spec fn dec_sub(a: nat, b: nat) -> Option<nat> {
    if a >= b {
        Some((a - b) as nat)
    } else {
        None
    }
}

/// Fixed-point product of scaled values: the raw product must fit in 192 bits.
pub open spec fn dec_mul(a: nat, b: nat) -> Option<nat> {
    if a * b < b192() {
        Some(a * b / wad())
    } else {
        None
    }
}

/// Fixed-point quotient of scaled values: `a * 10^18` must fit in 192 bits.
pub open spec fn dec_div(a: nat, b: nat) -> Option<nat> {
    if b > 0 && wad() * a < b192() {
        Some(wad() * a / b)
    } else {
        None
    }
}

/// The integer part, where it fits in a `u64`.
pub open spec fn dec_floor(a: nat) -> Option<nat> {
    if a / wad() <= u64::MAX {
        Some(a / wad())
    } else {
        None
    }
}

/// The value rounded up to an integer, where it fits in a `u64`.
pub open spec fn dec_ceil(a: nat) -> Option<nat> {
    let up = (a + wad() - 1) as nat;
    if up < b192() && up / wad() <= u64::MAX {
        Some(up / wad())
    } else {
        None
    }
}

/// The value rounded half up to an integer, where it fits in a `u64`.
pub open spec fn dec_round(a: nat) -> Option<nat> {
    let up = a + wad() / 2;
    if up < b192() && up / wad() <= u64::MAX {
        Some(up / wad())
    } else {
        None
    }
}

/// Relates the result of a checked operation to its value in `int`s.
pub open spec fn dec_result(r: Result<Decimal, LendingError>, v: Option<nat>) -> bool {
    match r {
        Ok(d) => v == Some(d@),
        Err(e) => v is None && e == LendingError::MathOverflow,
    }
}

/// Relates a checked conversion to an integer to its value in `int`s.
pub open spec fn u64_result(r: Result<u64, LendingError>, v: Option<nat>) -> bool {
    match r {
        Ok(x) => v == Some(x as nat),
        Err(e) => v is None && e == LendingError::MathOverflow,
    }
}

/// 10^n.
pub open spec fn pow10(n: nat) -> nat
    decreases n,
{
    if n == 0 {
        1
    } else {
        10 * pow10((n - 1) as nat)
    }
}

/// 10^n grows with n.
pub proof fn lemma_pow10_mono(a: nat, b: nat)
    requires
        a <= b,
    ensures
        1 <= pow10(a) <= pow10(b),
    decreases b,
{
    if b > a {
        lemma_pow10_mono(a, (b - 1) as nat);
    } else if a > 0 {
        lemma_pow10_mono((a - 1) as nat, (a - 1) as nat);
    }
}

/// 10^n, where it does not exceed `limit`.
pub fn checked_pow10(n: u32, limit: u128) -> (r: Option<u128>)
    ensures
        r is Some == (pow10(n as nat) <= limit),
        r matches Some(v) ==> v == pow10(n as nat),
{
    let mut acc: u128 = 1;
    let mut i: u32 = 0;
    if limit == 0 {
        proof {
            lemma_pow10_mono(0, n as nat);
        }
        return None;
    }
    while i < n
        invariant
            i <= n,
            acc == pow10(i as nat),
            acc <= limit,
        decreases n - i,
    {
        if acc > limit / 10 {
            proof {
                lemma_pow10_mono((i + 1) as nat, n as nat);
            }
            return None;
        }
        acc = acc * 10;
        i = i + 1;
    }
    Some(acc)
}

/// A fixed-point number `hi * 2^128 + lo`, scaled by 10^18.
#[derive(Clone, Copy, Debug, Default, PartialEq, Eq, Structural)]
pub struct Decimal {
    hi: u64,
    lo: u128,
}

impl View for Decimal {
    type V = nat;

    /// The scaled value.
    closed spec fn view(&self) -> nat {
        self.hi as nat * b128() + self.lo as nat
    }
}

impl Decimal {
    /// Every decimal lies below 2^192.
    pub proof fn lemma_bounded(self)
        ensures
            self@ < b192(),
    {
        assert(self.hi as nat * b128() + self.lo < b192()) by (nonlinear_arith)
            requires
                self.hi + 1 <= b64(),
                self.lo < b128(),
                b192() == b128() * b64(),
        ;
    }

    fn to_wide(&self) -> (r: Wide)
        ensures
            r.val() == self@,
            r.val() < b192(),
    {
        proof {
            self.lemma_bounded();
        }
        Wide { hi: self.hi as u128, lo: self.lo }
    }

    fn from_wide(w: &Wide) -> (r: Result<Decimal, LendingError>)
        ensures
            dec_result(r, if w.val() < b192() { Some(w.val()) } else { None }),
    {
        if w.hi < B64 {
            let d = Decimal { hi: w.hi as u64, lo: w.lo };
            proof {
                d.lemma_bounded();
            }
            Ok(d)
        } else {
            proof {
                assert(w.val() >= b192()) by (nonlinear_arith)
                    requires
                        w.hi >= b64(),
                        w.val() == w.hi * b128() + w.lo,
                        w.lo >= 0,
                        b192() == b128() * b64(),
                ;
            }
            Err(LendingError::MathOverflow)
        }
    }

    /// Zero.
    pub fn zero() -> (r: Decimal)
        ensures
            r@ == 0,
    {
        Decimal { hi: 0, lo: 0 }
    }

    /// One.
    pub fn one() -> (r: Decimal)
        ensures
            r@ == wad(),
    {
        Decimal { hi: 0, lo: WAD as u128 }
    }

    /// The decimal whose scaled value is `scaled_val`.
    pub fn from_scaled_val(scaled_val: u128) -> (r: Decimal)
        ensures
            r@ == scaled_val,
    {
        Decimal { hi: 0, lo: scaled_val }
    }

    /// The scaled value, where it fits in a `u128`.
    pub fn to_scaled_val(&self) -> (r: Result<u128, LendingError>)
        ensures
            match r {
                Ok(v) => v == self@,
                Err(e) => self@ > u128::MAX && e == LendingError::MathOverflow,
            },
    {
        if self.hi == 0 {
            Ok(self.lo)
        } else {
            proof {
                assert(self.hi * b128() + self.lo > u128::MAX) by (nonlinear_arith)
                    requires
                        self.hi >= 1,
                        self.lo >= 0,
                        b128() == u128::MAX + 1,
                ;
            }
            Err(LendingError::MathOverflow)
        }
    }

    /// `percent` percent.
    pub fn from_percent(percent: u8) -> (r: Decimal)
        ensures
            r@ == percent * PERCENT_SCALER,
    {
        proof {
            assert(percent * PERCENT_SCALER <= 255 * PERCENT_SCALER) by (nonlinear_arith)
                requires
                    percent <= 255,
            ;
        }
        Decimal { hi: 0, lo: percent as u128 * PERCENT_SCALER as u128 }
    }

    /// `bps` basis points.
    pub fn from_bps(bps: u64) -> (r: Decimal)
        ensures
            r@ == bps * BPS_SCALER,
    {
        proof {
            assert(bps * BPS_SCALER <= u64::MAX * BPS_SCALER) by (nonlinear_arith)
                requires
                    bps <= u64::MAX,
            ;
        }
        Decimal { hi: 0, lo: bps as u128 * BPS_SCALER as u128 }
    }

    /// `deca_bps` tens of basis points.
    pub fn from_deca_bps(deca_bps: u8) -> (r: Decimal)
        ensures
            r@ == deca_bps * DECA_BPS_SCALER,
    {
        proof {
            assert(deca_bps * DECA_BPS_SCALER <= 255 * DECA_BPS_SCALER) by (nonlinear_arith)
                requires
                    deca_bps <= 255,
            ;
        }
        Decimal { hi: 0, lo: deca_bps as u128 * DECA_BPS_SCALER as u128 }
    }

    /// The whole number `val`.
    pub fn from_u64(val: u64) -> (r: Decimal)
        ensures
            r@ == val * wad(),
    {
        proof {
            assert(val * wad() <= u64::MAX * wad()) by (nonlinear_arith)
                requires
                    val <= u64::MAX,
            ;
        }
        Decimal { hi: 0, lo: val as u128 * WAD as u128 }
    }

    /// The whole number `val`.
    pub fn from_u128(val: u128) -> (r: Decimal)
        ensures
            r@ == val * wad(),
    {
        let w = mul_wide(val, WAD as u128);
        proof {
            assert(val * wad() < b192()) by (nonlinear_arith)
                requires
                    val < b128(),
                    wad() < b64(),
                    b192() == b128() * b64(),
            ;
            if w.hi >= B64 {
                assert(w.val() >= b192()) by (nonlinear_arith)
                    requires
                        w.hi >= b64(),
                        w.val() == w.hi * b128() + w.lo,
                        w.lo >= 0,
                        b192() == b128() * b64(),
                ;
            }
        }
        Decimal { hi: w.hi as u64, lo: w.lo }
    }

    /// The rate `rate` as a decimal.
    pub fn from_rate(rate: Rate) -> (r: Decimal)
        ensures
            r@ == rate@,
    {
        Decimal { hi: 0, lo: rate.to_scaled_val() }
    }

    /// `self + rhs`.
    pub fn try_add(&self, rhs: Decimal) -> (r: Result<Decimal, LendingError>)
        ensures
            dec_result(r, dec_add(self@, rhs@)),
    {
        proof {
            crate::math::wide::lemma_pow2_128_192();
            assert(b192() < b128() * b128()) by (nonlinear_arith)
                requires
                    b192() == b128() * b64(),
                    b64() < b128(),
                    b128() > 0,
            ;
        }
        match self.to_wide().checked_add(&rhs.to_wide()) {
            Some(w) => Decimal::from_wide(&w),
            None => Err(LendingError::MathOverflow),
        }
    }

    /// `self - rhs`.
    pub fn try_sub(&self, rhs: Decimal) -> (r: Result<Decimal, LendingError>)
        ensures
            dec_result(r, dec_sub(self@, rhs@)),
    {
        match self.to_wide().checked_sub(&rhs.to_wide()) {
            Some(w) => Decimal::from_wide(&w),
            None => Err(LendingError::MathOverflow),
        }
    }

    /// `self * rhs`.
    pub fn try_mul(&self, rhs: Decimal) -> (r: Result<Decimal, LendingError>)
        ensures
            dec_result(r, dec_mul(self@, rhs@)),
    {
        match mul_192(&self.to_wide(), &rhs.to_wide()) {
            Some(p) => {
                let (q, _) = divrem(&p, &Wide::from_u128(WAD as u128));
                proof {
                    vstd::arithmetic::div_mod::lemma_div_is_ordered_by_denominator(
                        p.val() as int,
                        1,
                        wad() as int,
                    );
                    vstd::arithmetic::div_mod::lemma_div_basics(p.val() as int);
                }
                Decimal::from_wide(&q)
            },
            None => Err(LendingError::MathOverflow),
        }
    }

    /// `self * rhs` for a rate `rhs`.
    pub fn try_mul_rate(&self, rhs: Rate) -> (r: Result<Decimal, LendingError>)
        ensures
            dec_result(r, dec_mul(self@, rhs@)),
    {
        self.try_mul(Decimal::from_rate(rhs))
    }

    /// `self * rhs` for a whole number `rhs`.
    pub fn try_mul_u64(&self, rhs: u64) -> (r: Result<Decimal, LendingError>)
        ensures
            dec_result(r, if self@ * rhs < b192() { Some(self@ * (rhs as nat)) } else { None }),
    {
        proof {
            assert(self@ * rhs == rhs * self@) by (nonlinear_arith);
        }
        match mul_small(rhs as u128, &self.to_wide()) {
            Some(p) => Decimal::from_wide(&p),
            None => Err(LendingError::MathOverflow),
        }
    }

    /// `self * rhs` for a whole number `rhs`.
    pub fn try_mul_u128(&self, rhs: u128) -> (r: Result<Decimal, LendingError>)
        ensures
            dec_result(r, if self@ * rhs < b192() { Some(self@ * (rhs as nat)) } else { None }),
    {
        proof {
            assert(self@ * rhs == rhs * self@) by (nonlinear_arith);
        }
        match mul_small(rhs, &self.to_wide()) {
            Some(p) => Decimal::from_wide(&p),
            None => Err(LendingError::MathOverflow),
        }
    }

    /// `self / rhs`.
    pub fn try_div(&self, rhs: Decimal) -> (r: Result<Decimal, LendingError>)
        ensures
            dec_result(r, dec_div(self@, rhs@)),
    {
        let d = rhs.to_wide();
        if d.hi == 0 && d.lo == 0 {
            return Err(LendingError::MathOverflow);
        }
        match mul_small(WAD as u128, &self.to_wide()) {
            Some(n) => {
                let (q, _) = divrem(&n, &d);
                proof {
                    vstd::arithmetic::div_mod::lemma_div_is_ordered_by_denominator(
                        n.val() as int,
                        1,
                        d.val() as int,
                    );
                    vstd::arithmetic::div_mod::lemma_div_basics(n.val() as int);
                }
                Decimal::from_wide(&q)
            },
            None => Err(LendingError::MathOverflow),
        }
    }

    /// `self / rhs` for a rate `rhs`.
    pub fn try_div_rate(&self, rhs: Rate) -> (r: Result<Decimal, LendingError>)
        ensures
            dec_result(r, dec_div(self@, rhs@)),
    {
        self.try_div(Decimal::from_rate(rhs))
    }

    /// `self / rhs` for a whole number `rhs`, rounded down.
    pub fn try_div_u64(&self, rhs: u64) -> (r: Result<Decimal, LendingError>)
        ensures
            dec_result(r, if rhs > 0 { Some(self@ / (rhs as nat)) } else { None }),
    {
        if rhs == 0 {
            return Err(LendingError::MathOverflow);
        }
        let n = self.to_wide();
        let (q, _) = divrem(&n, &Wide::from_u128(rhs as u128));
        proof {
            vstd::arithmetic::div_mod::lemma_div_is_ordered_by_denominator(
                n.val() as int,
                1,
                rhs as int,
            );
            vstd::arithmetic::div_mod::lemma_div_basics(n.val() as int);
        }
        Decimal::from_wide(&q)
    }

    fn wide_to_u64(w: &Wide) -> (r: Result<u64, LendingError>)
        ensures
            u64_result(r, if w.val() <= u64::MAX { Some(w.val()) } else { None }),
    {
        if w.hi == 0 && w.lo <= u64::MAX as u128 {
            Ok(w.lo as u64)
        } else {
            proof {
                if w.hi > 0 {
                    assert(w.hi * b128() + w.lo >= b128()) by (nonlinear_arith)
                        requires
                            w.hi >= 1,
                            w.lo >= 0,
                    ;
                }
            }
            Err(LendingError::MathOverflow)
        }
    }

    /// The integer part, where it fits in a `u64`.
    pub fn try_floor_u64(&self) -> (r: Result<u64, LendingError>)
        ensures
            u64_result(r, dec_floor(self@)),
    {
        let n = self.to_wide();
        let (q, _) = divrem(&n, &Wide::from_u128(WAD as u128));
        Decimal::wide_to_u64(&q)
    }

    /// The value rounded up to an integer, where it fits in a `u64`.
    pub fn try_ceil_u64(&self) -> (r: Result<u64, LendingError>)
        ensures
            u64_result(r, dec_ceil(self@)),
    {
        match self.try_add(Decimal::from_scaled_val((WAD - 1) as u128)) {
            Ok(s) => s.try_floor_u64(),
            Err(e) => Err(e),
        }
    }

    /// The value rounded half up to an integer, where it fits in a `u64`.
    pub fn try_round_u64(&self) -> (r: Result<u64, LendingError>)
        ensures
            u64_result(r, dec_round(self@)),
    {
        match self.try_add(Decimal::from_scaled_val(HALF_WAD as u128)) {
            Ok(s) => s.try_floor_u64(),
            Err(e) => Err(e),
        }
    }

    /// Whether `self < rhs`.
    pub fn lt(&self, rhs: &Decimal) -> (r: bool)
        ensures
            r == (self@ < rhs@),
    {
        self.to_wide().is_lt(&rhs.to_wide())
    }

    /// Whether `self <= rhs`.
    pub fn le(&self, rhs: &Decimal) -> (r: bool)
        ensures
            r == (self@ <= rhs@),
    {
        !rhs.lt(self)
    }

    /// Whether `self == rhs` as numbers.
    pub fn eq(&self, rhs: &Decimal) -> (r: bool)
        ensures
            r == (self@ == rhs@),
    {
        self.le(rhs) && rhs.le(self)
    }

    /// Whether the value is zero.
    pub fn is_zero(&self) -> (r: bool)
        ensures
            r == (self@ == 0),
    {
        proof {
            assert(self.hi * b128() >= 0 && (self.hi > 0 ==> self.hi * b128() > 0))
                by (nonlinear_arith)
                requires
                    b128() > 0,
            ;
        }
        self.hi == 0 && self.lo == 0
    }

    /// The smaller of the two.
    pub fn min(self, rhs: Decimal) -> (r: Decimal)
        ensures
            r@ == if self@ <= rhs@ { self@ } else { rhs@ },
    {
        if self.le(&rhs) {
            self
        } else {
            rhs
        }
    }

    /// The larger of the two.
    pub fn max(self, rhs: Decimal) -> (r: Decimal)
        ensures
            r@ == if self@ >= rhs@ { self@ } else { rhs@ },
    {
        if rhs.le(&self) {
            self
        } else {
            rhs
        }
    }
}

} // verus!
