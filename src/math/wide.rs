//! Unsigned 256-bit integers held as two 128-bit halves: the working width of
//! the fixed-point arithmetic, whose values never exceed 192 bits.
use vstd::arithmetic::div_mod::*;
use vstd::arithmetic::mul::*;
use vstd::arithmetic::power2::*;
use vstd::bits::*;
use vstd::prelude::*;

verus! {

/// 2^64 as a 128-bit integer.
pub const B64: u128 = 0x1_0000_0000_0000_0000;

/// 2^127 as a 128-bit integer.
pub const B127: u128 = 0x8000_0000_0000_0000_0000_0000_0000_0000;

/// 2^64.
pub open spec fn b64() -> nat {
    0x1_0000_0000_0000_0000
}

/// 2^128.
pub open spec fn b128() -> nat {
    b64() * b64()
}

/// 2^192, the first value that a 192-bit integer cannot hold.
pub open spec fn b192() -> nat {
    b128() * b64()
}

/// An unsigned integer `hi * 2^128 + lo`.
#[derive(Clone, Copy, Debug, PartialEq, Eq, Structural)]
pub struct Wide {
    pub hi: u128,
    pub lo: u128,
}

pub proof fn lemma_pow2_128_192()
    ensures
        pow2(64) == b64(),
        pow2(128) == b128(),
        pow2(192) == b192(),
        pow2(0) == 1,
{
    lemma2_to64();
    lemma_pow2_adds(64, 64);
    lemma_pow2_adds(128, 64);
}

proof fn lemma_val_lt(ah: nat, al: nat, bh: nat, bl: nat)
    requires
        al < b128(),
        bl < b128(),
    ensures
        (ah * b128() + al < bh * b128() + bl) == (ah < bh || (ah == bh && al < bl)),
{
    if ah < bh {
        assert((ah + 1) * b128() <= bh * b128()) by (nonlinear_arith)
            requires
                ah + 1 <= bh,
        ;
    } else if ah > bh {
        assert((bh + 1) * b128() <= ah * b128()) by (nonlinear_arith)
            requires
                bh + 1 <= ah,
        ;
    }
}

impl Wide {
    pub open spec fn val(self) -> nat {
        self.hi as nat * b128() + self.lo as nat
    }

    pub fn from_u128(x: u128) -> (r: Wide)
        ensures
            r.val() == x,
    {
        Wide { hi: 0, lo: x }
    }

    pub fn is_lt(&self, o: &Wide) -> (r: bool)
        ensures
            r == (self.val() < o.val()),
    {
        proof {
            lemma_val_lt(self.hi as nat, self.lo as nat, o.hi as nat, o.lo as nat);
        }
        self.hi < o.hi || (self.hi == o.hi && self.lo < o.lo)
    }

    /// The sum, where it is below 2^256.
    pub fn checked_add(&self, o: &Wide) -> (r: Option<Wide>)
        ensures
            r.is_some() == (self.val() + o.val() < b128() * b128()),
            r.is_some() ==> r.unwrap().val() == self.val() + o.val(),
    {
        let lo: u128;
        let carry: u128;
        if self.lo <= u128::MAX - o.lo {
            lo = self.lo + o.lo;
            carry = 0;
        } else {
            lo = self.lo - (u128::MAX - o.lo) - 1;
            carry = 1;
        }
        assert(self.lo + o.lo == carry * b128() + lo);
        let s = self.hi as u128;
        if s > u128::MAX - o.hi || s + o.hi > u128::MAX - carry {
            proof {
                assert((self.hi + o.hi + carry) * b128() >= b128() * b128()) by (nonlinear_arith)
                    requires
                        self.hi + o.hi + carry >= b128(),
                ;
                assert(self.val() + o.val() == (self.hi + o.hi + carry) * b128() + lo)
                    by (nonlinear_arith)
                    requires
                        self.lo + o.lo == carry * b128() + lo,
                ;
            }
            None
        } else {
            let r = Wide { hi: s + o.hi + carry, lo };
            proof {
                assert(self.val() + o.val() == r.hi * b128() + lo) by (nonlinear_arith)
                    requires
                        self.lo + o.lo == carry * b128() + lo,
                        r.hi == self.hi + o.hi + carry,
                ;
                assert(r.hi * b128() + lo < b128() * b128()) by (nonlinear_arith)
                    requires
                        r.hi < b128(),
                        lo < b128(),
                ;
            }
            Some(r)
        }
    }

    /// The difference, where `self` is not below `o`.
    pub fn checked_sub(&self, o: &Wide) -> (r: Option<Wide>)
        ensures
            r.is_some() == (self.val() >= o.val()),
            r.is_some() ==> r.unwrap().val() == self.val() - o.val(),
    {
        if self.is_lt(o) {
            None
        } else {
            proof {
                lemma_val_lt(self.hi as nat, self.lo as nat, o.hi as nat, o.lo as nat);
            }
            let lo: u128;
            let borrow: u128;
            if self.lo >= o.lo {
                lo = self.lo - o.lo;
                borrow = 0;
            } else {
                lo = u128::MAX - (o.lo - self.lo) + 1;
                borrow = 1;
            }
            assert(self.hi >= o.hi + borrow);
            let r = Wide { hi: self.hi - o.hi - borrow, lo };
            proof {
                assert(self.val() - o.val() == r.hi * b128() + lo) by (nonlinear_arith)
                    requires
                        self.lo + borrow * b128() == o.lo + lo,
                        r.hi == self.hi - o.hi - borrow,
                ;
            }
            Some(r)
        }
    }

    /// `2 * self + bit`.
    pub fn shl1_add(&self, bit: u128) -> (r: Wide)
        requires
            self.val() < b192(),
            bit < 2,
        ensures
            r.val() == 2 * self.val() + bit,
    {
        assert(self.hi < b64()) by {
            assert(b192() == b64() * b128());
            if self.hi >= b64() {
                assert(self.hi * b128() >= b64() * b128()) by (nonlinear_arith)
                    requires
                        self.hi >= b64(),
                ;
            }
        }
        let top: u128 = if self.lo >= B127 { 1 } else { 0 };
        let rest: u128 = if self.lo >= B127 { self.lo - B127 } else { self.lo };
        let r = Wide { hi: 2 * self.hi + top, lo: 2 * rest + bit };
        proof {
            assert(r.val() == 2 * self.val() + bit) by (nonlinear_arith)
                requires
                    self.lo == top * 0x8000_0000_0000_0000_0000_0000_0000_0000 + rest,
                    r.hi == 2 * self.hi + top,
                    r.lo == 2 * rest + bit,
                    b128() == 2 * 0x8000_0000_0000_0000_0000_0000_0000_0000int,
            ;
        }
        r
    }

    /// Bit `i` of the value.
    pub fn bit(&self, i: u32) -> (r: u128)
        requires
            i < 192,
        ensures
            r == (self.val() / pow2(i as nat)) % 2,
            r < 2,
    {
        proof {
            lemma_pow2_128_192();
            lemma_pow2_pos(i as nat);
        }
        if i >= 128 {
            let s: u128 = (i - 128) as u128;
            proof {
                lemma_u128_shr_is_div(self.hi, s);
                lemma_pow2_adds(128, s as nat);
                lemma_pow2_pos(s as nat);
                lemma_div_denominator(self.val() as int, b128() as int, pow2(s as nat) as int);
                lemma_fundamental_div_mod_converse(
                    self.val() as int,
                    b128() as int,
                    self.hi as int,
                    self.lo as int,
                );
            }
            (self.hi >> s) % 2
        } else {
            let s: u128 = i as u128;
            proof {
                lemma_u128_shr_is_div(self.lo, s);
                let k = (128 - i) as nat;
                lemma_pow2_adds(i as nat, k);
                lemma_pow2_unfold(k);
                let p = pow2(i as nat) as int;
                let pk = pow2(k) as int;
                let x = self.hi * pk;
                assert(self.val() == x * p + self.lo) by {
                    lemma_mul_is_associative(self.hi as int, pk, p);
                }
                lemma_fundamental_div_mod(self.lo as int, p);
                assert(self.val() == (x + self.lo as int / p) * p + self.lo as int % p) by {
                    lemma_mul_is_distributive_add_other_way(p, x, self.lo as int / p);
                    lemma_mul_is_commutative(p, self.lo as int / p);
                }
                lemma_fundamental_div_mod_converse(
                    self.val() as int,
                    p,
                    x + self.lo as int / p,
                    self.lo as int % p,
                );
                let half = pow2((k - 1) as nat) as int;
                assert(x == 2 * (self.hi * half)) by {
                    lemma_mul_is_associative(self.hi as int, half, 2);
                    lemma_mul_is_commutative(self.hi * half, 2);
                }
                lemma_mod_multiples_vanish(self.hi * half, self.lo as int / p, 2);
            }
            (self.lo >> s) % 2
        }
    }
}

proof fn lemma_split(x: nat)
    ensures
        x == (x / b64()) * b64() + x % b64(),
        x % b64() < b64(),
{
    lemma_fundamental_div_mod(x as int, b64() as int);
}

/// The full product of two 128-bit integers.
pub fn mul_wide(a: u128, b: u128) -> (r: Wide)
    ensures
        r.val() == a * b,
{
    let a1 = a / B64;
    let a0 = a % B64;
    let b1 = b / B64;
    let b0 = b % B64;
    proof {
        lemma_split(a as nat);
        lemma_split(b as nat);
        assert(a0 * b0 < b128()) by (nonlinear_arith)
            requires
                a0 < b64(),
                b0 < b64(),
        ;
        assert(a0 * b1 < b128()) by (nonlinear_arith)
            requires
                a0 < b64(),
                b1 < b64(),
        ;
        assert(a1 * b0 < b128()) by (nonlinear_arith)
            requires
                a1 < b64(),
                b0 < b64(),
        ;
        assert(a1 * b1 <= (b64() - 1) * (b64() - 1)) by (nonlinear_arith)
            requires
                a1 < b64(),
                b1 < b64(),
        ;
    }
    let p00 = a0 * b0;
    let p01 = a0 * b1;
    let p10 = a1 * b0;
    let p11 = a1 * b1;
    proof {
        lemma_split(p00 as nat);
        lemma_split(p01 as nat);
        lemma_split(p10 as nat);
    }
    let mid = p00 / B64 + p01 % B64 + p10 % B64;
    proof {
        lemma_split(mid as nat);
        assert(a * b == p11 * b128() + (p01 + p10) * b64() + p00) by (nonlinear_arith)
            requires
                a == a1 * b64() + a0,
                b == b1 * b64() + b0,
                p00 == a0 * b0,
                p01 == a0 * b1,
                p10 == a1 * b0,
                p11 == a1 * b1,
                b128() == b64() * b64(),
        ;
    }
    let lo = p00 % B64 + (mid % B64) * B64;
    proof {
        assert(lo < b128()) by (nonlinear_arith)
            requires
                lo == p00 % B64 + (mid % B64) * b64(),
                p00 % B64 < b64(),
                mid % B64 < b64(),
                b128() == b64() * b64(),
        ;
        assert(a * b < b128() * b128()) by (nonlinear_arith)
            requires
                a < b128(),
                b < b128(),
        ;
        assert(a * b == (p11 + p01 / B64 + p10 / B64 + mid / B64) * b128() + lo)
            by (nonlinear_arith)
            requires
                a * b == p11 * b128() + (p01 + p10) * b64() + p00,
                p00 == (p00 / B64) * b64() + p00 % B64,
                p01 == (p01 / B64) * b64() + p01 % B64,
                p10 == (p10 / B64) * b64() + p10 % B64,
                mid == p00 / B64 + p01 % B64 + p10 % B64,
                mid == (mid / B64) * b64() + mid % B64,
                lo == p00 % B64 + (mid % B64) * b64(),
                b128() == b64() * b64(),
        ;
        let h = p11 + p01 / B64 + p10 / B64 + mid / B64;
        assert(h < b128()) by (nonlinear_arith)
            requires
                a * b == h * b128() + lo,
                a * b < b128() * b128(),
                lo >= 0,
        ;
    }
    let hi = p11 + p01 / B64 + p10 / B64 + mid / B64;
    Wide { hi, lo }
}

/// The product `x * b`, where it is below 2^192.
pub fn mul_small(x: u128, b: &Wide) -> (r: Option<Wide>)
    requires
        b.val() < b192(),
    ensures
        r.is_some() == (x * b.val() < b192()),
        r.is_some() ==> r.unwrap().val() == x * b.val(),
{
    proof {
        assert(x * b.val() == (x * b.hi) * b128() + x * b.lo) by (nonlinear_arith);
    }
    let cross = x.checked_mul(b.hi);
    match cross {
        None => {
            proof {
                assert(x * b.val() >= b192()) by (nonlinear_arith)
                    requires
                        x * b.val() == (x * b.hi) * b128() + x * b.lo,
                        x * b.hi > u128::MAX,
                        b192() == b128() * b64(),
                        b64() > 0,
                        b128() > 0,
                        x * b.lo >= 0,
                ;
            }
            None
        },
        Some(c) => {
            let w = mul_wide(x, b.lo);
            if w.hi > u128::MAX - c {
                proof {
                    assert(x * b.val() >= b192()) by (nonlinear_arith)
                        requires
                            x * b.val() == c * b128() + w.hi * b128() + w.lo,
                            w.hi + c > u128::MAX,
                            b192() == b128() * b64(),
                            b128() == b64() * b64(),
                            b64() > 0,
                            w.lo >= 0,
                    ;
                }
                None
            } else {
                let hi = w.hi + c;
                proof {
                    assert(x * b.val() == hi * b128() + w.lo) by (nonlinear_arith)
                        requires
                            x * b.val() == c * b128() + w.hi * b128() + w.lo,
                            hi == w.hi + c,
                    ;
                }
                if hi < B64 {
                    proof {
                        assert(hi * b128() + w.lo < b192()) by (nonlinear_arith)
                            requires
                                hi + 1 <= b64(),
                                w.lo < b128(),
                                b192() == b128() * b64(),
                        ;
                    }
                    Some(Wide { hi, lo: w.lo })
                } else {
                    proof {
                        assert(hi * b128() + w.lo >= b192()) by (nonlinear_arith)
                            requires
                                hi >= b64(),
                                w.lo >= 0,
                                b192() == b128() * b64(),
                        ;
                    }
                    None
                }
            }
        },
    }
}

/// The product `a * b`, where it is below 2^192.
pub fn mul_192(a: &Wide, b: &Wide) -> (r: Option<Wide>)
    requires
        a.val() < b192(),
        b.val() < b192(),
    ensures
        r.is_some() == (a.val() * b.val() < b192()),
        r.is_some() ==> r.unwrap().val() == a.val() * b.val(),
{
    if a.hi != 0 && b.hi != 0 {
        proof {
            assert(a.val() * b.val() >= b192()) by (nonlinear_arith)
                requires
                    a.val() >= b128(),
                    b.val() >= b128(),
                    b192() == b128() * b64(),
                    b128() == b64() * b64(),
                    b64() > 1,
            ;
        }
        None
    } else if a.hi == 0 {
        mul_small(a.lo, b)
    } else {
        proof {
            assert(a.val() * b.val() == b.lo * a.val()) by (nonlinear_arith)
                requires
                    b.val() == b.lo,
            ;
        }
        mul_small(b.lo, a)
    }
}

proof fn lemma_prefix_step(n: nat, i: nat)
    requires
        i >= 1,
    ensures
        n / pow2((i - 1) as nat) == 2 * (n / pow2(i)) + (n / pow2((i - 1) as nat)) % 2,
{
    let j = (i - 1) as nat;
    lemma_pow2_pos(j);
    lemma_pow2_unfold(i);
    lemma_div_denominator(n as int, pow2(j) as int, 2);
    lemma_fundamental_div_mod((n / pow2(j)) as int, 2);
    lemma_mul_is_commutative(pow2(j) as int, 2);
}

/// Quotient and remainder of `n / d`, one bit of `n` at a time.
pub fn divrem(n: &Wide, d: &Wide) -> (r: (Wide, Wide))
    requires
        n.val() < b192(),
        0 < d.val() < b192(),
    ensures
        r.0.val() == n.val() / d.val(),
        r.1.val() == n.val() % d.val(),
{
    let mut q = Wide { hi: 0, lo: 0 };
    let mut rem = Wide { hi: 0, lo: 0 };
    let mut i: u32 = 192;
    proof {
        lemma_pow2_128_192();
        lemma_small_div_converse(n.val() as int, b192() as int);
        lemma_basic_div(n.val() as int, b192() as int);
    }
    while i > 0
        invariant
            i <= 192,
            n.val() < b192(),
            0 < d.val() < b192(),
            rem.val() < d.val(),
            q.val() * d.val() + rem.val() == n.val() / pow2(i as nat),
            q.val() <= n.val() / pow2(i as nat),
        decreases i,
    {
        proof {
            lemma_prefix_step(n.val(), i as nat);
            lemma_pow2_pos((i - 1) as nat);
            lemma_div_is_ordered_by_denominator(n.val() as int, 1, pow2((i - 1) as nat) as int);
        }
        let b = n.bit(i - 1);
        let ghost p = n.val() / pow2((i - 1) as nat);
        let ghost pp = n.val() / pow2(i as nat);
        proof {
            lemma_pow2_pos(i as nat);
            lemma_div_is_ordered_by_denominator(n.val() as int, 1, pow2(i as nat) as int);
            lemma_div_basics(n.val() as int);
        }
        let r2 = rem.shl1_add(b);
        let ghost q0 = q.val();
        let ghost d0 = d.val();
        if r2.is_lt(d) {
            rem = r2;
            q = q.shl1_add(0);
            proof {
                assert(q.val() * d0 + rem.val() == p) by (nonlinear_arith)
                    requires
                        q0 * d0 + (r2.val() - b) / 2 == pp,
                        r2.val() == 2 * ((r2.val() - b) / 2) + b,
                        q.val() == 2 * q0,
                        rem.val() == r2.val(),
                        p == 2 * pp + b,
                ;
                assert(q.val() <= p) by (nonlinear_arith)
                    requires
                        q.val() == 2 * q0,
                        q0 <= pp,
                        p == 2 * pp + b,
                        b >= 0,
                ;
            }
        } else {
            rem = r2.checked_sub(d).unwrap();
            q = q.shl1_add(1);
            proof {
                assert(q.val() * d0 + rem.val() == p) by (nonlinear_arith)
                    requires
                        q0 * d0 + (r2.val() - b) / 2 == pp,
                        r2.val() == 2 * ((r2.val() - b) / 2) + b,
                        q.val() == 2 * q0 + 1,
                        rem.val() == r2.val() - d0,
                        p == 2 * pp + b,
                ;
                assert(q.val() <= p) by (nonlinear_arith)
                    requires
                        q.val() * d0 + rem.val() == p,
                        d0 >= 1,
                        rem.val() >= 0,
                ;
            }
        }
        i = i - 1;
    }
    proof {
        lemma_pow2_128_192();
        lemma_div_basics(n.val() as int);
        lemma_fundamental_div_mod_converse(
            n.val() as int,
            d.val() as int,
            q.val() as int,
            rem.val() as int,
        );
    }
    (q, rem)
}

} // verus!
