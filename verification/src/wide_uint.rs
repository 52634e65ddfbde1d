//! 256-bit unsigned integers, held as four 64-bit limbs.
//!
//! Pool reserves and trade amounts fit in 128 bits, but the pricing rules
//! multiply two reserves and an amount before dividing, so every cross
//! product is carried out in this wider domain and only the final quotient
//! is truncated back to `u128`.

use vstd::prelude::*;
use vstd::arithmetic::mul::*;

use bigint::U256;
use cosmwasm_bignumber::Uint256;

verus! {

/// 2^64, the weight of one limb.
pub open spec fn p64() -> int {
    0x1_0000_0000_0000_0000
}

/// 2^128.
pub open spec fn p128() -> int {
    (0x1_0000_0000_0000_0000 as int) * 0x1_0000_0000_0000_0000
}

/// 2^192.
pub open spec fn p192() -> int {
    ((0x1_0000_0000_0000_0000 as int) * 0x1_0000_0000_0000_0000) * 0x1_0000_0000_0000_0000
}

/// 2^256.
pub open spec fn p256() -> int {
    (((0x1_0000_0000_0000_0000 as int) * 0x1_0000_0000_0000_0000) * 0x1_0000_0000_0000_0000)
        * 0x1_0000_0000_0000_0000
}

/// Every `u128` lies below 2^128.
pub proof fn lemma_u128_fits(x: u128)
    ensures
        x < p128(),
{
    assert((x as int) < (0x1_0000_0000_0000_0000 as int) * 0x1_0000_0000_0000_0000)
        by (nonlinear_arith);
}

/// A product of two `u128` values lies below 2^256.
pub proof fn lemma_mul_u128_fits(a: u128, b: u128)
    ensures
        a * b < p256(),
{
    assert((a as int) * (b as int) < (((0x1_0000_0000_0000_0000 as int)
        * 0x1_0000_0000_0000_0000) * 0x1_0000_0000_0000_0000) * 0x1_0000_0000_0000_0000)
        by (nonlinear_arith);
}

/// Anything bounded by a `u128` scaled to 18 digits can be scaled to 18
/// digits once more without leaving 256 bits.
pub proof fn lemma_rescale_fits(x: int, b: u128)
    requires
        0 <= x <= (b as int) * 1_000_000_000_000_000_000,
    ensures
        x * 1_000_000_000_000_000_000 < p256(),
{
    assert(x * 1_000_000_000_000_000_000 < (((0x1_0000_0000_0000_0000 as int)
        * 0x1_0000_0000_0000_0000) * 0x1_0000_0000_0000_0000) * 0x1_0000_0000_0000_0000)
        by (nonlinear_arith)
        requires
            0 <= x <= (b as int) * 1_000_000_000_000_000_000,
    ;
}

/// 2^64 as an executable constant, for limb splitting.
pub const LIMB_BASE: u128 = 0x1_0000_0000_0000_0000;

/// An unsigned 256-bit integer: `w0` is the least significant limb.
pub struct WideUint {
    pub w0: u64,
    pub w1: u64,
    pub w2: u64,
    pub w3: u64,
}

impl WideUint {
    /// The mathematical value of the four limbs.
    pub open spec fn val(&self) -> int {
        ((self.w3 * 0x1_0000_0000_0000_0000 + self.w2) * 0x1_0000_0000_0000_0000 + self.w1)
            * 0x1_0000_0000_0000_0000 + self.w0
    }

    pub fn from_u128(x: u128) -> (r: WideUint)
        ensures
            r.val() == x,
    {
        let lo: u64 = (x % LIMB_BASE) as u64;
        let hi: u64 = (x / LIMB_BASE) as u64;
        proof {
            vstd::arithmetic::div_mod::lemma_fundamental_div_mod(x as int, LIMB_BASE as int);
        }
        WideUint { w0: lo, w1: hi, w2: 0, w3: 0 }
    }

    pub fn to_u128(&self) -> (r: u128)
        requires
            self.val() < p128(),
        ensures
            r == self.val(),
    {
        (self.w0 as u128) + (self.w1 as u128) * LIMB_BASE
    }

    /// Limb-wise addition with carry.
    pub fn add(&self, other: &WideUint) -> (r: WideUint)
        requires
            self.val() + other.val() < p256(),
        ensures
            r.val() == self.val() + other.val(),
    {
        let s0: u128 = self.w0 as u128 + other.w0 as u128;
        let r0: u64 = (s0 % LIMB_BASE) as u64;
        let c0: u64 = (s0 / LIMB_BASE) as u64;
        let s1: u128 = self.w1 as u128 + other.w1 as u128 + c0 as u128;
        let r1: u64 = (s1 % LIMB_BASE) as u64;
        let c1: u64 = (s1 / LIMB_BASE) as u64;
        let s2: u128 = self.w2 as u128 + other.w2 as u128 + c1 as u128;
        let r2: u64 = (s2 % LIMB_BASE) as u64;
        let c2: u64 = (s2 / LIMB_BASE) as u64;
        let s3: u128 = self.w3 as u128 + other.w3 as u128 + c2 as u128;
        let r3: u64 = (s3 % LIMB_BASE) as u64;
        let c3: u64 = (s3 / LIMB_BASE) as u64;
        let r = WideUint { w0: r0, w1: r1, w2: r2, w3: r3 };
        proof {
            vstd::arithmetic::div_mod::lemma_fundamental_div_mod(s0 as int, LIMB_BASE as int);
            vstd::arithmetic::div_mod::lemma_fundamental_div_mod(s1 as int, LIMB_BASE as int);
            vstd::arithmetic::div_mod::lemma_fundamental_div_mod(s2 as int, LIMB_BASE as int);
            vstd::arithmetic::div_mod::lemma_fundamental_div_mod(s3 as int, LIMB_BASE as int);
            assert(s0 == c0 * 0x1_0000_0000_0000_0000 + r0);
            assert(s1 == c1 * 0x1_0000_0000_0000_0000 + r1);
            assert(s2 == c2 * 0x1_0000_0000_0000_0000 + r2);
            assert(s3 == c3 * 0x1_0000_0000_0000_0000 + r3);
            assert(r.val() + (((c3 * 0x1_0000_0000_0000_0000) * 0x1_0000_0000_0000_0000)
                * 0x1_0000_0000_0000_0000) * 0x1_0000_0000_0000_0000 == self.val()
                + other.val());
            assert(c3 == 0);
        }
        r
    }

    /// Limb-wise subtraction with borrow.
    pub fn sub(&self, other: &WideUint) -> (r: WideUint)
        requires
            other.val() <= self.val(),
        ensures
            r.val() == self.val() - other.val(),
    {
        let t0: u128 = LIMB_BASE + self.w0 as u128 - other.w0 as u128;
        let r0: u64 = if t0 >= LIMB_BASE { (t0 - LIMB_BASE) as u64 } else { t0 as u64 };
        let b0: u64 = if t0 >= LIMB_BASE { 0 } else { 1 };
        let t1: u128 = LIMB_BASE + self.w1 as u128 - other.w1 as u128 - b0 as u128;
        let r1: u64 = if t1 >= LIMB_BASE { (t1 - LIMB_BASE) as u64 } else { t1 as u64 };
        let b1: u64 = if t1 >= LIMB_BASE { 0 } else { 1 };
        let t2: u128 = LIMB_BASE + self.w2 as u128 - other.w2 as u128 - b1 as u128;
        let r2: u64 = if t2 >= LIMB_BASE { (t2 - LIMB_BASE) as u64 } else { t2 as u64 };
        let b2: u64 = if t2 >= LIMB_BASE { 0 } else { 1 };
        let t3: u128 = LIMB_BASE + self.w3 as u128 - other.w3 as u128 - b2 as u128;
        let r3: u64 = if t3 >= LIMB_BASE { (t3 - LIMB_BASE) as u64 } else { t3 as u64 };
        let b3: u64 = if t3 >= LIMB_BASE { 0 } else { 1 };
        let r = WideUint { w0: r0, w1: r1, w2: r2, w3: r3 };
        proof {
            assert(r.val() == self.val() - other.val() + b3 * p256());
            assert(b3 == 0);
        }
        r
    }

    /// Lexicographic comparison, most significant limb first.
    pub fn lt(&self, other: &WideUint) -> (r: bool)
        ensures
            r == (self.val() < other.val()),
    {
        if self.w3 != other.w3 {
            self.w3 < other.w3
        } else if self.w2 != other.w2 {
            self.w2 < other.w2
        } else if self.w1 != other.w1 {
            self.w1 < other.w1
        } else {
            self.w0 < other.w0
        }
    }

    /// Relies on `cosmwasm_bignumber::Uint256::multiply_ratio`, which returns
    /// `self * nom / denom` with a full 256-bit intermediate product and
    /// floor division; it panics when the denominator is zero or the
    /// intermediate product overflows 256 bits, so both are excluded here.
    #[verifier::external_body]
    pub fn mul_ratio(&self, nom: &WideUint, denom: &WideUint) -> (r: WideUint)
        requires
            denom.val() > 0,
            self.val() * nom.val() < p256(),
        ensures
            r.val() == (self.val() * nom.val()) / denom.val(),
    {
        let a = Uint256(U256([self.w0, self.w1, self.w2, self.w3]));
        let n = U256([nom.w0, nom.w1, nom.w2, nom.w3]);
        let d = U256([denom.w0, denom.w1, denom.w2, denom.w3]);
        let v = a.multiply_ratio(n, d);
        let limbs = (v.0).0;
        WideUint { w0: limbs[0], w1: limbs[1], w2: limbs[2], w3: limbs[3] }
    }
}

/// `a * b / d` on 128-bit values, carried out in the 256-bit domain.
pub fn mul_div_u128(a: u128, b: u128, d: u128) -> (r: u128)
    requires
        d > 0,
        ((a * b) as int) / (d as int) < p128(),
    ensures
        r == ((a * b) as int) / (d as int),
{
    proof {
        assert((a * b) < p256()) by (nonlinear_arith);
    }
    let wa = WideUint::from_u128(a);
    let wb = WideUint::from_u128(b);
    let wd = WideUint::from_u128(d);
    wa.mul_ratio(&wb, &wd).to_u128()
}

} // verus!
