//! Fixed-width 256-bit integer arithmetic for gas and cost accounting.
//!
//! Gas totals are unsigned 256-bit values; relay costs are signed 256-bit
//! values (negative cost means profit). Both are represented as four
//! 64-bit limbs, least significant first; the signed type uses two's
//! complement over the same limbs.

use vstd::prelude::*;

verus! {

/// 2^256, the first value an unsigned 256-bit integer cannot hold.
pub open spec fn u256_bound() -> int {
    0x1_0000_0000_0000_0000_0000_0000_0000_0000_0000_0000_0000_0000_0000_0000_0000_0000int
}

/// 2^255, the first value a signed 256-bit integer cannot hold.
pub open spec fn i256_bound() -> int {
    0x8000_0000_0000_0000_0000_0000_0000_0000_0000_0000_0000_0000_0000_0000_0000_0000int
}

/// An unsigned 256-bit integer: four 64-bit limbs, least significant first.
#[derive(Clone, Copy, PartialEq, Eq, Structural, Debug)]
pub struct U256 {
    pub l0: u64,
    pub l1: u64,
    pub l2: u64,
    pub l3: u64,
}

impl DeepView for U256 {
    type V = U256;

    open spec fn deep_view(&self) -> U256 {
        *self
    }
}

impl U256 {
    /// The mathematical value of the four limbs.
    pub open spec fn as_nat(self) -> nat {
        (self.l0 as nat) + (self.l1 as nat) * 0x1_0000_0000_0000_0000
            + (self.l2 as nat) * 0x1_0000_0000_0000_0000_0000_0000_0000_0000
            + (self.l3 as nat)
            * 0x1_0000_0000_0000_0000_0000_0000_0000_0000_0000_0000_0000_0000
    }

    pub proof fn lemma_as_nat_bound(self)
        ensures
            self.as_nat()
                < 0x1_0000_0000_0000_0000_0000_0000_0000_0000_0000_0000_0000_0000_0000_0000_0000_0000,
    {
    }

    pub fn from_u64(v: u64) -> (r: U256)
        ensures
            r.as_nat() == v,
    {
        U256 { l0: v, l1: 0, l2: 0, l3: 0 }
    }

    pub fn zero() -> (r: U256)
        ensures
            r.as_nat() == 0,
    {
        U256 { l0: 0, l1: 0, l2: 0, l3: 0 }
    }

    /// The largest representable value, 2^256 - 1.
    pub fn max_value() -> (r: U256)
        ensures
            r.as_nat() + 1
                == 0x1_0000_0000_0000_0000_0000_0000_0000_0000_0000_0000_0000_0000_0000_0000_0000_0000,
    {
        U256 { l0: u64::MAX, l1: u64::MAX, l2: u64::MAX, l3: u64::MAX }
    }

    /// Addition modulo 2^256 together with the carry out of the top limb.
    pub fn add_with_carry(&self, other: &U256) -> (r: (U256, bool))
        ensures
            r.0.as_nat() + (if r.1 { 0x1_0000_0000_0000_0000_0000_0000_0000_0000_0000_0000_0000_0000_0000_0000_0000_0000nat } else { 0nat })
                == self.as_nat() + other.as_nat(),
    {
        let s0: u128 = self.l0 as u128 + other.l0 as u128;
        let r0: u64 = (s0 % 0x1_0000_0000_0000_0000u128) as u64;
        let c0: u128 = s0 / 0x1_0000_0000_0000_0000u128;
        let s1: u128 = self.l1 as u128 + other.l1 as u128 + c0;
        let r1: u64 = (s1 % 0x1_0000_0000_0000_0000u128) as u64;
        let c1: u128 = s1 / 0x1_0000_0000_0000_0000u128;
        let s2: u128 = self.l2 as u128 + other.l2 as u128 + c1;
        let r2: u64 = (s2 % 0x1_0000_0000_0000_0000u128) as u64;
        let c2: u128 = s2 / 0x1_0000_0000_0000_0000u128;
        let s3: u128 = self.l3 as u128 + other.l3 as u128 + c2;
        let r3: u64 = (s3 % 0x1_0000_0000_0000_0000u128) as u64;
        let c3: u128 = s3 / 0x1_0000_0000_0000_0000u128;
        (U256 { l0: r0, l1: r1, l2: r2, l3: r3 }, c3 != 0)
    }

    /// Checked addition: `None` when the sum does not fit in 256 bits.
    pub fn checked_add(&self, other: &U256) -> (r: Option<U256>)
        ensures
            match r {
                Some(s) => s.as_nat() == self.as_nat() + other.as_nat(),
                None => self.as_nat() + other.as_nat()
                    >= 0x1_0000_0000_0000_0000_0000_0000_0000_0000_0000_0000_0000_0000_0000_0000_0000_0000,
            },
    {
        let (sum, carry) = self.add_with_carry(other);
        if carry {
            None
        } else {
            Some(sum)
        }
    }

    /// Strict comparison of the mathematical values.
    pub fn lt(&self, other: &U256) -> (r: bool)
        ensures
            r == (self.as_nat() < other.as_nat()),
    {
        if self.l3 != other.l3 {
            self.l3 < other.l3
        } else if self.l2 != other.l2 {
            self.l2 < other.l2
        } else if self.l1 != other.l1 {
            self.l1 < other.l1
        } else {
            self.l0 < other.l0
        }
    }

    /// Non-strict comparison of the mathematical values.
    pub fn le(&self, other: &U256) -> (r: bool)
        ensures
            r == (self.as_nat() <= other.as_nat()),
    {
        !other.lt(self)
    }

    /// Checked multiplication by a 64-bit factor: `None` when the product
    /// does not fit in 256 bits.
    pub fn mul_u64(&self, m: u64) -> (r: Option<U256>)
        ensures
            match r {
                Some(p) => p.as_nat() == self.as_nat() * m,
                None => self.as_nat() * m
                    >= 0x1_0000_0000_0000_0000_0000_0000_0000_0000_0000_0000_0000_0000_0000_0000_0000_0000,
            },
    {
        let mm: u128 = m as u128;
        proof {
            lemma_limb_mul_bound(self.l0, m);
            lemma_limb_mul_bound(self.l1, m);
            lemma_limb_mul_bound(self.l2, m);
            lemma_limb_mul_bound(self.l3, m);
        }
        let p0: u128 = self.l0 as u128 * mm;
        let r0: u64 = (p0 % 0x1_0000_0000_0000_0000u128) as u64;
        let c0: u128 = p0 / 0x1_0000_0000_0000_0000u128;
        let p1: u128 = self.l1 as u128 * mm + c0;
        let r1: u64 = (p1 % 0x1_0000_0000_0000_0000u128) as u64;
        let c1: u128 = p1 / 0x1_0000_0000_0000_0000u128;
        let p2: u128 = self.l2 as u128 * mm + c1;
        let r2: u64 = (p2 % 0x1_0000_0000_0000_0000u128) as u64;
        let c2: u128 = p2 / 0x1_0000_0000_0000_0000u128;
        let p3: u128 = self.l3 as u128 * mm + c2;
        let r3: u64 = (p3 % 0x1_0000_0000_0000_0000u128) as u64;
        let c3: u128 = p3 / 0x1_0000_0000_0000_0000u128;
        let prod = U256 { l0: r0, l1: r1, l2: r2, l3: r3 };
        proof {
            lemma_mul_limbs_value(*self, m, p0 as int, p1 as int, p2 as int, p3 as int,
                c0 as int, c1 as int, c2 as int, c3 as int, prod);
        }
        if c3 != 0 {
            None
        } else {
            Some(prod)
        }
    }
}

impl U256 {
    /// Subtraction modulo 2^256 together with the borrow out of the top limb.
    pub fn sub_with_borrow(&self, other: &U256) -> (r: (U256, bool))
        ensures
            r.0.as_nat() == self.as_nat() - other.as_nat() + (if r.1 { 0x1_0000_0000_0000_0000_0000_0000_0000_0000_0000_0000_0000_0000_0000_0000_0000_0000nat } else { 0nat }),
    {
        let d0: u128 = 0x1_0000_0000_0000_0000u128 + self.l0 as u128 - other.l0 as u128;
        let r0: u64 = (d0 % 0x1_0000_0000_0000_0000u128) as u64;
        let b0: u128 = 1 - d0 / 0x1_0000_0000_0000_0000u128;
        let d1: u128 = 0x1_0000_0000_0000_0000u128 + self.l1 as u128 - other.l1 as u128 - b0;
        let r1: u64 = (d1 % 0x1_0000_0000_0000_0000u128) as u64;
        let b1: u128 = 1 - d1 / 0x1_0000_0000_0000_0000u128;
        let d2: u128 = 0x1_0000_0000_0000_0000u128 + self.l2 as u128 - other.l2 as u128 - b1;
        let r2: u64 = (d2 % 0x1_0000_0000_0000_0000u128) as u64;
        let b2: u128 = 1 - d2 / 0x1_0000_0000_0000_0000u128;
        let d3: u128 = 0x1_0000_0000_0000_0000u128 + self.l3 as u128 - other.l3 as u128 - b2;
        let r3: u64 = (d3 % 0x1_0000_0000_0000_0000u128) as u64;
        let b3: u128 = 1 - d3 / 0x1_0000_0000_0000_0000u128;
        (U256 { l0: r0, l1: r1, l2: r2, l3: r3 }, b3 != 0)
    }
}

/// A signed 256-bit integer in two's complement over [`U256`] limbs.
///
/// In the fee model a negative value is a profit and a non-negative
/// value is a cost for the relayer.
#[derive(Clone, Copy, PartialEq, Eq, Structural, Debug)]
pub struct I256 {
    pub rep: U256,
}

impl I256 {
    /// The mathematical value: two's complement of the unsigned limbs.
    pub open spec fn as_int(self) -> int {
        if self.rep.l3 >= 0x8000_0000_0000_0000 {
            self.rep.as_nat()
                - 0x1_0000_0000_0000_0000_0000_0000_0000_0000_0000_0000_0000_0000_0000_0000_0000_0000
        } else {
            self.rep.as_nat() as int
        }
    }

    /// The top limb's sign bit is set exactly when the unsigned value is
    /// at least 2^255, i.e. when the signed value is negative.
    pub proof fn lemma_sign(self)
        ensures
            (self.rep.l3 >= 0x8000_0000_0000_0000) <==> (self.rep.as_nat()
                >= 0x8000_0000_0000_0000_0000_0000_0000_0000_0000_0000_0000_0000_0000_0000_0000_0000),
            (self.rep.l3 >= 0x8000_0000_0000_0000) <==> (self.as_int() < 0),
            -0x8000_0000_0000_0000_0000_0000_0000_0000_0000_0000_0000_0000_0000_0000_0000_0000
                <= self.as_int()
                < 0x8000_0000_0000_0000_0000_0000_0000_0000_0000_0000_0000_0000_0000_0000_0000_0000,
    {
    }

    pub fn zero() -> (r: I256)
        ensures
            r.as_int() == 0,
    {
        I256 { rep: U256 { l0: 0, l1: 0, l2: 0, l3: 0 } }
    }

    pub fn from_u64(v: u64) -> (r: I256)
        ensures
            r.as_int() == v,
    {
        I256 { rep: U256 { l0: v, l1: 0, l2: 0, l3: 0 } }
    }

    /// Conversion from the unsigned type; fails explicitly when the value
    /// exceeds the signed range.
    pub fn try_from_u256(u: &U256) -> (r: Option<I256>)
        ensures
            match r {
                Some(i) => i.as_int() == u.as_nat(),
                None => u.as_nat()
                    >= 0x8000_0000_0000_0000_0000_0000_0000_0000_0000_0000_0000_0000_0000_0000_0000_0000,
            },
    {
        if u.l3 < 0x8000_0000_0000_0000 {
            Some(I256 { rep: *u })
        } else {
            None
        }
    }

    /// Whether the value is strictly below zero, i.e. a profit.
    pub fn is_negative(&self) -> (r: bool)
        ensures
            r == (self.as_int() < 0),
    {
        proof {
            self.lemma_sign();
        }
        self.rep.l3 >= 0x8000_0000_0000_0000
    }

    /// Checked addition: `None` when the sum leaves the signed range.
    pub fn checked_add(&self, other: &I256) -> (r: Option<I256>)
        ensures
            match r {
                Some(s) => s.as_int() == self.as_int() + other.as_int(),
                None => self.as_int() + other.as_int()
                    < -0x8000_0000_0000_0000_0000_0000_0000_0000_0000_0000_0000_0000_0000_0000_0000_0000
                    || self.as_int() + other.as_int()
                    >= 0x8000_0000_0000_0000_0000_0000_0000_0000_0000_0000_0000_0000_0000_0000_0000_0000,
            },
    {
        let sa = self.rep.l3 >= 0x8000_0000_0000_0000;
        let sb = other.rep.l3 >= 0x8000_0000_0000_0000;
        let (sum, _carry) = self.rep.add_with_carry(&other.rep);
        let sr = sum.l3 >= 0x8000_0000_0000_0000;
        let out = I256 { rep: sum };
        proof {
            self.lemma_sign();
            other.lemma_sign();
            out.lemma_sign();
        }
        if sa == sb && sr != sa {
            None
        } else {
            Some(out)
        }
    }

    /// Checked subtraction: `None` when the difference leaves the signed
    /// range.
    pub fn checked_sub(&self, other: &I256) -> (r: Option<I256>)
        ensures
            match r {
                Some(s) => s.as_int() == self.as_int() - other.as_int(),
                None => self.as_int() - other.as_int()
                    < -0x8000_0000_0000_0000_0000_0000_0000_0000_0000_0000_0000_0000_0000_0000_0000_0000
                    || self.as_int() - other.as_int()
                    >= 0x8000_0000_0000_0000_0000_0000_0000_0000_0000_0000_0000_0000_0000_0000_0000_0000,
            },
    {
        let sa = self.rep.l3 >= 0x8000_0000_0000_0000;
        let sb = other.rep.l3 >= 0x8000_0000_0000_0000;
        let (diff, _borrow) = self.rep.sub_with_borrow(&other.rep);
        let sr = diff.l3 >= 0x8000_0000_0000_0000;
        let out = I256 { rep: diff };
        proof {
            self.lemma_sign();
            other.lemma_sign();
            out.lemma_sign();
        }
        if sa != sb && sr != sa {
            None
        } else {
            Some(out)
        }
    }

    /// Non-strict signed comparison.
    pub fn le(&self, other: &I256) -> (r: bool)
        ensures
            r == (self.as_int() <= other.as_int()),
    {
        let sa = self.rep.l3 >= 0x8000_0000_0000_0000;
        let sb = other.rep.l3 >= 0x8000_0000_0000_0000;
        proof {
            self.lemma_sign();
            other.lemma_sign();
        }
        if sa != sb {
            sa
        } else {
            self.rep.le(&other.rep)
        }
    }
}

/// The product of two 64-bit values is below 2^128 - 2^64, so a carry
/// below 2^64 can be added without overflowing 128 bits.
proof fn lemma_limb_mul_bound(a: u64, b: u64)
    ensures
        (a as int) * (b as int) <= 0xffff_ffff_ffff_fffe_0000_0000_0000_0001,
{
    assert((a as int) * (b as int) <= 0xffff_ffff_ffff_ffff * 0xffff_ffff_ffff_ffff)
        by (nonlinear_arith)
        requires
            0 <= a <= 0xffff_ffff_ffff_ffff,
            0 <= b <= 0xffff_ffff_ffff_ffff,
    ;
}

/// Relates the limb-by-limb products and carries of a 256 x 64 bit
/// multiplication to the mathematical product.
proof fn lemma_mul_limbs_value(
    a: U256,
    m: u64,
    p0: int,
    p1: int,
    p2: int,
    p3: int,
    c0: int,
    c1: int,
    c2: int,
    c3: int,
    prod: U256,
)
    requires
        p0 == a.l0 * m,
        p1 == a.l1 * m + c0,
        p2 == a.l2 * m + c1,
        p3 == a.l3 * m + c2,
        c0 == p0 / 0x1_0000_0000_0000_0000,
        c1 == p1 / 0x1_0000_0000_0000_0000,
        c2 == p2 / 0x1_0000_0000_0000_0000,
        c3 == p3 / 0x1_0000_0000_0000_0000,
        prod.l0 == p0 % 0x1_0000_0000_0000_0000,
        prod.l1 == p1 % 0x1_0000_0000_0000_0000,
        prod.l2 == p2 % 0x1_0000_0000_0000_0000,
        prod.l3 == p3 % 0x1_0000_0000_0000_0000,
    ensures
        prod.as_nat() + c3
            * 0x1_0000_0000_0000_0000_0000_0000_0000_0000_0000_0000_0000_0000_0000_0000_0000_0000
            == a.as_nat() * m,
        c3 != 0 ==> a.as_nat() * m
            >= 0x1_0000_0000_0000_0000_0000_0000_0000_0000_0000_0000_0000_0000_0000_0000_0000_0000,
{
    let w: int = 0x1_0000_0000_0000_0000;
    let v: int = a.as_nat() as int;
    assert(v == a.l0 + a.l1 * w + a.l2 * (w * w) + a.l3 * (w * w * w));
    assert(v * m == a.l0 * m + (a.l1 * m) * w + (a.l2 * m) * (w * w) + (a.l3 * m) * (w * w * w))
        by (nonlinear_arith)
        requires
            v == a.l0 + a.l1 * w + a.l2 * (w * w) + a.l3 * (w * w * w),
    ;
    assert(p0 == prod.l0 + c0 * w);
    assert(p1 == prod.l1 + c1 * w);
    assert(p2 == prod.l2 + c2 * w);
    assert(p3 == prod.l3 + c3 * w);
    assert((a.l1 * m) * w == (p1 - c0) * w) by (nonlinear_arith)
        requires
            a.l1 * m == p1 - c0,
    ;
    assert((a.l2 * m) * (w * w) == (p2 - c1) * (w * w)) by (nonlinear_arith)
        requires
            a.l2 * m == p2 - c1,
    ;
    assert((a.l3 * m) * (w * w * w) == (p3 - c2) * (w * w * w)) by (nonlinear_arith)
        requires
            a.l3 * m == p3 - c2,
    ;
    assert((p1 - c0) * w == p1 * w - c0 * w) by (nonlinear_arith);
    assert((p2 - c1) * (w * w) == p2 * (w * w) - c1 * (w * w)) by (nonlinear_arith);
    assert((p3 - c2) * (w * w * w) == p3 * (w * w * w) - c2 * (w * w * w)) by (nonlinear_arith);
    assert(p1 * w == prod.l1 * w + (c1 * w) * w) by (nonlinear_arith)
        requires
            p1 == prod.l1 + c1 * w,
    ;
    assert(p2 * (w * w) == prod.l2 * (w * w) + (c2 * w) * (w * w)) by (nonlinear_arith)
        requires
            p2 == prod.l2 + c2 * w,
    ;
    assert(p3 * (w * w * w) == prod.l3 * (w * w * w) + (c3 * w) * (w * w * w)) by (nonlinear_arith)
        requires
            p3 == prod.l3 + c3 * w,
    ;
    assert((c1 * w) * w == c1 * (w * w)) by (nonlinear_arith);
    assert((c2 * w) * (w * w) == c2 * (w * w * w)) by (nonlinear_arith);
    assert((c3 * w) * (w * w * w) == c3 * (w * w * w * w)) by (nonlinear_arith);
}

} // verus!

