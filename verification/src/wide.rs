//! Unsigned 256-bit integers, for sums and products that outgrow `u128`.

use vstd::prelude::*;

verus! {

/// Two to the power 64.
pub const BASE: u128 = 0x1_0000_0000_0000_0000;

/// Two to the power 128.
pub open spec fn pow128() -> nat {
    0x1_0000_0000_0000_0000_0000_0000_0000_0000nat
}

/// Two to the power 256.
pub open spec fn pow256() -> nat {
    0x1_0000_0000_0000_0000_0000_0000_0000_0000_0000_0000_0000_0000_0000_0000_0000_0000nat
}

/// The number `hi * 2^128 + lo`.
#[derive(Clone, Copy, Debug, PartialEq, Eq, Structural)]
pub struct Wide {
    pub hi: u128,
    pub lo: u128,
}

impl View for Wide {
    type V = nat;

    open spec fn view(&self) -> nat {
        self.hi as nat * pow128() + self.lo as nat
    }
}

impl Wide {
    pub fn zero() -> (w: Wide)
        ensures
            w@ == 0,
    {
        Wide { hi: 0, lo: 0 }
    }

    pub fn from_u128(x: u128) -> (w: Wide)
        ensures
            w@ == x,
    {
        Wide { hi: 0, lo: x }
    }

    /// The full product of two 128-bit numbers.
    #[verifier::rlimit(50)]
    pub fn product(a: u128, b: u128) -> (w: Wide)
        ensures
            w@ == a * b,
    {
        let ah = a / BASE;
        let al = a % BASE;
        let bh = b / BASE;
        let bl = b % BASE;
        proof {
            lemma_limb_product(al, bl);
            lemma_limb_product(al, bh);
            lemma_limb_product(ah, bl);
            lemma_limb_product(ah, bh);
        }
        let low = al * bl;
        let left = al * bh;
        let right = ah * bl;
        let high = ah * bh;
        let m = low / BASE + left % BASE + right % BASE;
        let lo = low % BASE + (m % BASE) * BASE;
        let hi = high + left / BASE + right / BASE + m / BASE;
        proof {
            let k: int = 0x1_0000_0000_0000_0000;
            let kk: int = 0x1_0000_0000_0000_0000_0000_0000_0000_0000int;
            let (ah, al, bh, bl) = (ah as int, al as int, bh as int, bl as int);
            assert(a * b == (ah * k) * b + al * b) by (nonlinear_arith)
                requires
                    a == ah * k + al,
            ;
            assert((ah * k) * b == (ah * k) * (bh * k) + (ah * k) * bl) by (nonlinear_arith)
                requires
                    b == bh * k + bl,
            ;
            assert(al * b == al * (bh * k) + al * bl) by (nonlinear_arith)
                requires
                    b == bh * k + bl,
            ;
            assert((ah * k) * (bh * k) == (ah * bh) * kk) by (nonlinear_arith)
                requires
                    kk == k * k,
            ;
            assert((ah * k) * bl == (ah * bl) * k) by (nonlinear_arith);
            assert(al * (bh * k) == (al * bh) * k) by (nonlinear_arith);
            assert(a * b == high * kk + left * k + right * k + low);
            let c = (m / BASE) as int;
            let r = (m % BASE) as int;
            assert(m == c * 0x1_0000_0000_0000_0000 + r);
            assert(left == (left / BASE) * 0x1_0000_0000_0000_0000 + left % BASE);
            assert(right == (right / BASE) * 0x1_0000_0000_0000_0000 + right % BASE);
            assert(low == (low / BASE) * 0x1_0000_0000_0000_0000 + low % BASE);
            assert(hi * 0x1_0000_0000_0000_0000_0000_0000_0000_0000 + lo == high
                * 0x1_0000_0000_0000_0000_0000_0000_0000_0000 + left * 0x1_0000_0000_0000_0000
                + right * 0x1_0000_0000_0000_0000 + low);
        }
        Wide { hi, lo }
    }

    /// The sum of two numbers, where it fits.
    pub fn plus(self, other: Wide) -> (w: Wide)
        requires
            self@ + other@ < pow256(),
        ensures
            w@ == self@ + other@,
    {
        if self.lo > u128::MAX - other.lo {
            Wide { hi: self.hi + other.hi + 1, lo: self.lo - (u128::MAX - other.lo) - 1 }
        } else {
            Wide { hi: self.hi + other.hi, lo: self.lo + other.lo }
        }
    }

    /// The difference of two numbers, where it is not negative.
    pub fn minus(self, other: Wide) -> (w: Wide)
        requires
            self@ >= other@,
        ensures
            w@ == self@ - other@,
    {
        if self.lo >= other.lo {
            Wide { hi: self.hi - other.hi, lo: self.lo - other.lo }
        } else {
            Wide { hi: self.hi - other.hi - 1, lo: u128::MAX - other.lo + self.lo + 1 }
        }
    }
}

/// The product of two numbers below `2^64` is at most `(2^64 - 1)^2`.
pub proof fn lemma_limb_product(x: u128, y: u128)
    requires
        x < BASE,
        y < BASE,
    ensures
        x * y <= 0xFFFF_FFFF_FFFF_FFFE_0000_0000_0000_0001,
{
    assert(x * y <= 0xFFFF_FFFF_FFFF_FFFF * 0xFFFF_FFFF_FFFF_FFFF) by (nonlinear_arith)
        requires
            0 <= x <= 0xFFFF_FFFF_FFFF_FFFF,
            0 <= y <= 0xFFFF_FFFF_FFFF_FFFF,
    ;
}

} // verus!
