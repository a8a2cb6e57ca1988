//! Amounts of value: unsigned 256-bit integers.

use vstd::prelude::*;

verus! {

/// Two to the power 128.
pub open spec fn pow2_128() -> int {
    0x1_0000_0000_0000_0000_0000_0000_0000_0000int
}

/// Two to the power 256.
pub open spec fn pow2_256() -> int {
    pow2_128() * pow2_128()
}

/// An unsigned 256-bit integer, held as its upper and lower 128 bits.
#[derive(Clone, Copy, Debug, PartialEq, Eq, Structural)]
pub struct U256 {
    pub hi: u128,
    pub lo: u128,
}

impl View for U256 {
    type V = nat;

    /// The number that the 256 bits spell.
    open spec fn view(&self) -> nat {
        (self.hi * pow2_128() + self.lo) as nat
    }
}

impl U256 {
    /// The amount that spells `n`, for `n` below two to the power 256.
    pub open spec fn of_nat(n: nat) -> U256 {
        U256 { hi: (n / (pow2_128() as nat)) as u128, lo: (n % (pow2_128() as nat)) as u128 }
    }

    /// `self - rhs`, or `None` where `rhs` is the larger.
    pub open spec fn spec_checked_sub(self, rhs: U256) -> Option<U256> {
        if self@ >= rhs@ {
            Some(U256::of_nat((self@ - rhs@) as nat))
        } else {
            None
        }
    }

    /// `self + rhs` reduced modulo two to the power 256.
    pub open spec fn spec_wrapping_add(self, rhs: U256) -> U256 {
        if self@ + rhs@ < pow2_256() {
            U256::of_nat(self@ + rhs@)
        } else {
            U256::of_nat((self@ + rhs@ - pow2_256()) as nat)
        }
    }

    /// An amount is the amount that spells its number.
    pub proof fn lemma_of_nat_of_view(self)
        ensures
            U256::of_nat(self@) == self,
    {
        let p = pow2_128();
        assert(self@ == self.hi * p + self.lo);
        assert((self.hi * p + self.lo) / p == self.hi && (self.hi * p + self.lo) % p == self.lo)
            by (nonlinear_arith)
            requires
                0 <= self.lo < p,
                0 <= self.hi,
                p > 0,
        ;
    }

    /// The amount that spells `n` has the number `n`.
    pub proof fn lemma_view_of_nat(n: nat)
        requires
            n < pow2_256(),
        ensures
            U256::of_nat(n)@ == n,
    {
        let p = pow2_128();
        assert(n / (p as nat) < p && (n / (p as nat)) * p + n % (p as nat) == n && 0 <= n % (
        p as nat) < p) by (nonlinear_arith)
            requires
                0 <= n < p * p,
                p > 0,
        ;
    }

    /// The number with the given upper and lower halves.
    pub fn new(hi: u128, lo: u128) -> (n: U256)
        ensures
            n.hi == hi,
            n.lo == lo,
    {
        U256 { hi, lo }
    }

    /// Zero.
    pub fn zero() -> (n: U256)
        ensures
            n == (U256 { hi: 0, lo: 0 }),
            n@ == 0,
    {
        U256 { hi: 0, lo: 0 }
    }

    /// The 256-bit number equal to `x`.
    pub fn from_u128(x: u128) -> (n: U256)
        ensures
            n == (U256 { hi: 0, lo: x }),
            n@ == x,
    {
        U256 { hi: 0, lo: x }
    }

    /// The 256-bit number equal to `x`.
    pub fn from_usize(x: usize) -> (n: U256)
        ensures
            n == U256::of_nat(x as nat),
            n@ == x,
    {
        let n = U256 { hi: 0, lo: x as u128 };
        proof {
            n.lemma_of_nat_of_view();
        }
        n
    }

    /// Whether `self` is below `other`.
    pub fn lt(&self, other: &U256) -> (below: bool)
        ensures
            below == (self@ < other@),
    {
        self.hi < other.hi || (self.hi == other.hi && self.lo < other.lo)
    }

    /// `self - rhs`, or `None` where `rhs` is the larger.
    pub fn checked_sub(&self, rhs: &U256) -> (difference: Option<U256>)
        ensures
            difference == self.spec_checked_sub(*rhs),
            self@ >= rhs@ ==> (difference matches Some(d) && d@ == self@ - rhs@),
            self@ < rhs@ ==> difference is None,
    {
        if self.lt(rhs) {
            None
        } else {
            let d = if self.lo >= rhs.lo {
                U256 { hi: self.hi - rhs.hi, lo: self.lo - rhs.lo }
            } else {
                U256 { hi: self.hi - rhs.hi - 1, lo: self.lo + (u128::MAX - rhs.lo) + 1 }
            };
            proof {
                d.lemma_of_nat_of_view();
            }
            Some(d)
        }
    }

    /// `self + rhs` reduced modulo two to the power 256.
    pub fn wrapping_add(&self, rhs: &U256) -> (sum: U256)
        ensures
            sum == self.spec_wrapping_add(*rhs),
            self@ + rhs@ < pow2_256() ==> sum@ == self@ + rhs@,
            self@ + rhs@ >= pow2_256() ==> sum@ == self@ + rhs@ - pow2_256(),
    {
        let (lo, carry): (u128, bool) = if self.lo > u128::MAX - rhs.lo {
            (self.lo - (u128::MAX - rhs.lo) - 1, true)
        } else {
            (self.lo + rhs.lo, false)
        };
        let hi_sum: u128 = self.hi.wrapping_add(rhs.hi);
        let hi: u128 = if carry {
            hi_sum.wrapping_add(1)
        } else {
            hi_sum
        };
        let sum = U256 { hi, lo };
        proof {
            sum.lemma_of_nat_of_view();
        }
        sum
    }
}

} // verus!
