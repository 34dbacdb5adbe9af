//! Signed fixed-point numbers with saturating arithmetic.

use vstd::prelude::*;
use crate::scalar::Scalar;

verus! {

/// The raw value of the number one: two to the power of the fraction bits.
pub const ONE_RAW: i64 = 16777216;

/// A signed fixed-point number with 24 fraction bits.
///
/// The number stands for `raw / 2^24`. Results that leave the range of `i64`
/// saturate at its ends, and results between two representable numbers are
/// rounded down.
#[derive(Clone, Copy, Debug, PartialEq, Eq, Structural)]
pub struct Fixed {
    pub raw: i64,
}

impl Fixed {
    /// The `i64` nearest to `v`.
    pub open spec fn saturate(v: int) -> i64 {
        if v > i64::MAX {
            i64::MAX
        } else if v < i64::MIN {
            i64::MIN
        } else {
            v as i64
        }
    }

    /// The end of the range on the side of `sign`, or zero where `sign` is zero.
    pub open spec fn extreme(sign: int) -> i64 {
        if sign > 0 {
            i64::MAX
        } else if sign < 0 {
            i64::MIN
        } else {
            0
        }
    }

    /// Whether `r` is the integer square root of `n`.
    pub open spec fn is_root(n: nat, r: nat) -> bool {
        r * r <= n < (r + 1) * (r + 1)
    }

    /// The integer square root of `n`.
    pub open spec fn floor_root(n: nat) -> nat {
        choose|r: nat| Self::is_root(n, r)
    }

    /// The square root of `self`, rounded down; zero for a negative number.
    pub open spec fn root(self) -> Fixed {
        if self.raw <= 0 {
            Fixed { raw: 0 }
        } else {
            Fixed { raw: Self::floor_root((self.raw * ONE_RAW) as nat) as i64 }
        }
    }

    /// `self` multiplied `n` times into one.
    pub open spec fn whole_power(self, n: nat) -> Fixed
        decreases n,
    {
        if n == 0 {
            Fixed { raw: ONE_RAW }
        } else {
            self.whole_power((n - 1) as nat).product(self)
        }
    }

    fn narrow(wide: i128) -> (out: Fixed)
        ensures
            out.raw == Self::saturate(wide as int),
    {
        if wide > i64::MAX as i128 {
            Fixed { raw: i64::MAX }
        } else if wide < i64::MIN as i128 {
            Fixed { raw: i64::MIN }
        } else {
            Fixed { raw: wide as i64 }
        }
    }

    fn end_of_range(sign: i64) -> (out: Fixed)
        ensures
            out.raw == Self::extreme(sign as int),
    {
        if sign > 0 {
            Fixed { raw: i64::MAX }
        } else if sign < 0 {
            Fixed { raw: i64::MIN }
        } else {
            Fixed { raw: 0 }
        }
    }

    proof fn lemma_root_unique(n: nat, r: nat, s: nat)
        requires
            Self::is_root(n, r),
            Self::is_root(n, s),
        ensures
            r == s,
    {
        if r < s {
            assert((r + 1) * (r + 1) <= s * s) by (nonlinear_arith)
                requires
                    r + 1 <= s,
            ;
        } else if s < r {
            assert((s + 1) * (s + 1) <= r * r) by (nonlinear_arith)
                requires
                    s + 1 <= r,
            ;
        }
    }

    /// The square root of `self`, rounded down; zero for a negative number.
    pub fn sqrt(self) -> (out: Fixed)
        ensures
            out == self.root(),
    {
        if self.raw <= 0 {
            return Fixed { raw: 0 };
        }
        let n: u128 = self.raw as u128 * ONE_RAW as u128;
        let mut lo: u128 = 0;
        let mut hi: u128 = 17592186044416;
        assert(n < hi * hi) by (nonlinear_arith)
            requires
                n == self.raw * 16777216,
                self.raw <= i64::MAX,
                hi == 17592186044416,
        ;
        while hi - lo > 1
            invariant
                lo < hi <= 17592186044416,
                lo * lo <= n < hi * hi,
            decreases hi - lo,
        {
            let mid: u128 = lo + (hi - lo) / 2;
            assert(mid * mid <= 17592186044416 * 17592186044416) by (nonlinear_arith)
                requires
                    mid <= 17592186044416,
            ;
            if mid * mid <= n {
                lo = mid;
            } else {
                hi = mid;
            }
        }
        proof {
            assert(Self::is_root(n as nat, lo as nat));
            Self::lemma_root_unique(n as nat, lo as nat, Self::floor_root(n as nat));
        }
        Fixed { raw: lo as i64 }
    }
}

impl Scalar for Fixed {
    open spec fn of_int(n: i128) -> Self {
        Fixed { raw: Self::saturate(n * ONE_RAW) }
    }

    open spec fn sum(self, rhs: Self) -> Self {
        Fixed { raw: Self::saturate(self.raw + rhs.raw) }
    }

    open spec fn difference(self, rhs: Self) -> Self {
        Fixed { raw: Self::saturate(self.raw - rhs.raw) }
    }

    open spec fn product(self, rhs: Self) -> Self {
        Fixed { raw: Self::saturate((self.raw * rhs.raw) / (ONE_RAW as int)) }
    }

    open spec fn quotient(self, rhs: Self) -> Self {
        if rhs.raw == 0 {
            Fixed { raw: Self::extreme(self.raw as int) }
        } else {
            Fixed { raw: Self::saturate((self.raw * ONE_RAW) / (rhs.raw as int)) }
        }
    }

    open spec fn power(self, halves: u32) -> Self {
        if halves % 2 == 0 {
            self.whole_power((halves / 2) as nat)
        } else {
            self.whole_power((halves / 2) as nat).product(self.root())
        }
    }

    open spec fn positive_part(self) -> Self {
        if self.raw > 0 {
            self
        } else {
            Fixed { raw: 0 }
        }
    }

    open spec fn vanishes(self) -> bool {
        self.raw == 0
    }

    open spec fn non_negative(self) -> bool {
        self.raw >= 0
    }

    fn from_int(n: i128) -> (out: Self) {
        match n.checked_mul(ONE_RAW as i128) {
            Some(wide) => Self::narrow(wide),
            None => Self::end_of_range(if n > 0 { 1 } else { -1 }),
        }
    }

    fn add(self, rhs: Self) -> (out: Self) {
        Self::narrow(self.raw as i128 + rhs.raw as i128)
    }

    fn sub(self, rhs: Self) -> (out: Self) {
        Self::narrow(self.raw as i128 - rhs.raw as i128)
    }

    fn mul(self, rhs: Self) -> (out: Self) {
        let a: i128 = self.raw as i128;
        let b: i128 = rhs.raw as i128;
        assert(-0x4000_0000_0000_0000_0000_0000_0000_0000 <= a * b
            <= 0x4000_0000_0000_0000_0000_0000_0000_0000) by (nonlinear_arith)
            requires
                -0x8000_0000_0000_0000 <= a <= 0x8000_0000_0000_0000,
                -0x8000_0000_0000_0000 <= b <= 0x8000_0000_0000_0000,
        ;
        let wide: i128 = a * b;
        match wide.checked_div_euclid(ONE_RAW as i128) {
            Some(q) => Self::narrow(q),
            None => {
                proof {
                    assert(i128::MIN <= wide / 16777216 <= i128::MAX) by (nonlinear_arith)
                        requires
                            i128::MIN <= wide <= i128::MAX,
                    ;
                }
                Fixed { raw: 0 }
            },
        }
    }

    fn div(self, rhs: Self) -> (out: Self) {
        if rhs.raw == 0 {
            return Self::end_of_range(self.raw);
        }
        let a: i128 = self.raw as i128;
        assert(-0x80_0000_0000_0000_0000_0000 <= a * 16777216 <= 0x80_0000_0000_0000_0000_0000);
        let wide: i128 = a * 16777216;
        match wide.checked_div_euclid(rhs.raw as i128) {
            Some(q) => Self::narrow(q),
            None => {
                proof {
                    let d = rhs.raw as int;
                    let w = wide as int;
                    assert(i128::MIN <= w / d <= i128::MAX) by (nonlinear_arith)
                        requires
                            d != 0,
                            -0x80_0000_0000_0000_0000_0000 <= w <= 0x80_0000_0000_0000_0000_0000,
                    ;
                }
                Fixed { raw: 0 }
            },
        }
    }

    fn pow_halves(self, halves: u32) -> (out: Self) {
        let whole: u32 = halves / 2;
        let mut acc = Fixed { raw: ONE_RAW };
        let mut i: u32 = 0;
        while i < whole
            invariant
                i <= whole,
                acc == self.whole_power(i as nat),
            decreases whole - i,
        {
            acc = acc.mul(self);
            i += 1;
        }
        if halves % 2 == 0 {
            acc
        } else {
            acc.mul(self.sqrt())
        }
    }

    fn max_zero(self) -> (out: Self) {
        if self.raw > 0 {
            self
        } else {
            Fixed { raw: 0 }
        }
    }

    fn is_zero(self) -> (out: bool) {
        self.raw == 0
    }

    fn is_non_negative(self) -> (out: bool) {
        self.raw >= 0
    }
}

} // verus!
