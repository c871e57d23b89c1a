//! Signed fixed-point scalars with sixteen fractional bits.

use vstd::prelude::*;

verus! {

/// The raw representation of `1.0`.
pub const ONE: i32 = 65536;

/// A signed fixed-point number: the value it stands for is `raw / 65536`.
#[derive(Clone, Copy, Debug, PartialEq, Eq, Structural)]
pub struct Fixed {
    pub raw: i32,
}

/// `v` clamped to the range of raw representations.
pub open spec fn clamp_raw(v: int) -> int {
    if v < i32::MIN {
        i32::MIN as int
    } else if v > i32::MAX {
        i32::MAX as int
    } else {
        v
    }
}

/// Quotient of `a` by a positive `b`, rounded toward zero.
pub open spec fn div_toward_zero(a: int, b: int) -> int
    recommends
        b > 0,
{
    if a >= 0 {
        a / b
    } else {
        -((-a) / b)
    }
}

impl Fixed {
    /// The number divided by a positive count, rounded toward zero.
    pub open spec fn spec_div_count(self, n: usize) -> Fixed
        recommends
            n > 0,
    {
        Fixed { raw: div_toward_zero(self.raw as int, n as int) as i32 }
    }

    /// The reciprocal, rounded toward zero and clamped to the representable
    /// range; the largest representable number for zero.
    pub open spec fn spec_recip(self) -> Fixed {
        if self.raw > 0 {
            Fixed { raw: clamp_raw(4294967296int / (self.raw as int)) as i32 }
        } else if self.raw < 0 {
            Fixed { raw: clamp_raw(-(4294967296int / (-(self.raw as int)))) as i32 }
        } else {
            Fixed { raw: i32::MAX }
        }
    }

    /// The number with the given raw representation.
    pub fn from_raw(raw: i32) -> (r: Fixed)
        ensures
            r.raw == raw,
    {
        Fixed { raw }
    }

    /// The whole number `n`, exactly.
    pub fn from_int(n: i16) -> (r: Fixed)
        ensures
            r.raw == n * 65536,
    {
        let wide: i32 = n as i32;
        Fixed { raw: wide * ONE }
    }

    /// Zero.
    pub fn zero() -> (r: Fixed)
        ensures
            r.raw == 0,
    {
        Fixed { raw: 0 }
    }

    /// One.
    pub fn one() -> (r: Fixed)
        ensures
            r.raw == 65536,
    {
        Fixed { raw: ONE }
    }

    /// Whether the number is strictly greater than zero.
    pub fn is_positive(&self) -> (r: bool)
        ensures
            r == (self.raw > 0),
    {
        self.raw > 0
    }

    /// Whether `self <= rhs`.
    pub fn le(&self, rhs: &Fixed) -> (r: bool)
        ensures
            r == (self.raw <= rhs.raw),
    {
        self.raw <= rhs.raw
    }

    /// The sum, clamped to the representable range.
    pub fn saturating_add(self, rhs: Fixed) -> (r: Fixed)
        ensures
            r.raw == clamp_raw(self.raw + rhs.raw),
    {
        let sum: i64 = self.raw as i64 + rhs.raw as i64;
        if sum < i32::MIN as i64 {
            Fixed { raw: i32::MIN }
        } else if sum > i32::MAX as i64 {
            Fixed { raw: i32::MAX }
        } else {
            Fixed { raw: sum as i32 }
        }
    }

    /// The number divided by a positive count, rounded toward zero.
    pub fn div_count(self, n: usize) -> (r: Fixed)
        requires
            n > 0,
        ensures
            r == self.spec_div_count(n),
    {
        let d: u64 = n as u64;
        if self.raw >= 0 {
            let q: u64 = (self.raw as u64) / d;
            Fixed { raw: q as i32 }
        } else {
            let m: u64 = (-(self.raw as i64)) as u64;
            let q: u64 = m / d;
            Fixed { raw: (-(q as i64)) as i32 }
        }
    }

    /// The reciprocal, rounded toward zero and clamped to the representable
    /// range.  The reciprocal of zero is the largest representable number.
    pub fn recip(self) -> (r: Fixed)
        ensures
            r == self.spec_recip(),
    {
        let unit: i64 = 4294967296;
        if self.raw > 0 {
            let q: i64 = unit / (self.raw as i64);
            if q > i32::MAX as i64 {
                Fixed { raw: i32::MAX }
            } else {
                Fixed { raw: q as i32 }
            }
        } else if self.raw < 0 {
            let m: i64 = -(self.raw as i64);
            let q: i64 = unit / m;
            if q > 2147483648 {
                Fixed { raw: i32::MIN }
            } else {
                Fixed { raw: (-q) as i32 }
            }
        } else {
            Fixed { raw: i32::MAX }
        }
    }
}

} // verus!
