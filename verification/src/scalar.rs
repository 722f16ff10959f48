//! Single-precision scene quantities held by their IEEE-754 bit pattern.
//!
//! The library never performs arithmetic on these values; it only compares
//! them (thresholds, finish lines, checkpoint heights, time limits) and
//! carries them through unchanged.  Holding the bit pattern keeps the value
//! exact, and the comparisons below follow IEEE-754 ordering: every
//! comparison involving a NaN is false, and `-0.0` equals `+0.0`.
use vstd::prelude::*;

verus! {

/// A binary32 value stored as its bit pattern.
#[derive(Clone, Copy, Debug)]
pub struct Scalar {
    pub bits: u32,
}

/// Magnitude part of a binary32 bit pattern (the bits below the sign bit).
pub open spec fn magnitude(bits: u32) -> int {
    if bits >= 0x8000_0000 {
        bits - 0x8000_0000
    } else {
        bits as int
    }
}

/// `true` when the bit pattern encodes a NaN: all exponent bits set and a
/// non-zero fraction.
pub open spec fn is_nan_bits(bits: u32) -> bool {
    magnitude(bits) > 0x7f80_0000
}

/// Position of a non-NaN binary32 value on the number line: values compare
/// exactly as their ranks do, and both zeros have rank 0.
pub open spec fn rank(bits: u32) -> int {
    if bits >= 0x8000_0000 {
        -magnitude(bits)
    } else {
        magnitude(bits)
    }
}

/// IEEE-754 `a <= b`.
pub open spec fn spec_le(a: Scalar, b: Scalar) -> bool {
    !is_nan_bits(a.bits) && !is_nan_bits(b.bits) && rank(a.bits) <= rank(b.bits)
}

/// IEEE-754 `a < b`.
pub open spec fn spec_lt(a: Scalar, b: Scalar) -> bool {
    !is_nan_bits(a.bits) && !is_nan_bits(b.bits) && rank(a.bits) < rank(b.bits)
}

impl Scalar {
    /// Wrap a bit pattern.
    pub fn from_bits(bits: u32) -> (r: Scalar)
        ensures
            r.bits == bits,
    {
        Scalar { bits }
    }

    /// `+0.0`.
    pub fn zero() -> (r: Scalar)
        ensures
            r.bits == 0,
            rank(r.bits) == 0,
            !is_nan_bits(r.bits),
    {
        Scalar { bits: 0 }
    }

    /// `1.0`.
    pub fn one() -> (r: Scalar)
        ensures
            r.bits == 0x3f80_0000,
    {
        Scalar { bits: 0x3f80_0000 }
    }

    /// `true` when the value is a NaN.
    pub fn is_nan(&self) -> (r: bool)
        ensures
            r == is_nan_bits(self.bits),
    {
        let m: u32 = if self.bits >= 0x8000_0000 {
            self.bits - 0x8000_0000
        } else {
            self.bits
        };
        m > 0x7f80_0000
    }

    /// Signed rank as a machine integer (meaningful for non-NaN values).
    fn rank_exec(&self) -> (r: i64)
        ensures
            r as int == rank(self.bits),
    {
        if self.bits >= 0x8000_0000 {
            let m: u32 = self.bits - 0x8000_0000;
            -(m as i64)
        } else {
            self.bits as i64
        }
    }

    /// IEEE-754 `self <= other`.
    pub fn le(&self, other: &Scalar) -> (r: bool)
        ensures
            r == spec_le(*self, *other),
    {
        !self.is_nan() && !other.is_nan() && self.rank_exec() <= other.rank_exec()
    }

    /// IEEE-754 `self < other`.
    pub fn lt(&self, other: &Scalar) -> (r: bool)
        ensures
            r == spec_lt(*self, *other),
    {
        !self.is_nan() && !other.is_nan() && self.rank_exec() < other.rank_exec()
    }
}

} // verus!
