//! Ray parameters carried as IEEE-754 binary64 bit patterns.
//!
//! A ray parameter `t` is a double. The library keeps it as its exact bit
//! pattern and orders it through `order_key`, which places every non-NaN
//! encoding on the integer line in the same order as the doubles themselves:
//! within one sign, binary64 values order as their magnitude bits do, and the
//! two zeros share the key 0.
use vstd::prelude::*;

verus! {

/// The sign bit of a binary64 encoding.
pub const SIGN_BIT: u64 = 0x8000_0000_0000_0000;

/// The encoding of positive infinity: magnitudes above it are NaNs.
pub const INFINITY_BITS: u64 = 0x7ff0_0000_0000_0000;

/// All bits of an encoding but the sign.
pub open spec fn magnitude(bits: u64) -> int {
    (bits % SIGN_BIT) as int
}

/// Whether an encoding is a NaN (all exponent bits set, fraction not zero).
pub open spec fn is_nan_bits(bits: u64) -> bool {
    magnitude(bits) > INFINITY_BITS
}

/// Where an encoding stands on the number line: `a < b` as doubles exactly
/// when `order_key(a) < order_key(b)`, for encodings that are not NaN.
pub open spec fn order_key(bits: u64) -> int {
    if bits >= SIGN_BIT {
        -magnitude(bits)
    } else {
        magnitude(bits)
    }
}

/// A ray parameter: the bit pattern of a binary64 value.
#[derive(Clone, Copy, Debug, PartialEq, Eq, Structural)]
pub struct Time {
    pub bits: u64,
}

impl Time {
    /// The key under which this parameter is ordered.
    pub open spec fn key(self) -> int {
        order_key(self.bits)
    }

    pub open spec fn is_nan_spec(self) -> bool {
        is_nan_bits(self.bits)
    }

    /// The parameter whose binary64 encoding is `bits`.
    pub fn from_bits(bits: u64) -> (r: Time)
        ensures
            r.bits == bits,
    {
        Time { bits }
    }

    /// The binary64 encoding of this parameter.
    pub fn bits(&self) -> (r: u64)
        ensures
            r == self.bits,
    {
        self.bits
    }

    /// The order key, as a machine integer.
    pub fn order_key(&self) -> (r: i64)
        ensures
            r as int == self.key(),
    {
        let m = self.bits % SIGN_BIT;
        if self.bits >= SIGN_BIT {
            -(m as i64)
        } else {
            m as i64
        }
    }

    pub fn is_nan(&self) -> (r: bool)
        ensures
            r == self.is_nan_spec(),
    {
        self.bits % SIGN_BIT > INFINITY_BITS
    }

    /// Whether this parameter comes strictly before `other`.
    pub fn lt(&self, other: &Time) -> (r: bool)
        ensures
            r == (self.key() < other.key()),
    {
        self.order_key() < other.order_key()
    }

    /// Whether this parameter comes no later than `other`.
    pub fn le(&self, other: &Time) -> (r: bool)
        ensures
            r == (self.key() <= other.key()),
    {
        self.order_key() <= other.order_key()
    }

    /// Whether this parameter is zero or positive (`t >= 0`).
    pub fn is_non_negative(&self) -> (r: bool)
        ensures
            r == (self.key() >= 0),
    {
        self.order_key() >= 0
    }
}

} // verus!
