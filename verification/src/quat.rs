//! Orientations as opaque four-component values.

use vstd::prelude::*;

verus! {

/// Mask of the exponent field of a binary64 bit pattern.
pub const EXPONENT_MASK: u64 = 0x7ff0_0000_0000_0000;

/// Whether a binary64 bit pattern encodes a finite number, that is neither an
/// infinity nor a NaN: its exponent field is not all ones.
pub open spec fn bits_finite(bits: u64) -> bool {
    bits & EXPONENT_MASK != EXPONENT_MASK
}

/// Tests a binary64 bit pattern for finiteness.
pub fn is_finite_bits(bits: u64) -> (r: bool)
    ensures
        r == bits_finite(bits),
{
    bits & EXPONENT_MASK != EXPONENT_MASK
}

/// A quaternion whose components are carried as binary64 bit patterns.
///
/// The crate stores, compares and hands back such values but never does
/// arithmetic on them.
#[derive(Clone, Copy, Debug, PartialEq, Eq, Structural)]
pub struct Quat64 {
    pub w: u64,
    pub x: u64,
    pub y: u64,
    pub z: u64,
}

impl Quat64 {
    /// All four components encode finite numbers.
    pub open spec fn finite(self) -> bool {
        &&& bits_finite(self.w)
        &&& bits_finite(self.x)
        &&& bits_finite(self.y)
        &&& bits_finite(self.z)
    }

    /// Builds a quaternion from the bit patterns of its components.
    pub fn from_bits(w: u64, x: u64, y: u64, z: u64) -> (q: Quat64)
        ensures
            q == (Quat64 { w, x, y, z }),
    {
        Quat64 { w, x, y, z }
    }

    /// Tests that no component is an infinity or a NaN.
    pub fn is_finite(&self) -> (r: bool)
        ensures
            r == self.finite(),
    {
        is_finite_bits(self.w) && is_finite_bits(self.x) && is_finite_bits(self.y)
            && is_finite_bits(self.z)
    }
}

} // verus!
