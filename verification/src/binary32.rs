//! IEEE 754 binary32 numbers as bit patterns, and the total order on them.
//!
//! The library never computes with such a number. It receives measurements
//! (distances, angles) from its host and only has to order them, which needs
//! nothing but the bits.

use vstd::prelude::*;

verus! {

/// An IEEE 754 binary32 number, held by its bit pattern (sign bit, eight
/// exponent bits, twenty-three fraction bits).
#[derive(Clone, Copy, Debug, PartialEq, Eq, Structural)]
pub struct Binary32 {
    pub bits: u32,
}

impl Binary32 {
    /// The place of the number in the IEEE 754 `totalOrder` predicate: `a`
    /// comes before `b` exactly if `a.key() < b.key()`.
    ///
    /// With the sign bit clear the key is the bit pattern itself, so that
    /// +0 < positive numbers < +infinity < NaN. With the sign bit set the
    /// order of the magnitudes is reversed and everything lies below +0, down
    /// to the NaN patterns with the sign bit set; -0 has key -1.
    pub open spec fn key(self) -> int {
        if self.bits < 0x8000_0000 {
            self.bits as int
        } else {
            0x7fff_ffff - self.bits
        }
    }

    /// `self` comes before `other`, or is the same pattern.
    pub open spec fn spec_total_le(self, other: Binary32) -> bool {
        self.key() <= other.key()
    }

    /// `self` comes strictly before `other`.
    pub open spec fn spec_total_lt(self, other: Binary32) -> bool {
        self.key() < other.key()
    }

    /// The number with the given bit pattern.
    pub fn from_bits(bits: u32) -> (r: Binary32)
        ensures
            r.bits == bits,
    {
        Binary32 { bits }
    }

    /// The bit pattern of the number.
    pub fn to_bits(self) -> (bits: u32)
        ensures
            bits == self.bits,
    {
        self.bits
    }

    /// Computes `key`.
    pub fn to_key(self) -> (k: i32)
        ensures
            k == self.key(),
    {
        if self.bits < 0x8000_0000 {
            self.bits as i32
        } else {
            let low: u32 = self.bits - 0x8000_0000;
            -1i32 - (low as i32)
        }
    }

    /// Whether `self` comes before `other` in the total order, or equals it.
    pub fn total_le(self, other: Binary32) -> (r: bool)
        ensures
            r == self.spec_total_le(other),
    {
        self.to_key() <= other.to_key()
    }

    /// Whether `self` comes strictly before `other` in the total order.
    pub fn total_lt(self, other: Binary32) -> (r: bool)
        ensures
            r == self.spec_total_lt(other),
    {
        self.to_key() < other.to_key()
    }
}

/// Two numbers with the same key have the same bit pattern: the order is
/// strict on distinct patterns.
pub proof fn lemma_key_injective(a: Binary32, b: Binary32)
    requires
        a.key() == b.key(),
    ensures
        a == b,
{
}

/// Every key fits in thirty-two bits, two's complement.
pub proof fn lemma_key_range(a: Binary32)
    ensures
        -0x8000_0000 <= a.key() <= 0x7fff_ffff,
{
}

/// The order is total: of two numbers one comes before the other, or they
/// are the same pattern.
pub proof fn lemma_total_order(a: Binary32, b: Binary32, c: Binary32)
    ensures
        a.spec_total_le(a),
        a.spec_total_le(b) || b.spec_total_le(a),
        a.spec_total_le(b) && b.spec_total_le(a) ==> a == b,
        a.spec_total_le(b) && b.spec_total_le(c) ==> a.spec_total_le(c),
        a.spec_total_lt(b) <==> !b.spec_total_le(a),
{
}

} // verus!
