use vstd::prelude::*;

verus! {

/// Bit pattern of the sign of a 32-bit IEEE-754 float.
pub const SIGN_BIT: u32 = 0x8000_0000;

/// Bit pattern of negative infinity as a 32-bit IEEE-754 float.
pub const NEG_INFINITY_BITS: u32 = 0xff80_0000;

/// Position of an IEEE-754 single-precision bit pattern on the real line:
/// the magnitude bits, negated when the sign bit is set. For every pair of
/// non-NaN floats this orders them as `<` on the floats does, with the two
/// zeros equal. NaN patterns rank beyond the infinities, so comparisons go
/// through `Depth::nearer`, which lets a NaN be nearer than nothing.
pub open spec fn depth_rank(bits: u32) -> int {
    if bits >= SIGN_BIT {
        -((bits - SIGN_BIT) as int)
    } else {
        bits as int
    }
}

/// The magnitude bits of a 32-bit float pattern: all but the sign.
pub open spec fn magnitude(bits: u32) -> int {
    if bits >= SIGN_BIT {
        (bits - SIGN_BIT) as int
    } else {
        bits as int
    }
}

/// Bit pattern of positive infinity; larger magnitudes are NaN.
pub const INFINITY_BITS: u32 = 0x7f80_0000;

/// A depth value of the z-buffer, held as the bit pattern of a 32-bit float.
/// Larger is nearer to the viewer.
#[derive(Clone, Copy, Debug, PartialEq, Eq, Structural)]
pub struct Depth {
    pub bits: u32,
}

impl Depth {
    pub open spec fn rank(self) -> int {
        depth_rank(self.bits)
    }

    /// Whether the pattern is a NaN, which compares with nothing.
    pub open spec fn is_nan(self) -> bool {
        magnitude(self.bits) > INFINITY_BITS
    }

    /// Whether this depth lies strictly nearer than `other`, as `<` on the
    /// floats decides it: a NaN on either side makes it false.
    pub open spec fn nearer(self, other: Depth) -> bool {
        !self.is_nan() && !other.is_nan() && self.rank() > other.rank()
    }

    pub fn from_bits(bits: u32) -> (d: Depth)
        ensures
            d.bits == bits,
    {
        Depth { bits }
    }

    pub open spec fn neg_infinity_value() -> Depth {
        Depth { bits: NEG_INFINITY_BITS }
    }

    /// The depth of a pixel that nothing has been drawn to.
    pub fn neg_infinity() -> (d: Depth)
        ensures
            d == Depth::neg_infinity_value(),
    {
        Depth { bits: NEG_INFINITY_BITS }
    }

    /// The rank of this depth as an integer.
    pub fn rank_value(&self) -> (r: i64)
        ensures
            r == self.rank(),
    {
        if self.bits >= SIGN_BIT {
            -((self.bits - SIGN_BIT) as i64)
        } else {
            self.bits as i64
        }
    }

    pub fn is_nan_value(&self) -> (r: bool)
        ensures
            r == self.is_nan(),
    {
        let m = if self.bits >= SIGN_BIT {
            self.bits - SIGN_BIT
        } else {
            self.bits
        };
        m > INFINITY_BITS
    }

    /// Whether this depth lies strictly nearer than `other`.
    pub fn is_nearer_than(&self, other: &Depth) -> (r: bool)
        ensures
            r == self.nearer(*other),
    {
        !self.is_nan_value() && !other.is_nan_value() && self.rank_value() > other.rank_value()
    }
}

} // verus!
