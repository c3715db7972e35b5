//! Numbers as a filter compares them: binary64 floating-point values, each
//! held as its 64 bits, with the order and the equality of IEEE 754.
use vstd::prelude::*;

verus! {

/// The bit that holds the sign of a binary64 value.
pub const SIGN_BIT: u64 = 0x8000_0000_0000_0000;

/// The bits of positive infinity: every greater magnitude is a NaN.
pub const INFINITY_BITS: u64 = 0x7FF0_0000_0000_0000;

/// A binary64 floating-point value, held as its bits: the sign in the
/// highest bit, then eleven bits of exponent, then the fraction. These are the
/// bits that `to_bits` of the standard library gives for such a value.
#[derive(Clone, Copy, Debug)]
pub struct Number {
    pub bits: u64,
}

impl Number {
    /// Whether the sign bit is set.
    pub open spec fn is_negative(self) -> bool {
        self.bits >= SIGN_BIT
    }

    /// The bits without the sign. Among values that are no NaN, a greater
    /// magnitude is a greater absolute value.
    pub open spec fn magnitude(self) -> int {
        if self.bits >= SIGN_BIT {
            self.bits - SIGN_BIT
        } else {
            self.bits as int
        }
    }

    /// Whether the value is a NaN, which is neither equal to, below nor above
    /// any value.
    pub open spec fn is_nan(self) -> bool {
        self.magnitude() > INFINITY_BITS
    }

    /// The place of a value that is no NaN in the order of all such values.
    /// The two zeros share the place 0.
    pub open spec fn rank(self) -> int {
        if self.is_negative() {
            -self.magnitude()
        } else {
            self.magnitude()
        }
    }

    /// Numeric equality: neither is a NaN and both stand at the same place.
    pub open spec fn equals(self, other: Number) -> bool {
        !self.is_nan() && !other.is_nan() && self.rank() == other.rank()
    }

    /// Numeric order: neither is a NaN and `self` stands before `other`.
    pub open spec fn below(self, other: Number) -> bool {
        !self.is_nan() && !other.is_nan() && self.rank() < other.rank()
    }

    fn exec_magnitude(self) -> (r: u64)
        ensures
            r == self.magnitude(),
    {
        if self.bits >= SIGN_BIT {
            self.bits - SIGN_BIT
        } else {
            self.bits
        }
    }

    /// Tests numeric equality.
    pub fn is_equal(self, other: Number) -> (r: bool)
        ensures
            r == self.equals(other),
    {
        let a: u64 = self.exec_magnitude();
        let b: u64 = other.exec_magnitude();
        if a > INFINITY_BITS || b > INFINITY_BITS {
            false
        } else if a == 0 && b == 0 {
            true
        } else {
            self.bits == other.bits
        }
    }

    /// Tests numeric order.
    pub fn is_below(self, other: Number) -> (r: bool)
        ensures
            r == self.below(other),
    {
        let a: u64 = self.exec_magnitude();
        let b: u64 = other.exec_magnitude();
        if a > INFINITY_BITS || b > INFINITY_BITS {
            false
        } else if self.bits >= SIGN_BIT {
            if other.bits >= SIGN_BIT {
                a > b
            } else {
                a != 0 || b != 0
            }
        } else {
            other.bits < SIGN_BIT && a < b
        }
    }
}

} // verus!
