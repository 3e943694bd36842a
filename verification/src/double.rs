//! Finite real numbers, held as IEEE 754 binary64 bit patterns.
//!
//! The library never computes with the numbers it carries; it only
//! compares them. Comparison is done on the bit pattern: the
//! sign-and-magnitude reading of the pattern orders finite numbers exactly
//! as their values do.

use vstd::prelude::*;

verus! {

/// Two to the power 63: the weight of the sign bit.
pub const SIGN_BIT: u64 = 0x8000_0000_0000_0000;

/// The magnitude of infinity; a pattern is finite when its magnitude is
/// below this.
pub const INFINITY_BITS: u64 = 0x7ff0_0000_0000_0000;

/// The pattern `bits` without its sign bit.
pub open spec fn magnitude_of(bits: u64) -> int {
    if bits >= SIGN_BIT {
        bits - SIGN_BIT
    } else {
        bits as int
    }
}

/// Whether `bits` encodes a finite number (not an infinity, not a NaN).
pub open spec fn is_finite(bits: u64) -> bool {
    magnitude_of(bits) < INFINITY_BITS
}

/// An integer that orders finite patterns as their values are ordered:
/// the magnitude, negated when the sign bit is set. Both zeros give 0.
pub open spec fn key_of(bits: u64) -> int {
    if bits >= SIGN_BIT {
        -magnitude_of(bits)
    } else {
        magnitude_of(bits)
    }
}

/// A finite binary64 number.
#[derive(Clone, Copy, Debug)]
pub struct Double {
    bits: u64,
}

impl View for Double {
    type V = int;

    /// The ordering key of the number: two numbers are equal when their
    /// keys are, and one is below the other when its key is.
    closed spec fn view(&self) -> int {
        key_of(self.bits)
    }
}

impl Double {
    #[verifier::type_invariant]
    closed spec fn finite(&self) -> bool {
        is_finite(self.bits)
    }

    /// The bit pattern.
    pub closed spec fn spec_bits(&self) -> u64 {
        self.bits
    }

    /// The number with the bit pattern `bits`, if that is a finite number.
    pub fn from_bits(bits: u64) -> (d: Option<Double>)
        ensures
            d is Some <==> is_finite(bits),
            d matches Some(x) ==> x.spec_bits() == bits && x@ == key_of(bits),
    {
        let magnitude: u64 = if bits >= SIGN_BIT {
            bits - SIGN_BIT
        } else {
            bits
        };
        if magnitude < INFINITY_BITS {
            Some(Double { bits })
        } else {
            None
        }
    }

    /// The bit pattern.
    pub fn to_bits(&self) -> (bits: u64)
        ensures
            bits == self.spec_bits(),
            is_finite(bits),
            key_of(bits) == self@,
    {
        proof {
            use_type_invariant(self);
        }
        self.bits
    }

    fn key(&self) -> (k: i128)
        ensures
            k == self@,
    {
        if self.bits >= SIGN_BIT {
            -((self.bits - SIGN_BIT) as i128)
        } else {
            self.bits as i128
        }
    }

    /// Numeric equality.
    pub fn equals(&self, other: &Double) -> (r: bool)
        ensures
            r == (self@ == other@),
    {
        self.key() == other.key()
    }

    /// Numeric `>=`.
    pub fn ge(&self, other: &Double) -> (r: bool)
        ensures
            r == (self@ >= other@),
    {
        self.key() >= other.key()
    }

    /// Numeric `<=`.
    pub fn le(&self, other: &Double) -> (r: bool)
        ensures
            r == (self@ <= other@),
    {
        self.key() <= other.key()
    }
}

impl PartialEq for Double {
    fn eq(&self, other: &Double) -> (r: bool) {
        self.key() == other.key()
    }
}

impl vstd::std_specs::cmp::PartialEqSpecImpl for Double {
    open spec fn obeys_eq_spec() -> bool {
        true
    }

    open spec fn eq_spec(&self, other: &Double) -> bool {
        self@ == other@
    }
}

} // verus!
