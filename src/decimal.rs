//! The decimal value `sign * magnitude * 10^(-scale)`.

use vstd::prelude::*;

verus! {

/// The three fields that determine a [`Decimal`].
#[derive(Clone, Copy, Debug, PartialEq, Eq)]
pub struct DecimalParts {
    pub magnitude: u128,
    pub scale: i16,
    pub negative: bool,
}

/// A fixed-point decimal: `magnitude` unscaled digits, the decimal point shifted
/// left by `scale` places (right when `scale` is negative), and a sign flag.
///
/// A zero magnitude with the sign flag set is a distinct representation of the
/// value zero.
#[derive(Clone, Copy, Debug, PartialEq, Eq, Structural)]
pub struct Decimal {
    int_val: u128,
    scale: i16,
    negative: bool,
}

impl View for Decimal {
    type V = DecimalParts;

    closed spec fn view(&self) -> DecimalParts {
        DecimalParts { magnitude: self.int_val, scale: self.scale, negative: self.negative }
    }
}

/// The value is zero, whatever its sign flag and scale.
pub open spec fn is_zero_parts(p: DecimalParts) -> bool {
    p.magnitude == 0
}

impl Decimal {
    /// Assembles a decimal from its raw fields without validating them.
    ///
    /// The caller vouches that the triple came from a validated decimal, for
    /// instance one that was encoded earlier.
    pub fn from_parts_unchecked(int_val: u128, scale: i16, negative: bool) -> (r: Decimal)
        ensures
            r@ == (DecimalParts { magnitude: int_val, scale, negative }),
    {
        Decimal { int_val, scale, negative }
    }

    /// The unscaled digits.
    pub fn magnitude(&self) -> (r: u128)
        ensures
            r == self@.magnitude,
    {
        self.int_val
    }

    /// The power-of-ten exponent by which the magnitude is divided.
    pub fn scale(&self) -> (r: i16)
        ensures
            r == self@.scale,
    {
        self.scale
    }

    /// The sign flag.
    pub fn is_negative(&self) -> (r: bool)
        ensures
            r == self@.negative,
    {
        self.negative
    }

    /// Whether the value is zero, negative zero included.
    pub fn is_zero(&self) -> (r: bool)
        ensures
            r == is_zero_parts(self@),
    {
        self.int_val == 0
    }

    /// Two decimals with the same fields are the same value of the type.
    pub proof fn lemma_view_injective(a: Decimal, b: Decimal)
        requires
            a@ == b@,
        ensures
            a == b,
    {
    }
}

/// Why a value could not be encoded or decoded.
#[derive(Clone, Copy, Debug, PartialEq, Eq, Structural)]
pub enum CodecError {
    /// Fewer bytes were available than a decode needs.
    InsufficientInput,
    /// The destination cannot take the bytes of an encoding.
    DestinationCapacity,
}

} // verus!
