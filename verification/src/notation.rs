//! The closed set of notations, and encoding and decoding by notation.

use crate::bits::{input_fault, is_bit_string, WIDTH};
use crate::decode::{
    excess_value, from_excess, from_ones_complement, from_signed, from_twos_complement,
    ones_complement_value, sign_magnitude_value, signed_input_fault, twos_complement_value,
};
use crate::encode::{
    excess_bits, excess_max, excess_min, ones_complement_bits, sign_magnitude_bits, to_excess,
    to_ones_complement, to_signed, to_twos_complement, twos_complement_bits, valid_bias, MAX_BIAS,
    SIGNED_MAX, SYMMETRIC_MIN, TWOS_COMPLEMENT_MIN,
};
use crate::error::{in_range, CodecError};
use vstd::prelude::*;

verus! {

/// A way of writing a signed integer in [`WIDTH`] bits.
#[derive(Debug, Clone, Copy, PartialEq, Eq, Structural)]
pub enum Notation {
    /// One sign bit, then the magnitude.
    SignMagnitude,
    /// Negative numbers are the flipped magnitude.
    OnesComplement,
    /// Negative numbers are the one's complement plus one.
    TwosComplement,
    /// The unsigned form of the number plus the bias that the variant
    /// carries; there is no sign bit.
    ExcessK(i32),
}

impl Notation {
    /// Whether the notation exists at this width: an excess notation needs
    /// a bias in 0..=128.
    pub open spec fn valid(self) -> bool {
        match self {
            Notation::ExcessK(bias) => valid_bias(bias as int),
            _ => true,
        }
    }

    /// Whether the first bit of an encoded value is a sign bit.
    pub open spec fn has_sign_bit(self) -> bool {
        !(self is ExcessK)
    }

    /// The least integer that the notation can hold.
    pub open spec fn min_value(self) -> int {
        match self {
            Notation::SignMagnitude => SYMMETRIC_MIN as int,
            Notation::OnesComplement => SYMMETRIC_MIN as int,
            Notation::TwosComplement => TWOS_COMPLEMENT_MIN as int,
            Notation::ExcessK(bias) => excess_min(bias as int),
        }
    }

    /// The greatest integer that the notation can hold.
    pub open spec fn max_value(self) -> int {
        match self {
            Notation::ExcessK(bias) => excess_max(bias as int),
            _ => SIGNED_MAX as int,
        }
    }

    /// Whether the notation exists and can hold `n`.
    pub open spec fn representable(self, n: int) -> bool {
        self.valid() && in_range(n, self.min_value(), self.max_value())
    }

    /// The error for an `n` that is not representable: it names the bias
    /// where an excess notation does not exist, and else `n` with the bounds
    /// of the notation.
    pub open spec fn range_error(self, n: i32) -> CodecError {
        match self {
            Notation::ExcessK(bias) if !valid_bias(bias as int) => CodecError::RangeError {
                min: 0,
                max: MAX_BIAS,
                actual: bias,
            },
            _ => CodecError::RangeError {
                min: self.min_value() as i32,
                max: self.max_value() as i32,
                actual: n,
            },
        }
    }

    /// The encoded form of `n`.
    pub open spec fn bits(self, n: int) -> Seq<char> {
        match self {
            Notation::SignMagnitude => sign_magnitude_bits(n),
            Notation::OnesComplement => ones_complement_bits(n),
            Notation::TwosComplement => twos_complement_bits(n),
            Notation::ExcessK(bias) => excess_bits(bias as int, n),
        }
    }

    /// Why `s` cannot be decoded, if it cannot: an excess notation that
    /// does not exist names its bias, and else the string is at fault.
    pub open spec fn input_fault(self, s: Seq<char>) -> Option<CodecError> {
        match self {
            Notation::ExcessK(bias) => if valid_bias(bias as int) {
                input_fault(s)
            } else {
                Some(CodecError::RangeError { min: 0, max: MAX_BIAS, actual: bias })
            },
            _ => signed_input_fault(s),
        }
    }

    /// The integer that `s` stands for.
    pub open spec fn value(self, s: Seq<char>) -> int {
        match self {
            Notation::SignMagnitude => sign_magnitude_value(s),
            Notation::OnesComplement => ones_complement_value(s),
            Notation::TwosComplement => twos_complement_value(s),
            Notation::ExcessK(bias) => excess_value(bias as int, s),
        }
    }
}

/// Encodes `n` in the given notation as a string of exactly [`WIDTH`] bit
/// characters, or says why it cannot be encoded.
pub fn encode(notation: Notation, n: i32) -> (r: Result<String, CodecError>)
    ensures
        match r {
            Ok(s) => notation.representable(n as int) && s@ == notation.bits(n as int),
            Err(e) => !notation.representable(n as int) && e == notation.range_error(n),
        },
        r matches Ok(s) ==> s@.len() == WIDTH && is_bit_string(s@) && (notation.has_sign_bit()
            ==> (s@[0] == '1' <==> n < 0)),
{
    match notation {
        Notation::SignMagnitude => to_signed(n),
        Notation::OnesComplement => to_ones_complement(n),
        Notation::TwosComplement => to_twos_complement(n),
        Notation::ExcessK(bias) => to_excess(bias, n),
    }
}

/// Decodes a bit string in the given notation, or says why it cannot be
/// decoded.
pub fn decode(notation: Notation, bit_string: &str) -> (r: Result<i32, CodecError>)
    ensures
        match notation.input_fault(bit_string@) {
            Some(e) => r == Err::<i32, CodecError>(e),
            None => r matches Ok(v) && v == notation.value(bit_string@),
        },
{
    match notation {
        Notation::SignMagnitude => from_signed(bit_string),
        Notation::OnesComplement => from_ones_complement(bit_string),
        Notation::TwosComplement => from_twos_complement(bit_string),
        Notation::ExcessK(bias) => from_excess(bias, bit_string),
    }
}

} // verus!
