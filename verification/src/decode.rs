//! The four decoders: from a bit string of at most [`WIDTH`] characters
//! back to the signed integer that it stands for.

use crate::bits::{
    check_input, flip_bits, flipped, input_fault, read_bits, unsigned_value, WIDTH,
};
use crate::encode::{valid_bias, MAX_BIAS, TWOS_COMPLEMENT_MIN};
use crate::error::{validate_number, CodecError};
use crate::step::{decrement, decremented};
use vstd::prelude::*;
use vstd::string::*;

verus! {

/// Why a decoder of a sign-bit notation refuses to read `s`, if it does:
/// besides what [`input_fault`] names, an empty string has no sign bit and
/// is a format error.
pub open spec fn signed_input_fault(s: Seq<char>) -> Option<CodecError> {
    match input_fault(s) {
        Some(e) => Some(e),
        None => if s.len() == 0 {
            Some(CodecError::FormatError)
        } else {
            None
        },
    }
}

/// The integer that `s` stands for in sign-magnitude form: the value of
/// the bits after the sign bit, negated where the sign bit is set. A set
/// sign bit before a zero magnitude stands for zero.
pub open spec fn sign_magnitude_value(s: Seq<char>) -> int {
    if s[0] == '0' {
        unsigned_value(s) as int
    } else {
        -(unsigned_value(s.skip(1)) as int)
    }
}

/// The integer that `s` stands for in one's-complement form: where the
/// sign bit is set, the negated value of the flipped string. A string of
/// ones alone stands for zero.
pub open spec fn ones_complement_value(s: Seq<char>) -> int {
    if s[0] == '0' {
        unsigned_value(s) as int
    } else {
        -(unsigned_value(flipped(s)) as int)
    }
}

/// The integer that `s` stands for in two's-complement form: where the
/// sign bit is set, one is taken from the bits after it, and the negated
/// value of the flipped rest is the result. Where there is nothing to take
/// from, `s` stands for the least value of the notation, however short it
/// is.
pub open spec fn twos_complement_value(s: Seq<char>) -> int {
    if s[0] == '0' {
        unsigned_value(s) as int
    } else {
        match decremented(s.skip(1)) {
            Some(d) => -(unsigned_value(flipped(d)) as int),
            None => TWOS_COMPLEMENT_MIN as int,
        }
    }
}

/// The integer that `s` stands for in excess-`bias` form.
pub open spec fn excess_value(bias: int, s: Seq<char>) -> int {
    unsigned_value(s) - bias
}

/// Checks that a decoder of a sign-bit notation can read `bit_string`, and
/// returns its sign bit.
fn read_sign(bit_string: &str) -> (r: Result<char, CodecError>)
    ensures
        match signed_input_fault(bit_string@) {
            Some(e) => r == Err::<char, CodecError>(e),
            None => r == Ok::<char, CodecError>(bit_string@[0]),
        },
{
    check_input(bit_string)?;
    if bit_string.unicode_len() == 0 {
        return Err(CodecError::FormatError);
    }
    Ok(bit_string.get_char(0))
}

/// Decodes a bit string in sign-magnitude form. The first character is the
/// sign bit; a string shorter than the width is read as it stands. A string
/// that is empty, too long or not made of bits is refused.
pub fn from_signed(bit_string: &str) -> (r: Result<i32, CodecError>)
    ensures
        match signed_input_fault(bit_string@) {
            Some(e) => r == Err::<i32, CodecError>(e),
            None => r matches Ok(v) && v == sign_magnitude_value(bit_string@),
        },
{
    let sign_bit = read_sign(bit_string)?;
    if sign_bit == '0' {
        return Ok(read_bits(bit_string));
    }
    let magnitude = bit_string.substring_char(1, bit_string.unicode_len());
    Ok(-read_bits(magnitude))
}

/// Decodes a bit string in one's-complement form. The first character is
/// the sign bit; a string shorter than the width is read as it stands. A
/// string that is empty, too long or not made of bits is refused.
pub fn from_ones_complement(bit_string: &str) -> (r: Result<i32, CodecError>)
    ensures
        match signed_input_fault(bit_string@) {
            Some(e) => r == Err::<i32, CodecError>(e),
            None => r matches Ok(v) && v == ones_complement_value(bit_string@),
        },
{
    let sign_bit = read_sign(bit_string)?;
    if sign_bit == '0' {
        return Ok(read_bits(bit_string));
    }
    let flipped_bits = flip_bits(bit_string);
    Ok(-read_bits(flipped_bits.as_str()))
}

/// Decodes a bit string in two's-complement form. The first character is
/// the sign bit; a string shorter than the width is read as it stands. A
/// string that is empty, too long or not made of bits is refused.
pub fn from_twos_complement(bit_string: &str) -> (r: Result<i32, CodecError>)
    ensures
        match signed_input_fault(bit_string@) {
            Some(e) => r == Err::<i32, CodecError>(e),
            None => r matches Ok(v) && v == twos_complement_value(bit_string@),
        },
{
    let sign_bit = read_sign(bit_string)?;
    if sign_bit == '0' {
        return Ok(read_bits(bit_string));
    }
    let magnitude = bit_string.substring_char(1, bit_string.unicode_len());
    match decrement(magnitude) {
        None => {
            // No bit is set after the sign bit: the least value.
            Ok(TWOS_COMPLEMENT_MIN)
        },
        Some(magnitude_minus_one) => {
            let flipped_magnitude = flip_bits(magnitude_minus_one.as_str());
            Ok(-read_bits(flipped_magnitude.as_str()))
        },
    }
}

/// Decodes a bit string in excess-`e` form: its unsigned value less the
/// bias. A bias outside 0..=128 is refused with the permitted bounds; then
/// a string that is too long or not made of bits is refused.
pub fn from_excess(e: i32, bit_string: &str) -> (r: Result<i32, CodecError>)
    ensures
        if !valid_bias(e as int) {
            r == Err::<i32, CodecError>(CodecError::RangeError { min: 0, max: MAX_BIAS, actual: e })
        } else {
            match input_fault(bit_string@) {
                Some(err) => r == Err::<i32, CodecError>(err),
                None => r matches Ok(v) && v == excess_value(e as int, bit_string@),
            }
        },
{
    validate_number(e, 0, MAX_BIAS)?;
    check_input(bit_string)?;
    Ok(read_bits(bit_string) - e)
}

/// Decodes a bit string in excess-128 form: its unsigned value less 128. A
/// string that is too long or not made of bits is refused.
pub fn from_excess_128(bit_string: &str) -> (r: Result<i32, CodecError>)
    ensures
        match input_fault(bit_string@) {
            Some(e) => r == Err::<i32, CodecError>(e),
            None => r matches Ok(v) && v == excess_value(MAX_BIAS as int, bit_string@),
        },
{
    from_excess(MAX_BIAS, bit_string)
}

} // verus!
