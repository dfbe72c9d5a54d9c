//! The four encoders: from a signed integer to a bit string of exactly
//! [`WIDTH`] characters.

use crate::bit_lemmas::{
    lemma_flipped_value, lemma_leading_bit, lemma_padded_digits, lemma_value_repeated,
    lemma_value_split_first,
};
use crate::bits::{
    binary_digits, flip_bits, flipped, is_bit_string, magnitude, pad, padded,
    to_unsigned_unpadded, unsigned_value, zeros, WIDTH,
};
use crate::error::{in_range, validate_number, CodecError};
use crate::step::{increment, incremented, lemma_below_maximum_has_zero, lemma_incremented};
use vstd::arithmetic::power2::lemma2_to64;
use vstd::prelude::*;
use vstd::string::*;

verus! {

/// The least integer that sign-magnitude and one's complement can hold.
pub const SYMMETRIC_MIN: i32 = -127;

/// The least integer that two's complement can hold.
pub const TWOS_COMPLEMENT_MIN: i32 = -128;

/// The greatest integer that the three sign-bit notations can hold.
pub const SIGNED_MAX: i32 = 127;

/// The greatest bias that an excess notation of this width can have.
pub const MAX_BIAS: i32 = 128;

/// The greatest unsigned value that fits the width.
pub const UNSIGNED_MAX: i32 = 255;

/// The sign-magnitude form of `n`: a sign bit, then the magnitude padded to
/// the remaining seven bits.
pub open spec fn sign_magnitude_bits(n: int) -> Seq<char> {
    seq![if n < 0 { '1' } else { '0' }] + padded((WIDTH - 1) as nat, binary_digits(magnitude(n)))
}

/// The one's-complement form of `n`: the padded magnitude, with every bit
/// flipped where `n` is negative.
pub open spec fn ones_complement_bits(n: int) -> Seq<char> {
    if n < 0 {
        flipped(padded(WIDTH as nat, binary_digits(magnitude(n))))
    } else {
        padded(WIDTH as nat, binary_digits(magnitude(n)))
    }
}

/// The two's-complement form of `n`: for a negative `n` the one's
/// complement with one added to the bits after the sign bit. The least
/// value has no one's complement and is a sign bit followed by zeros.
pub open spec fn twos_complement_bits(n: int) -> Seq<char> {
    if n >= 0 {
        ones_complement_bits(n)
    } else if n == TWOS_COMPLEMENT_MIN {
        seq!['1'] + zeros((WIDTH - 1) as nat)
    } else {
        seq!['1'] + incremented(ones_complement_bits(n).skip(1))
    }
}

/// The excess-`bias` form of `n`: the padded unsigned digits of `n + bias`.
pub open spec fn excess_bits(bias: int, n: int) -> Seq<char> {
    padded(WIDTH as nat, binary_digits(magnitude(n + bias)))
}

/// Whether `bias` can be the bias of an excess notation of this width.
pub open spec fn valid_bias(bias: int) -> bool {
    0 <= bias <= MAX_BIAS
}

/// The least integer that excess-`bias` can hold.
pub open spec fn excess_min(bias: int) -> int {
    -bias
}

/// The greatest integer that excess-`bias` can hold: at most `2 * bias - 1`,
/// and no more than what still fits the width once the bias is added.
pub open spec fn excess_max(bias: int) -> int {
    if 2 * bias - 1 < UNSIGNED_MAX - bias {
        2 * bias - 1
    } else {
        UNSIGNED_MAX - bias
    }
}

/// What the sign-magnitude form looks like: eight bits, the first set
/// exactly for a negative number, the other seven holding the magnitude.
pub proof fn lemma_sign_magnitude_bits(n: int)
    requires
        in_range(n, SYMMETRIC_MIN as int, SIGNED_MAX as int),
    ensures
        sign_magnitude_bits(n).len() == WIDTH,
        is_bit_string(sign_magnitude_bits(n)),
        sign_magnitude_bits(n)[0] == '1' <==> n < 0,
        unsigned_value(sign_magnitude_bits(n).skip(1)) == magnitude(n),
{
    lemma2_to64();
    lemma_padded_digits(7, magnitude(n));
    assert(sign_magnitude_bits(n).skip(1) =~= padded(7, binary_digits(magnitude(n))));
}

/// What the one's-complement form looks like: eight bits, the first set
/// exactly for a negative number, with the value `n` for a non-negative
/// number and `255 + n` for a negative one.
pub proof fn lemma_ones_complement_bits(n: int)
    requires
        in_range(n, SYMMETRIC_MIN as int, SIGNED_MAX as int),
    ensures
        ones_complement_bits(n).len() == WIDTH,
        is_bit_string(ones_complement_bits(n)),
        ones_complement_bits(n)[0] == '1' <==> n < 0,
        unsigned_value(ones_complement_bits(n)) == if n < 0 { UNSIGNED_MAX + n } else { n },
{
    lemma2_to64();
    lemma_padded_digits(8, magnitude(n));
    lemma_flipped_value(padded(8, binary_digits(magnitude(n))));
    lemma_leading_bit(ones_complement_bits(n));
}

/// What the two's-complement form looks like: eight bits, the first set
/// exactly for a negative number, with the value `n` for a non-negative
/// number and `256 + n` for a negative one.
pub proof fn lemma_twos_complement_bits(n: int)
    requires
        in_range(n, TWOS_COMPLEMENT_MIN as int, SIGNED_MAX as int),
    ensures
        twos_complement_bits(n).len() == WIDTH,
        is_bit_string(twos_complement_bits(n)),
        twos_complement_bits(n)[0] == '1' <==> n < 0,
        unsigned_value(twos_complement_bits(n)) == if n < 0 { UNSIGNED_MAX + 1 + n } else { n },
{
    lemma2_to64();
    if n >= 0 {
        lemma_ones_complement_bits(n);
    } else if n == TWOS_COMPLEMENT_MIN {
        lemma_value_repeated(7);
        lemma_value_split_first(twos_complement_bits(n));
        assert(twos_complement_bits(n).skip(1) =~= zeros(7));
    } else {
        lemma_ones_complement_bits(n);
        let oc = ones_complement_bits(n);
        let low = oc.skip(1);
        lemma_value_split_first(oc);
        lemma_below_maximum_has_zero(low);
        lemma_incremented(low);
        lemma_value_split_first(twos_complement_bits(n));
        assert(twos_complement_bits(n).skip(1) =~= incremented(low));
    }
}

/// What the excess form looks like: eight bits with the value
/// `n + bias`.
pub proof fn lemma_excess_bits(bias: int, n: int)
    requires
        0 <= n + bias <= UNSIGNED_MAX,
    ensures
        excess_bits(bias, n).len() == WIDTH,
        is_bit_string(excess_bits(bias, n)),
        unsigned_value(excess_bits(bias, n)) == n + bias,
{
    lemma2_to64();
    lemma_padded_digits(8, magnitude(n + bias));
}

/// Encodes `n` in sign-magnitude form. Integers outside -127..=127 are
/// refused with the permitted bounds.
pub fn to_signed(n: i32) -> (r: Result<String, CodecError>)
    ensures
        match r {
            Ok(s) => in_range(n as int, SYMMETRIC_MIN as int, SIGNED_MAX as int) && s@
                == sign_magnitude_bits(n as int),
            Err(e) => !in_range(n as int, SYMMETRIC_MIN as int, SIGNED_MAX as int) && e
                == (CodecError::RangeError { min: SYMMETRIC_MIN, max: SIGNED_MAX, actual: n }),
        },
        r matches Ok(s) ==> s@.len() == WIDTH && is_bit_string(s@) && (s@[0] == '1' <==> n < 0),
        r matches Ok(s) ==> unsigned_value(s@.skip(1)) == magnitude(n as int),
{
    validate_number(n, SYMMETRIC_MIN, SIGNED_MAX)?;
    let digits = to_unsigned_unpadded(n);
    let body = pad(WIDTH - 1, digits.as_str());
    proof {
        reveal_strlit("1");
        reveal_strlit("0");
    }
    let mut out = if n < 0 {
        String::from_str("1")
    } else {
        String::from_str("0")
    };
    out.append(body.as_str());
    proof {
        assert(out@ =~= sign_magnitude_bits(n as int));
        lemma_sign_magnitude_bits(n as int);
    }
    Ok(out)
}

/// Encodes `n` in one's-complement form. Integers outside -127..=127 are
/// refused with the permitted bounds.
pub fn to_ones_complement(n: i32) -> (r: Result<String, CodecError>)
    ensures
        match r {
            Ok(s) => in_range(n as int, SYMMETRIC_MIN as int, SIGNED_MAX as int) && s@
                == ones_complement_bits(n as int),
            Err(e) => !in_range(n as int, SYMMETRIC_MIN as int, SIGNED_MAX as int) && e
                == (CodecError::RangeError { min: SYMMETRIC_MIN, max: SIGNED_MAX, actual: n }),
        },
        r matches Ok(s) ==> s@.len() == WIDTH && is_bit_string(s@) && (s@[0] == '1' <==> n < 0),
        r matches Ok(s) ==> unsigned_value(s@) == if n < 0 { UNSIGNED_MAX + n } else { n as int },
{
    validate_number(n, SYMMETRIC_MIN, SIGNED_MAX)?;
    let digits = to_unsigned_unpadded(n);
    let padded_digits = pad(WIDTH, digits.as_str());
    proof {
        lemma_ones_complement_bits(n as int);
    }
    if n < 0 {
        Ok(flip_bits(padded_digits.as_str()))
    } else {
        Ok(padded_digits)
    }
}

/// Encodes `n` in two's-complement form. Integers outside -128..=127 are
/// refused with the permitted bounds.
pub fn to_twos_complement(n: i32) -> (r: Result<String, CodecError>)
    ensures
        match r {
            Ok(s) => in_range(n as int, TWOS_COMPLEMENT_MIN as int, SIGNED_MAX as int) && s@
                == twos_complement_bits(n as int),
            Err(e) => !in_range(n as int, TWOS_COMPLEMENT_MIN as int, SIGNED_MAX as int) && e == (
            CodecError::RangeError { min: TWOS_COMPLEMENT_MIN, max: SIGNED_MAX, actual: n }),
        },
        r matches Ok(s) ==> s@.len() == WIDTH && is_bit_string(s@) && (s@[0] == '1' <==> n < 0),
        r matches Ok(s) ==> unsigned_value(s@) == if n < 0 { UNSIGNED_MAX + 1 + n } else { n as int },
{
    validate_number(n, TWOS_COMPLEMENT_MIN, SIGNED_MAX)?;
    proof {
        lemma_twos_complement_bits(n as int);
    }
    match to_ones_complement(n) {
        Err(_) => {
            // The least value is the only valid input that has no one's
            // complement; its form is known.
            proof {
                reveal_strlit("10000000");
            }
            Ok(String::from_str("10000000"))
        },
        Ok(as_ones_complement) => {
            if n >= 0 {
                return Ok(as_ones_complement);
            }
            let low = as_ones_complement.as_str().substring_char(1, WIDTH);
            let low_plus_one = increment(low);
            proof {
                reveal_strlit("1");
            }
            let mut out = String::from_str("1");
            out.append(low_plus_one.as_str());
            proof {
                assert(out@ =~= twos_complement_bits(n as int));
            }
            Ok(out)
        },
    }
}

/// Encodes `n` in excess-`e` form: the unsigned digits of `n + e`. A bias
/// outside 0..=128 is refused; so is an `n` outside the range that the bias
/// allows, each with the permitted bounds.
pub fn to_excess(e: i32, n: i32) -> (r: Result<String, CodecError>)
    ensures
        match r {
            Ok(s) => valid_bias(e as int) && in_range(
                n as int,
                excess_min(e as int),
                excess_max(e as int),
            ) && s@ == excess_bits(e as int, n as int),
            Err(err) => if !valid_bias(e as int) {
                err == (CodecError::RangeError { min: 0, max: MAX_BIAS, actual: e })
            } else {
                !in_range(n as int, excess_min(e as int), excess_max(e as int)) && err == (
                CodecError::RangeError {
                    min: excess_min(e as int) as i32,
                    max: excess_max(e as int) as i32,
                    actual: n,
                })
            },
        },
        r matches Ok(s) ==> s@.len() == WIDTH && is_bit_string(s@) && unsigned_value(s@) == n + e,
{
    validate_number(e, 0, MAX_BIAS)?;
    let max: i32 = if 2 * e - 1 < UNSIGNED_MAX - e {
        2 * e - 1
    } else {
        UNSIGNED_MAX - e
    };
    validate_number(n, -e, max)?;
    let unpadded_bit_string = to_unsigned_unpadded(n + e);
    proof {
        lemma_excess_bits(e as int, n as int);
    }
    Ok(pad(WIDTH, unpadded_bit_string.as_str()))
}

} // verus!
