//! What holds of every encoder and decoder together.

use crate::bit_lemmas::{lemma_flipped_value, lemma_value_repeated, lemma_value_split_first};
use crate::bits::{flipped, input_fault, is_bit, is_bit_string, zeros, WIDTH};
use crate::decode::{
    excess_value, ones_complement_value, sign_magnitude_value, signed_input_fault,
    twos_complement_value,
};
use crate::encode::{
    excess_bits, excess_max, excess_min, lemma_excess_bits, lemma_ones_complement_bits,
    lemma_sign_magnitude_bits, lemma_twos_complement_bits, ones_complement_bits,
    sign_magnitude_bits, twos_complement_bits, valid_bias, SIGNED_MAX, SYMMETRIC_MIN,
    TWOS_COMPLEMENT_MIN,
};
use crate::error::in_range;
use crate::notation::Notation;
use crate::step::{incremented, lemma_decrement_undoes_increment, lemma_decremented};
use vstd::arithmetic::power2::lemma2_to64;
use vstd::prelude::*;

verus! {

/// Decoding the sign-magnitude form of a representable `n` succeeds and
/// gives `n` back.
pub proof fn lemma_sign_magnitude_round_trip(n: int)
    requires
        in_range(n, SYMMETRIC_MIN as int, SIGNED_MAX as int),
    ensures
        signed_input_fault(sign_magnitude_bits(n)) is None,
        sign_magnitude_value(sign_magnitude_bits(n)) == n,
{
    lemma_sign_magnitude_bits(n);
    lemma_value_split_first(sign_magnitude_bits(n));
}

/// Decoding the one's-complement form of a representable `n` succeeds and
/// gives `n` back.
pub proof fn lemma_ones_complement_round_trip(n: int)
    requires
        in_range(n, SYMMETRIC_MIN as int, SIGNED_MAX as int),
    ensures
        signed_input_fault(ones_complement_bits(n)) is None,
        ones_complement_value(ones_complement_bits(n)) == n,
{
    lemma2_to64();
    lemma_ones_complement_bits(n);
    lemma_flipped_value(ones_complement_bits(n));
}

/// Decoding the two's-complement form of a representable `n` succeeds and
/// gives `n` back.
pub proof fn lemma_twos_complement_round_trip(n: int)
    requires
        in_range(n, TWOS_COMPLEMENT_MIN as int, SIGNED_MAX as int),
    ensures
        signed_input_fault(twos_complement_bits(n)) is None,
        twos_complement_value(twos_complement_bits(n)) == n,
{
    lemma2_to64();
    lemma_twos_complement_bits(n);
    let bits = twos_complement_bits(n);
    if n == TWOS_COMPLEMENT_MIN {
        assert(bits.skip(1) =~= zeros(7));
        lemma_value_repeated(7);
        lemma_decremented(zeros(7));
    } else if n < 0 {
        lemma_ones_complement_bits(n);
        let oc = ones_complement_bits(n);
        let low = oc.skip(1);
        lemma_value_split_first(oc);
        lemma_decrement_undoes_increment(low);
        assert(bits.skip(1) =~= incremented(low));
        lemma_flipped_value(low);
    }
}

/// Decoding the excess form of a representable `n` succeeds and gives `n`
/// back.
pub proof fn lemma_excess_round_trip(bias: int, n: int)
    requires
        valid_bias(bias),
        in_range(n, excess_min(bias), excess_max(bias)),
    ensures
        input_fault(excess_bits(bias, n)) is None,
        excess_value(bias, excess_bits(bias, n)) == n,
{
    lemma_excess_bits(bias, n);
}

/// Round trip: in every notation, decoding the encoded form of a
/// representable integer succeeds and gives the integer back.
pub proof fn lemma_round_trip(notation: Notation, n: int)
    requires
        notation.representable(n),
    ensures
        notation.input_fault(notation.bits(n)) is None,
        notation.value(notation.bits(n)) == n,
{
    match notation {
        Notation::SignMagnitude => lemma_sign_magnitude_round_trip(n),
        Notation::OnesComplement => lemma_ones_complement_round_trip(n),
        Notation::TwosComplement => lemma_twos_complement_round_trip(n),
        Notation::ExcessK(bias) => lemma_excess_round_trip(bias as int, n),
    }
}

/// Width: in every notation, the encoded form of a representable integer
/// is a bit string of exactly [`WIDTH`] characters.
pub proof fn lemma_encoded_width(notation: Notation, n: int)
    requires
        notation.representable(n),
    ensures
        notation.bits(n).len() == WIDTH,
        is_bit_string(notation.bits(n)),
{
    match notation {
        Notation::SignMagnitude => lemma_sign_magnitude_bits(n),
        Notation::OnesComplement => lemma_ones_complement_bits(n),
        Notation::TwosComplement => lemma_twos_complement_bits(n),
        Notation::ExcessK(bias) => lemma_excess_bits(bias as int, n),
    }
}

/// Sign bit: in the three notations that have one, the first bit of the
/// encoded form is '1' exactly for a negative integer, so zero always
/// starts with '0'.
pub proof fn lemma_sign_bit(notation: Notation, n: int)
    requires
        notation.has_sign_bit(),
        notation.representable(n),
    ensures
        notation.bits(n)[0] == '1' <==> n < 0,
        notation.bits(n)[0] == '0' <==> n >= 0,
{
    match notation {
        Notation::SignMagnitude => lemma_sign_magnitude_bits(n),
        Notation::OnesComplement => lemma_ones_complement_bits(n),
        Notation::TwosComplement => lemma_twos_complement_bits(n),
        Notation::ExcessK(_) => {},
    }
}

/// Flipping twice: flipping every bit of a bit string, and then every bit
/// of the result, gives the string back.
pub proof fn lemma_flip_involution(s: Seq<char>)
    requires
        is_bit_string(s),
    ensures
        flipped(flipped(s)) == s,
{
    assert forall|i: int| 0 <= i < s.len() implies flipped(flipped(s))[i] == s[i] by {
        assert(is_bit(s[i]));
    }
}

} // verus!
