//! The mathematical model of bit strings, and the primitives that build
//! and read them.
//!
//! A bit string is a sequence of the characters '0' and '1', read with the
//! most significant bit first. The model speaks of `Seq<char>`, the view of
//! a string; the functions work on `&str` and `String`.

use crate::bit_lemmas::{
    lemma_digits_unique, lemma_digits_value, lemma_padded, lemma_value_below_width,
};
use crate::error::CodecError;
use vstd::arithmetic::power2::{lemma2_to64, lemma_pow2_unfold, pow2};
use vstd::prelude::*;
use vstd::string::*;

verus! {

/// The number of bits in an encoded value.
pub const WIDTH: usize = 8;

/// Whether `c` is one of the two bit characters.
pub open spec fn is_bit(c: char) -> bool {
    c == '0' || c == '1'
}

/// Whether every character of `s` is a bit character.
pub open spec fn is_bit_string(s: Seq<char>) -> bool {
    forall|i: int| 0 <= i < s.len() ==> is_bit(#[trigger] s[i])
}

/// The numeric weight of one character: 1 for '1', 0 for anything else.
pub open spec fn bit_of(c: char) -> nat {
    if c == '1' {
        1
    } else {
        0
    }
}

/// The character that stands for the bit `b`.
pub open spec fn bit_char(b: nat) -> char {
    if b == 0 {
        '0'
    } else {
        '1'
    }
}

/// The unsigned value of `s`: the sum over its characters of the bit times
/// two to the power of its distance from the last character. Each step of
/// the recursion doubles the value of what stands before the last
/// character and adds the last bit.
pub open spec fn unsigned_value(s: Seq<char>) -> nat
    decreases s.len(),
{
    if s.len() == 0 {
        0
    } else {
        2 * unsigned_value(s.drop_last()) + bit_of(s.last())
    }
}

/// The shortest bit string whose unsigned value is `m`: no leading zero,
/// except that zero itself is the single character '0'.
pub open spec fn binary_digits(m: nat) -> Seq<char>
    decreases m,
{
    if m < 2 {
        seq![bit_char(m)]
    } else {
        binary_digits(m / 2).push(bit_char(m % 2))
    }
}

/// The absolute value of `n`.
pub open spec fn magnitude(n: int) -> nat {
    if n < 0 {
        (-n) as nat
    } else {
        n as nat
    }
}

/// A run of `n` copies of the character `c`.
pub open spec fn repeated(c: char, n: nat) -> Seq<char> {
    Seq::new(n, |i: int| c)
}

/// A run of `n` zero characters.
pub open spec fn zeros(n: nat) -> Seq<char> {
    repeated('0', n)
}

/// A run of `n` one characters.
pub open spec fn ones(n: nat) -> Seq<char> {
    repeated('1', n)
}

/// `s` brought to `width` characters by leading zeros; a string that is
/// already that long or longer is left as it is.
pub open spec fn padded(width: nat, s: Seq<char>) -> Seq<char> {
    if s.len() >= width {
        s
    } else {
        zeros((width - s.len()) as nat) + s
    }
}

/// The opposite bit character: '1' for '0', and '0' for anything else.
pub open spec fn flipped_char(c: char) -> char {
    if c == '0' {
        '1'
    } else {
        '0'
    }
}

/// `s` with every character replaced by its opposite, in the same order.
pub open spec fn flipped(s: Seq<char>) -> Seq<char> {
    Seq::new(s.len(), |i: int| flipped_char(s[i]))
}

/// Why a decoder refuses to read `s`, if it does: a string longer than
/// [`WIDTH`] is a length error, and a shorter one that holds anything but
/// bit characters is a format error.
pub open spec fn input_fault(s: Seq<char>) -> Option<CodecError> {
    if s.len() > WIDTH {
        Some(CodecError::LengthError { max_bits: WIDTH, actual_bits: s.len() as usize })
    } else if !is_bit_string(s) {
        Some(CodecError::FormatError)
    } else {
        None
    }
}

/// Renders the magnitude of `n` as the shortest unsigned bit string, with no
/// padding: the place values from the highest one that fits down to one are
/// tried in turn against what is left of the magnitude.
pub fn to_unsigned_unpadded(n: i32) -> (r: String)
    ensures
        r@ == binary_digits(magnitude(n as int)),
        is_bit_string(r@),
        unsigned_value(r@) == magnitude(n as int),
        r@.len() >= 1,
        n != 0 ==> r@[0] == '1',
{
    let m: u64 = if n < 0 {
        (-(n as i64)) as u64
    } else {
        n as u64
    };
    proof {
        lemma_digits_value(m as nat);
    }
    if m == 0 {
        proof {
            reveal_strlit("0");
        }
        return String::from_str("0");
    }
    let mut num_bits: u32 = 0;
    let mut place: u64 = 1;
    proof {
        lemma2_to64();
    }
    while place <= m
        invariant
            0 < m <= 0x8000_0000,
            num_bits <= 32,
            place == pow2(num_bits as nat),
            num_bits > 0 ==> pow2((num_bits - 1) as nat) <= m,
        decreases 33 - num_bits,
    {
        proof {
            lemma_pow2_unfold((num_bits + 1) as nat);
            if num_bits >= 32 {
                lemma2_to64();
            }
        }
        place = place * 2;
        num_bits = num_bits + 1;
    }
    let mut out = String::new();
    let mut remaining: u64 = m;
    let mut left: u32 = num_bits;
    proof {
        assert(unsigned_value(out@) == 0);
    }
    while left > 0
        invariant
            0 < m <= 0x8000_0000,
            left <= num_bits <= 32,
            num_bits > 0,
            pow2((num_bits - 1) as nat) <= m,
            place == pow2(left as nat),
            remaining < place,
            is_bit_string(out@),
            out@.len() == num_bits - left,
            unsigned_value(out@) * place + remaining == m,
            out@.len() > 0 ==> out@[0] == '1',
        decreases left,
    {
        proof {
            lemma_pow2_unfold(left as nat);
        }
        let ghost before = out@;
        let ghost old_place = place;
        place = place / 2;
        left = left - 1;
        if place <= remaining {
            proof {
                reveal_strlit("1");
            }
            out.append("1");
            remaining = remaining - place;
            proof {
                assert(out@.drop_last() =~= before);
                assert(unsigned_value(out@) * place == unsigned_value(before) * old_place + place)
                    by (nonlinear_arith)
                    requires
                        unsigned_value(out@) == 2 * unsigned_value(before) + 1,
                        old_place == 2 * place,
                ;
            }
        } else {
            proof {
                reveal_strlit("0");
            }
            out.append("0");
            proof {
                assert(out@.drop_last() =~= before);
                assert(unsigned_value(out@) * place == unsigned_value(before) * old_place)
                    by (nonlinear_arith)
                    requires
                        unsigned_value(out@) == 2 * unsigned_value(before),
                        old_place == 2 * place,
                ;
                if before.len() == 0 {
                    // The first place value tried is the highest one that
                    // fits, so the first digit is never '0'.
                    assert(remaining == m) by (nonlinear_arith)
                        requires
                            unsigned_value(before) * old_place + remaining == m,
                            unsigned_value(before) == 0,
                    ;
                    assert(place <= remaining);
                }
            }
        }
    }
    proof {
        assert(unsigned_value(out@) == m) by (nonlinear_arith)
            requires
                unsigned_value(out@) * place + remaining == m,
                place == 1,
                remaining < place,
        ;
        lemma_digits_unique(out@);
    }
    out
}

/// Appends `count` copies of one bit character to `out`: '1' if `one` is
/// set, else '0'.
pub(crate) fn push_run(out: &mut String, one: bool, count: usize)
    ensures
        final(out)@ == old(out)@ + repeated(if one { '1' } else { '0' }, count as nat),
{
    let ghost start = out@;
    let ghost c = if one { '1' } else { '0' };
    let mut done: usize = 0;
    while done < count
        invariant
            done <= count,
            c == (if one { '1' } else { '0' }),
            out@ == start + repeated(c, done as nat),
        decreases count - done,
    {
        proof {
            reveal_strlit("1");
            reveal_strlit("0");
        }
        if one {
            out.append("1");
        } else {
            out.append("0");
        }
        done = done + 1;
    }
}

/// Pads a bit string with leading zeros to `num_bits` characters. A string
/// that is already longer is returned unchanged: nothing is ever cut off.
pub fn pad(num_bits: usize, bit_string: &str) -> (r: String)
    ensures
        r@ == padded(num_bits as nat, bit_string@),
        r@.len() == if bit_string@.len() >= num_bits { bit_string@.len() } else { num_bits as nat },
        unsigned_value(r@) == unsigned_value(bit_string@),
        is_bit_string(bit_string@) ==> is_bit_string(r@),
{
    let len: usize = bit_string.unicode_len();
    let mut out = String::new();
    if len < num_bits {
        push_run(&mut out, false, num_bits - len);
    }
    out.append(bit_string);
    proof {
        lemma_padded(num_bits as nat, bit_string@);
    }
    out
}

/// Flips every bit of a bit string: each '0' becomes '1' and each '1'
/// becomes '0', with length and order kept. Any other character is read as
/// a set bit and becomes '0'.
pub fn flip_bits(bit_string: &str) -> (r: String)
    ensures
        r@ == flipped(bit_string@),
        r@.len() == bit_string@.len(),
        forall|i: int| 0 <= i < r@.len() ==> r@[i] == flipped_char(#[trigger] bit_string@[i]),
{
    let mut out = String::new();
    for c in it: bit_string.chars()
        invariant
            it.seq() == bit_string@,
            out@ == flipped(bit_string@.take(it.index() as int)),
    {
        proof {
            reveal_strlit("1");
            reveal_strlit("0");
        }
        if c == '0' {
            out.append("1");
        } else {
            out.append("0");
        }
    }
    out
}

/// Whether every character of `bit_string` is '0' or '1'.
fn is_binary(bit_string: &str) -> (b: bool)
    ensures
        b == is_bit_string(bit_string@),
{
    for c in it: bit_string.chars()
        invariant
            it.seq() == bit_string@,
            forall|j: int| 0 <= j < it.index() ==> is_bit(#[trigger] bit_string@[j]),
    {
        if c != '0' && c != '1' {
            return false;
        }
    }
    true
}

/// Whether `bit_string` is a full encoded value: exactly [`WIDTH`]
/// characters, each of them '0' or '1'.
pub fn is_valid_8_bit_binary_string(bit_string: &str) -> (b: bool)
    ensures
        b == (bit_string@.len() == WIDTH && is_bit_string(bit_string@)),
{
    bit_string.unicode_len() == WIDTH && is_binary(bit_string)
}

/// Checks that a decoder can read `bit_string`: at most [`WIDTH`]
/// characters, each of them '0' or '1'. The length is checked first.
pub(crate) fn check_input(bit_string: &str) -> (r: Result<(), CodecError>)
    ensures
        match input_fault(bit_string@) {
            Some(e) => r == Err::<(), CodecError>(e),
            None => r is Ok,
        },
{
    let len: usize = bit_string.unicode_len();
    if len > WIDTH {
        return Err(CodecError::LengthError { max_bits: WIDTH, actual_bits: len });
    }
    if !is_binary(bit_string) {
        return Err(CodecError::FormatError);
    }
    Ok(())
}

/// The unsigned value of a bit string that fits the width, most
/// significant bit first.
pub(crate) fn read_bits(bit_string: &str) -> (value: i32)
    requires
        input_fault(bit_string@) is None,
    ensures
        value == unsigned_value(bit_string@),
        0 <= value <= 255,
{
    let mut value: i32 = 0;
    for c in it: bit_string.chars()
        invariant
            it.seq() == bit_string@,
            bit_string@.len() <= WIDTH,
            value == unsigned_value(bit_string@.take(it.index() as int)),
    {
        proof {
            let seen = bit_string@.take(it.index() as int);
            lemma_value_below_width(seen);
            assert(bit_string@.take(it.index() + 1).drop_last() =~= seen);
        }
        value = 2 * value + (if c == '1' { 1 } else { 0 });
    }
    proof {
        assert(bit_string@.take(bit_string@.len() as int) =~= bit_string@);
        lemma_value_below_width(bit_string@);
    }
    value
}

/// Reads a bit string as an unsigned number, most significant bit first.
/// Strings of more than [`WIDTH`] characters, and strings with a character
/// other than '0' and '1', are refused.
pub fn from_unsigned(bit_string: &str) -> (r: Result<i32, CodecError>)
    ensures
        match input_fault(bit_string@) {
            Some(e) => r == Err::<i32, CodecError>(e),
            None => r matches Ok(v) && v == unsigned_value(bit_string@),
        },
{
    check_input(bit_string)?;
    Ok(read_bits(bit_string))
}

} // verus!
