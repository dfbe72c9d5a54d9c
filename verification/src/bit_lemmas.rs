//! Facts about the bit-string model: how value, length and the shape of a
//! string relate under concatenation, padding and flipping.

use crate::bits::{
    binary_digits, bit_of, flipped, is_bit, is_bit_string, ones, padded, unsigned_value, zeros,
    WIDTH,
};
use vstd::arithmetic::power2::{lemma2_to64, lemma_pow2_strictly_increases, lemma_pow2_unfold, pow2};
use vstd::prelude::*;

verus! {

/// A part of a bit string is a bit string.
pub proof fn lemma_bit_string_subrange(s: Seq<char>, from: int, to: int)
    requires
        is_bit_string(s),
        0 <= from <= to <= s.len(),
    ensures
        is_bit_string(s.subrange(from, to)),
{
    let part = s.subrange(from, to);
    assert forall|i: int| 0 <= i < part.len() implies is_bit(#[trigger] part[i]) by {
        assert(part[i] == s[from + i]);
    }
}

/// Two bit strings joined end to end are a bit string.
pub proof fn lemma_bit_string_concat(a: Seq<char>, b: Seq<char>)
    requires
        is_bit_string(a),
        is_bit_string(b),
    ensures
        is_bit_string(a + b),
{
    let joined = a + b;
    assert forall|i: int| 0 <= i < joined.len() implies is_bit(#[trigger] joined[i]) by {
        if i < a.len() {
            assert(joined[i] == a[i]);
        } else {
            assert(joined[i] == b[i - a.len()]);
        }
    }
}

/// The value of two strings joined end to end: the first is shifted left
/// by the length of the second.
pub proof fn lemma_value_concat(a: Seq<char>, b: Seq<char>)
    ensures
        unsigned_value(a + b) == unsigned_value(a) * pow2(b.len()) + unsigned_value(b),
    decreases b.len(),
{
    if b.len() == 0 {
        lemma2_to64();
        assert(unsigned_value(a) * pow2(0) == unsigned_value(a)) by (nonlinear_arith)
            requires
                pow2(0) == 1,
        ;
    } else {
        let joined = a + b;
        assert(joined.drop_last() =~= a + b.drop_last());
        lemma_value_concat(a, b.drop_last());
        lemma_pow2_unfold(b.len());
        let va = unsigned_value(a) as int;
        let p = pow2((b.len() - 1) as nat) as int;
        assert(2 * (va * p) == va * (2 * p)) by (nonlinear_arith);
        assert(unsigned_value(joined) == 2 * unsigned_value(joined.drop_last()) + bit_of(
            joined.last(),
        ));
    }
}

/// A run of zeros has the value zero; a run of `n` ones has the value two
/// to the power `n`, less one.
pub proof fn lemma_value_repeated(n: nat)
    ensures
        unsigned_value(zeros(n)) == 0,
        unsigned_value(ones(n)) == pow2(n) - 1,
        is_bit_string(zeros(n)),
        is_bit_string(ones(n)),
    decreases n,
{
    if n == 0 {
        lemma2_to64();
    } else {
        lemma_value_repeated((n - 1) as nat);
        assert(zeros(n).drop_last() =~= zeros((n - 1) as nat));
        assert(ones(n).drop_last() =~= ones((n - 1) as nat));
        lemma_pow2_unfold(n);
    }
}

/// Padding changes neither the value of a string nor its being a bit
/// string, and brings its length to the width or leaves it longer.
pub proof fn lemma_padded(width: nat, s: Seq<char>)
    ensures
        unsigned_value(padded(width, s)) == unsigned_value(s),
        padded(width, s).len() == if s.len() >= width { s.len() } else { width },
        is_bit_string(s) ==> is_bit_string(padded(width, s)),
{
    if s.len() < width {
        let fill = zeros((width - s.len()) as nat);
        lemma_value_repeated((width - s.len()) as nat);
        lemma_value_concat(fill, s);
        if is_bit_string(s) {
            lemma_bit_string_concat(fill, s);
        }
    }
}

/// The digits of a number are bit characters, and there is at least one.
pub proof fn lemma_digits_are_bits(m: nat)
    ensures
        is_bit_string(binary_digits(m)),
        binary_digits(m).len() >= 1,
        m > 0 ==> binary_digits(m)[0] == '1',
    decreases m,
{
    if m >= 2 {
        lemma_digits_are_bits(m / 2);
        let head = binary_digits(m / 2);
        let all = binary_digits(m);
        assert forall|i: int| 0 <= i < all.len() implies is_bit(#[trigger] all[i]) by {
            if i < head.len() {
                assert(all[i] == head[i]);
            }
        }
    }
}

/// The digits of a number have that number as their unsigned value.
pub proof fn lemma_digits_value(m: nat)
    ensures
        unsigned_value(binary_digits(m)) == m,
    decreases m,
{
    if m < 2 {
        let s = binary_digits(m);
        assert(unsigned_value(s.drop_last()) == 0);
    } else {
        lemma_digits_value(m / 2);
        let s = binary_digits(m);
        assert(s.drop_last() =~= binary_digits(m / 2));
    }
}

/// A number below two to the power `k` has at most `k` digits.
pub proof fn lemma_digits_length(m: nat, k: nat)
    requires
        k >= 1,
        m < pow2(k),
    ensures
        binary_digits(m).len() <= k,
    decreases m,
{
    if m >= 2 {
        if k == 1 {
            lemma2_to64();
        } else {
            lemma_pow2_unfold(k);
            lemma_digits_length(m / 2, (k - 1) as nat);
        }
    }
}

/// Flipping keeps the length, yields a bit string, and turns the value of
/// a bit string into its distance from the all-ones string.
pub proof fn lemma_flipped_value(s: Seq<char>)
    ensures
        flipped(s).len() == s.len(),
        is_bit_string(flipped(s)),
        is_bit_string(s) ==> unsigned_value(flipped(s)) + unsigned_value(s) == pow2(s.len()) - 1,
    decreases s.len(),
{
    if s.len() == 0 {
        lemma2_to64();
    } else {
        lemma_flipped_value(s.drop_last());
        assert(flipped(s).drop_last() =~= flipped(s.drop_last()));
        lemma_pow2_unfold(s.len());
    }
}

/// Bit strings of one length that have one value are the same string.
pub proof fn lemma_value_injective(a: Seq<char>, b: Seq<char>)
    requires
        is_bit_string(a),
        is_bit_string(b),
        a.len() == b.len(),
        unsigned_value(a) == unsigned_value(b),
    ensures
        a == b,
    decreases a.len(),
{
    if a.len() > 0 {
        lemma_value_injective(a.drop_last(), b.drop_last());
        assert(a =~= a.drop_last().push(a.last()));
        assert(b =~= b.drop_last().push(b.last()));
    }
}

/// The value of a string splits into the weight of its first character and
/// the value of the rest.
pub proof fn lemma_value_split_first(s: Seq<char>)
    requires
        s.len() > 0,
    ensures
        unsigned_value(s) == bit_of(s[0]) * pow2((s.len() - 1) as nat) + unsigned_value(
            s.skip(1),
        ),
{
    let first = seq![s[0]];
    assert(unsigned_value(first.drop_last()) == 0);
    assert(s =~= first + s.skip(1));
    lemma_value_concat(first, s.skip(1));
}

/// The first character of a bit string is '1' exactly where the value
/// reaches the weight of that position.
pub proof fn lemma_leading_bit(s: Seq<char>)
    requires
        is_bit_string(s),
        s.len() > 0,
    ensures
        s[0] == '1' <==> unsigned_value(s) >= pow2((s.len() - 1) as nat),
{
    lemma_value_split_first(s);
    lemma_value_bound(s.skip(1));
    let w = pow2((s.len() - 1) as nat) as int;
    assert(1 * w == w && 0 * w == 0) by (nonlinear_arith);
}

/// The value of a string is below two to the power of its length.
pub proof fn lemma_value_bound(s: Seq<char>)
    ensures
        unsigned_value(s) < pow2(s.len()),
    decreases s.len(),
{
    if s.len() == 0 {
        lemma2_to64();
    } else {
        lemma_value_bound(s.drop_last());
        lemma_pow2_unfold(s.len());
    }
}

/// A string of at most [`WIDTH`] characters has a value that fits the
/// width.
pub proof fn lemma_value_below_width(s: Seq<char>)
    requires
        s.len() <= WIDTH,
    ensures
        unsigned_value(s) <= 255,
{
    lemma_value_bound(s);
    lemma2_to64();
    if s.len() < 8 {
        lemma_pow2_strictly_increases(s.len(), 8);
    }
}

/// A string that starts with '1' has a value of at least two to the power
/// of the number of characters that follow.
pub proof fn lemma_leading_one_positive(s: Seq<char>)
    requires
        s.len() > 0,
        s[0] == '1',
    ensures
        unsigned_value(s) >= pow2((s.len() - 1) as nat),
{
    lemma_value_split_first(s);
    let w = pow2((s.len() - 1) as nat) as int;
    assert(1 * w == w) by (nonlinear_arith);
}

/// A bit string that starts with '1' is the shortest one of its value.
pub proof fn lemma_digits_unique(s: Seq<char>)
    requires
        is_bit_string(s),
        s.len() > 0,
        s[0] == '1',
    ensures
        s == binary_digits(unsigned_value(s)),
    decreases s.len(),
{
    let head = s.drop_last();
    assert(s =~= head.push(s.last()));
    if s.len() == 1 {
        assert(unsigned_value(head) == 0);
    } else {
        lemma_digits_unique(head);
        lemma_leading_one_positive(head);
    }
}

/// The padded digits of a magnitude that fits `width` bits: exactly that
/// many bit characters, with the magnitude as their value.
pub proof fn lemma_padded_digits(width: nat, m: nat)
    requires
        width >= 1,
        m < pow2(width),
    ensures
        padded(width, binary_digits(m)).len() == width,
        is_bit_string(padded(width, binary_digits(m))),
        unsigned_value(padded(width, binary_digits(m))) == m,
{
    lemma_digits_are_bits(m);
    lemma_digits_value(m);
    lemma_digits_length(m, width);
    lemma_padded(width, binary_digits(m));
}

} // verus!
