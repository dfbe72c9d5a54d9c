//! Adding one to, and taking one from, an unsigned bit string by scanning
//! for its rightmost '0' or '1'.

use crate::bit_lemmas::{
    lemma_bit_string_concat, lemma_bit_string_subrange, lemma_value_bound, lemma_value_concat,
    lemma_value_injective, lemma_value_repeated,
};
use crate::bits::{is_bit, is_bit_string, ones, push_run, repeated, unsigned_value, zeros};
use vstd::arithmetic::power2::{lemma_pow2_pos, pow2};
use vstd::prelude::*;
use vstd::string::*;

verus! {

/// The index of the rightmost occurrence of `c` in `s`, or -1 if `s` does
/// not hold `c`.
pub open spec fn rightmost(s: Seq<char>, c: char) -> int
    decreases s.len(),
{
    if s.len() == 0 {
        -1
    } else if s.last() == c {
        s.len() - 1
    } else {
        rightmost(s.drop_last(), c)
    }
}

/// `s` plus one: the rightmost '0' becomes '1' and everything to its right
/// becomes '0'. A string without a '0' overflows into one more bit.
pub open spec fn incremented(s: Seq<char>) -> Seq<char> {
    let p = rightmost(s, '0');
    if p < 0 {
        seq!['1'] + zeros(s.len())
    } else {
        s.take(p).push('1') + zeros((s.len() - p - 1) as nat)
    }
}

/// `s` minus one: the rightmost '1' becomes '0' and everything to its right
/// becomes '1'. A string without a '1' stands for zero and has no
/// predecessor.
pub open spec fn decremented(s: Seq<char>) -> Option<Seq<char>> {
    let p = rightmost(s, '1');
    if p < 0 {
        None
    } else {
        Some(s.take(p).push('0') + ones((s.len() - p - 1) as nat))
    }
}

/// `rightmost` returns an index at which `c` stands and after which it
/// does not occur, or -1 where `c` does not occur at all.
pub proof fn lemma_rightmost(s: Seq<char>, c: char)
    ensures
        -1 <= rightmost(s, c) < s.len(),
        rightmost(s, c) >= 0 ==> s[rightmost(s, c)] == c,
        forall|j: int| rightmost(s, c) < j < s.len() ==> s[j] != c,
    decreases s.len(),
{
    if s.len() > 0 && s.last() != c {
        let head = s.drop_last();
        lemma_rightmost(head, c);
        assert forall|j: int| rightmost(s, c) < j < s.len() implies s[j] != c by {
            if j < head.len() {
                assert(head[j] == s[j]);
            }
        }
    }
}

/// Finds the rightmost occurrence of the bit character chosen by `one`, in
/// one pass that remembers the last match.
fn find_rightmost(bit_string: &str, one: bool) -> (r: Option<usize>)
    ensures
        match r {
            Some(p) => p == rightmost(bit_string@, if one { '1' } else { '0' }),
            None => rightmost(bit_string@, if one { '1' } else { '0' }) < 0,
        },
{
    let wanted = if one { '1' } else { '0' };
    let len: usize = bit_string.unicode_len();
    let mut found: Option<usize> = None;
    let mut position: usize = 0;
    for c in it: bit_string.chars()
        invariant
            it.seq() == bit_string@,
            len == bit_string@.len(),
            position == it.index(),
            wanted == (if one { '1' } else { '0' }),
            match found {
                Some(p) => p == rightmost(bit_string@.take(it.index() as int), wanted),
                None => rightmost(bit_string@.take(it.index() as int), wanted) < 0,
            },
    {
        proof {
            let prefix = bit_string@.take(it.index() + 1);
            assert(prefix.drop_last() =~= bit_string@.take(it.index() as int));
        }
        if c == wanted {
            found = Some(position);
        }
        position = position + 1;
    }
    proof {
        assert(bit_string@.take(len as int) =~= bit_string@);
    }
    found
}

/// Adds one to an unsigned bit string. The result has the length of the
/// input, unless the input holds no '0': then it is one bit longer.
pub fn increment(bit_string: &str) -> (r: String)
    ensures
        r@ == incremented(bit_string@),
        r@.len() == if rightmost(bit_string@, '0') >= 0 {
            bit_string@.len()
        } else {
            bit_string@.len() + 1
        },
        is_bit_string(bit_string@) ==> is_bit_string(r@) && unsigned_value(r@) == unsigned_value(
            bit_string@,
        ) + 1,
{
    let len: usize = bit_string.unicode_len();
    proof {
        lemma_rightmost(bit_string@, '0');
        if is_bit_string(bit_string@) {
            lemma_incremented(bit_string@);
        }
    }
    match find_rightmost(bit_string, false) {
        Some(p) => {
            let mut out = String::from_str(bit_string.substring_char(0, p));
            proof {
                reveal_strlit("1");
            }
            out.append("1");
            push_run(&mut out, false, len - p - 1);
            proof {
                assert(out@ =~= incremented(bit_string@));
            }
            out
        },
        None => {
            proof {
                reveal_strlit("1");
            }
            let mut out = String::from_str("1");
            push_run(&mut out, false, len);
            proof {
                assert(out@ =~= incremented(bit_string@));
            }
            out
        },
    }
}

/// Takes one from an unsigned bit string, keeping its length. A string
/// that holds no '1' stands for zero: there is nothing to take from, and
/// the result is `None`.
pub fn decrement(bit_string: &str) -> (r: Option<String>)
    ensures
        match decremented(bit_string@) {
            Some(d) => r matches Some(out) && out@ == d,
            None => r is None,
        },
        r matches Some(out) ==> out@.len() == bit_string@.len(),
        is_bit_string(bit_string@) ==> (r is None <==> unsigned_value(bit_string@) == 0),
        is_bit_string(bit_string@) ==> (r matches Some(out) ==> is_bit_string(out@)
            && unsigned_value(out@) + 1 == unsigned_value(bit_string@)),
{
    let len: usize = bit_string.unicode_len();
    proof {
        lemma_rightmost(bit_string@, '1');
        if is_bit_string(bit_string@) {
            lemma_decremented(bit_string@);
        }
    }
    match find_rightmost(bit_string, true) {
        Some(p) => {
            let mut out = String::from_str(bit_string.substring_char(0, p));
            proof {
                reveal_strlit("0");
            }
            out.append("0");
            push_run(&mut out, true, len - p - 1);
            proof {
                assert(out@ =~= decremented(bit_string@)->0);
            }
            Some(out)
        },
        None => None,
    }
}

/// In a bit string, what follows the rightmost occurrence of one bit
/// character is a run of the other.
proof fn lemma_tail_is_run(s: Seq<char>, c: char, other: char)
    requires
        is_bit_string(s),
        is_bit(c),
        is_bit(other),
        c != other,
    ensures
        s.skip(rightmost(s, c) + 1) == repeated(other, (s.len() - rightmost(s, c) - 1) as nat),
{
    lemma_rightmost(s, c);
    let p = rightmost(s, c);
    let rest = s.skip(p + 1);
    assert forall|i: int| 0 <= i < rest.len() implies rest[i] == other by {
        assert(is_bit(s[p + 1 + i]));
    }
}

/// Adding one to a bit string gives a bit string whose value is one more.
/// The length is kept where the string holds a '0', and grows by one where
/// it does not.
pub proof fn lemma_incremented(s: Seq<char>)
    requires
        is_bit_string(s),
    ensures
        is_bit_string(incremented(s)),
        unsigned_value(incremented(s)) == unsigned_value(s) + 1,
        incremented(s).len() == if rightmost(s, '0') >= 0 { s.len() } else { s.len() + 1 },
{
    lemma_rightmost(s, '0');
    lemma_tail_is_run(s, '0', '1');
    let p = rightmost(s, '0');
    let k = (s.len() - p - 1) as nat;
    lemma_value_repeated(k);
    if p < 0 {
        assert(s.skip(0) =~= s);
        let one = seq!['1'];
        assert(unsigned_value(one.drop_last()) == 0);
        assert(unsigned_value(one) == 1);
        lemma_value_concat(one, zeros(s.len()));
        lemma_bit_string_concat(one, zeros(s.len()));
    } else {
        let left = s.take(p);
        let before = left.push('0');
        let after = left.push('1');
        assert(s =~= before + s.skip(p + 1));
        assert(before.drop_last() =~= left);
        assert(after.drop_last() =~= left);
        lemma_value_concat(before, ones(k));
        lemma_value_concat(after, zeros(k));
        let a = unsigned_value(left) as int;
        let w = pow2(k) as int;
        assert((2 * a + 1) * w == (2 * a) * w + w) by (nonlinear_arith);
        lemma_bit_string_subrange(s, 0, p);
        lemma_bit_string_concat(after, zeros(k));
    }
}

/// Taking one from a bit string fails exactly where the value is zero;
/// elsewhere it gives a bit string of the same length whose value is one
/// less.
pub proof fn lemma_decremented(s: Seq<char>)
    requires
        is_bit_string(s),
    ensures
        decremented(s) is None <==> unsigned_value(s) == 0,
        decremented(s) matches Some(d) ==> {
            &&& is_bit_string(d)
            &&& d.len() == s.len()
            &&& unsigned_value(d) + 1 == unsigned_value(s)
        },
{
    lemma_rightmost(s, '1');
    lemma_tail_is_run(s, '1', '0');
    let p = rightmost(s, '1');
    let k = (s.len() - p - 1) as nat;
    lemma_value_repeated(k);
    if p < 0 {
        assert(s.skip(0) =~= s);
    } else {
        let left = s.take(p);
        let before = left.push('1');
        let after = left.push('0');
        assert(s =~= before + s.skip(p + 1));
        assert(before.drop_last() =~= left);
        assert(after.drop_last() =~= left);
        lemma_value_concat(before, zeros(k));
        lemma_value_concat(after, ones(k));
        let a = unsigned_value(left) as int;
        let w = pow2(k) as int;
        assert((2 * a + 1) * w == (2 * a) * w + w) by (nonlinear_arith);
        lemma_pow2_pos(k);
        assert((2 * a) * w >= 0) by (nonlinear_arith)
            requires
                a >= 0,
                w > 0,
        ;
        lemma_bit_string_subrange(s, 0, p);
        lemma_bit_string_concat(after, ones(k));
    }
}

/// Taking one undoes adding one, on a bit string that holds a '0'.
pub proof fn lemma_decrement_undoes_increment(s: Seq<char>)
    requires
        is_bit_string(s),
        rightmost(s, '0') >= 0,
    ensures
        decremented(incremented(s)) == Some(s),
{
    lemma_incremented(s);
    lemma_decremented(incremented(s));
    lemma_value_injective(decremented(incremented(s))->0, s);
}

/// Adding one undoes taking one, on a bit string that holds a '1'.
pub proof fn lemma_increment_undoes_decrement(s: Seq<char>)
    requires
        is_bit_string(s),
        decremented(s) is Some,
    ensures
        incremented(decremented(s)->0) == s,
{
    lemma_decremented(s);
    let d = decremented(s)->0;
    lemma_incremented(d);
    if rightmost(d, '0') < 0 {
        // A string of ones alone has the greatest value of its length.
        lemma_rightmost(d, '0');
        lemma_tail_is_run(d, '0', '1');
        assert(d.skip(0) =~= d);
        lemma_value_repeated(d.len());
        lemma_value_bound(s);
    }
    lemma_value_injective(incremented(d), s);
}

/// A bit string whose value is below the greatest of its length holds a
/// '0'.
pub proof fn lemma_below_maximum_has_zero(s: Seq<char>)
    requires
        is_bit_string(s),
        unsigned_value(s) < pow2(s.len()) - 1,
    ensures
        rightmost(s, '0') >= 0,
{
    if rightmost(s, '0') < 0 {
        lemma_rightmost(s, '0');
        lemma_tail_is_run(s, '0', '1');
        assert(s.skip(0) =~= s);
        lemma_value_repeated(s.len());
    }
}

} // verus!
