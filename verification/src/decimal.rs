//! Unsigned decimal numbers written as text.
//!
//! A number is a non-empty run of the ASCII digits `0` to `9`. No sign, no
//! blanks, no separators. Leading zeros are allowed and do not change the
//! value.

use vstd::prelude::*;

verus! {

/// `c` is one of the ASCII digits `0` to `9`.
pub open spec fn is_digit(c: char) -> bool {
    '0' <= c && c <= '9'
}

/// The value of the digit `c`, between 0 and 9.
pub open spec fn digit_value(c: char) -> nat
    recommends
        is_digit(c),
{
    (c as u32 - '0' as u32) as nat
}

/// Every character of `s` is a digit.
pub open spec fn all_digits(s: Seq<char>) -> bool {
    forall|i: int| 0 <= i < s.len() ==> is_digit(#[trigger] s[i])
}

/// `s` is a well-formed number: at least one character, digits only.
pub open spec fn is_decimal(s: Seq<char>) -> bool {
    s.len() > 0 && all_digits(s)
}

/// The number that the digits `s` denote in base ten, most significant digit
/// first. The empty sequence denotes 0.
pub open spec fn decimal_value(s: Seq<char>) -> nat
    decreases s.len(),
{
    if s.len() == 0 {
        0
    } else {
        10 * decimal_value(s.drop_last()) + digit_value(s.last())
    }
}

/// What `s` reads as in 32 bits: its value where `s` is a well-formed number
/// that fits, `None` otherwise.
pub open spec fn number_of(s: Seq<char>) -> Option<u32> {
    if is_decimal(s) && decimal_value(s) <= u32::MAX {
        Some(decimal_value(s) as u32)
    } else {
        None
    }
}

/// Reading one more digit multiplies the value by ten and adds the digit.
pub proof fn lemma_decimal_value_push(s: Seq<char>, c: char)
    ensures
        decimal_value(s.push(c)) == 10 * decimal_value(s) + digit_value(c),
{
    assert(s.push(c).drop_last() =~= s);
}

/// The value of a prefix of a digit string is at most the value of the whole.
pub proof fn lemma_decimal_value_prefix(s: Seq<char>, k: int)
    requires
        0 <= k <= s.len(),
    ensures
        decimal_value(s.take(k)) <= decimal_value(s),
    decreases s.len(),
{
    if k == s.len() {
        assert(s.take(k) =~= s);
    } else {
        lemma_decimal_value_prefix(s.drop_last(), k);
        assert(s.drop_last().take(k) =~= s.take(k));
    }
}

/// A zero in front does not change the value.
pub proof fn lemma_decimal_value_leading_zero(s: Seq<char>)
    ensures
        decimal_value(seq!['0'] + s) == decimal_value(s),
    decreases s.len(),
{
    let zero = seq!['0'];
    if s.len() == 0 {
        assert(zero + s =~= zero);
        assert(zero.drop_last() =~= s);
    } else {
        lemma_decimal_value_leading_zero(s.drop_last());
        assert((zero + s).drop_last() =~= zero + s.drop_last());
    }
}

/// Reads `text` as an unsigned decimal number of 32 bits.
///
/// Returns the value where `text` is a non-empty run of ASCII digits whose
/// value is at most `u32::MAX`, and `None` for every other text: the empty
/// one, one with any other character (a sign and a blank included), and one
/// whose value does not fit.
pub fn parse_u32(text: &str) -> (r: Option<u32>)
    ensures
        r == number_of(text@),
{
    let mut value: u32 = 0;
    let mut empty: bool = true;
    for c in iter: text.chars()
        invariant
            iter.seq() == text@,
            empty == (iter.index() == 0),
            all_digits(text@.take(iter.index())),
            value == decimal_value(text@.take(iter.index())),
    {
        let ghost read = text@.take(iter.index());
        if !('0' <= c && c <= '9') {
            return None;
        }
        let digit: u32 = c as u32 - '0' as u32;
        proof {
            assert(text@.take(iter.index() + 1) =~= read.push(c));
            lemma_decimal_value_push(read, c);
            lemma_decimal_value_prefix(text@, iter.index() + 1);
        }
        let next: Option<u32> = match value.checked_mul(10) {
            Some(tens) => tens.checked_add(digit),
            None => None,
        };
        match next {
            Some(n) => {
                value = n;
            },
            None => {
                return None;
            },
        }
        empty = false;
    }
    assert(text@.take(text@.len() as int) =~= text@);
    if empty {
        None
    } else {
        Some(value)
    }
}

} // verus!
