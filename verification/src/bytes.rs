//! Reading an unsigned decimal number from ASCII digits.
use vstd::prelude::*;

use crate::ascii::{NINE, ZERO};

verus! {

/// Whether `b` is one of the ASCII digits `0` to `9`.
pub open spec fn is_digit(b: u8) -> bool {
    ZERO <= b <= NINE
}

/// The number that the ASCII digit `b` stands for; zero for any other byte.
pub open spec fn digit_value(b: u8) -> nat {
    if is_digit(b) {
        (b - ZERO) as nat
    } else {
        0
    }
}

/// Whether every byte of `s` is an ASCII digit.
pub open spec fn is_digits(s: Seq<u8>) -> bool {
    forall|i: int| 0 <= i < s.len() ==> is_digit(#[trigger] s[i])
}

/// The number that `s` spells in decimal, most significant digit first.
pub open spec fn digits_value(s: Seq<u8>) -> nat
    decreases s.len(),
{
    if s.len() == 0 {
        0
    } else {
        digits_value(s.drop_last()) * 10 + digit_value(s.last())
    }
}

/// What [`parse_bytes`] makes of `s`: its decimal value, provided that `s` is
/// one or more ASCII digits and spells a number that fits in 32 bits.
pub open spec fn parsed_number(s: Seq<u8>) -> Option<u32> {
    if s.len() > 0 && is_digits(s) && digits_value(s) <= u32::MAX {
        Some(digits_value(s) as u32)
    } else {
        None
    }
}

/// A number spelled by a prefix is no larger than the number spelled by the
/// whole.
pub proof fn lemma_prefix_value_le(s: Seq<u8>, k: int)
    requires
        0 <= k <= s.len(),
    ensures
        digits_value(s.take(k)) <= digits_value(s),
    decreases s.len() - k,
{
    if k == s.len() {
        assert(s.take(k) =~= s);
    } else {
        lemma_prefix_value_le(s.drop_last(), k);
        assert(s.drop_last().take(k) =~= s.take(k));
    }
}

/// Reads `b` as an unsigned decimal number. Anything but ASCII digits, an
/// empty slice, or a number beyond 32 bits gives `None`.
pub fn parse_bytes(b: &[u8]) -> (number: Option<u32>)
    ensures
        number == parsed_number(b@),
{
    if b.len() == 0 {
        return None;
    }
    let mut value: u32 = 0;
    let mut i: usize = 0;
    while i < b.len()
        invariant
            0 <= i <= b.len(),
            is_digits(b@.take(i as int)),
            value == digits_value(b@.take(i as int)),
        decreases b.len() - i,
    {
        let c: u8 = b[i];
        if c < ZERO || c > NINE {
            assert(!is_digit(b@[i as int]));
            return None;
        }
        let digit: u32 = (c - ZERO) as u32;
        proof {
            assert(b@.take(i + 1).drop_last() =~= b@.take(i as int));
            assert(b@.take(i + 1).last() == c);
            lemma_prefix_value_le(b@, i + 1);
        }
        let next = match value.checked_mul(10) {
            Some(tens) => tens.checked_add(digit),
            None => None,
        };
        match next {
            Some(n) => {
                value = n;
            },
            None => {
                return None;
            },
        }
        i += 1;
    }
    assert(b@.take(i as int) =~= b@);
    Some(value)
}

} // verus!
