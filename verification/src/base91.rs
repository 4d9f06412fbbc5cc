//! Numbers written in base 91 with printable ASCII digits.
//!
//! The digit for `d` is the character with code `33 + d`, so the digits run
//! from `!` for zero to `{` for ninety. A number is written most significant
//! digit first, in a field of fixed width, with `!` filling unused places.
use vstd::arithmetic::power::pow;
use vstd::prelude::*;

use crate::error::EncodeError;

verus! {

/// The base.
pub const BASE: u64 = 91;

/// `!`, the digit for zero.
pub const FIRST_DIGIT: u8 = 33;

/// `{`, the digit for ninety.
pub const LAST_DIGIT: u8 = 123;

/// Whether `b` is a base-91 digit.
pub open spec fn is_base91_digit(b: u8) -> bool {
    FIRST_DIGIT <= b <= LAST_DIGIT
}

/// The number that the base-91 digit `b` stands for; zero for any other
/// byte.
pub open spec fn base91_digit_value(b: u8) -> nat {
    if is_base91_digit(b) {
        (b - FIRST_DIGIT) as nat
    } else {
        0
    }
}

/// Whether every byte of `s` is a base-91 digit.
pub open spec fn is_base91(s: Seq<u8>) -> bool {
    forall|i: int| 0 <= i < s.len() ==> is_base91_digit(#[trigger] s[i])
}

/// The number that `s` spells in base 91, most significant digit first.
pub open spec fn base91_value(s: Seq<u8>) -> nat
    decreases s.len(),
{
    if s.len() == 0 {
        0
    } else {
        base91_value(s.drop_last()) * 91 + base91_digit_value(s.last())
    }
}

/// `n` written in base 91 in a field of `width` digits. Where `n` has more
/// digits than that, these are its `width` least significant ones.
pub open spec fn base91_digits(n: nat, width: nat) -> Seq<u8>
    decreases width,
{
    if width == 0 {
        Seq::<u8>::empty()
    } else {
        base91_digits(n / 91, (width - 1) as nat).push((FIRST_DIGIT + n % 91) as u8)
    }
}

/// What [`decode_ascii`] makes of `s`: the number it spells, provided that
/// `s` is base-91 digits and the number fits in 64 bits.
pub open spec fn decoded_number(s: Seq<u8>) -> Option<u64> {
    if is_base91(s) && base91_value(s) <= u64::MAX {
        Some(base91_value(s) as u64)
    } else {
        None
    }
}

/// A number spelled by a prefix is no larger than the number spelled by the
/// whole.
pub proof fn lemma_prefix_value_le(s: Seq<u8>, k: int)
    requires
        0 <= k <= s.len(),
    ensures
        base91_value(s.take(k)) <= base91_value(s),
    decreases s.len() - k,
{
    if k == s.len() {
        assert(s.take(k) =~= s);
    } else {
        lemma_prefix_value_le(s.drop_last(), k);
        assert(s.drop_last().take(k) =~= s.take(k));
    }
}

/// Dividing by 91 takes one digit off the width that a number needs.
pub proof fn lemma_width_step(n: nat, width: nat)
    requires
        width > 0,
    ensures
        n < pow(91, width) <==> n / 91 < pow(91, (width - 1) as nat),
{
    let p = pow(91, (width - 1) as nat);
    assert(pow(91, width) == 91 * p) by {
        reveal(pow);
    }
    assert(n < 91 * p <==> n / 91 < p) by (nonlinear_arith);
}

/// Written in a field wide enough, a number is read back as it was: the
/// field holds `width` base-91 digits, and they spell `n`.
pub proof fn lemma_value_of_digits(n: nat, width: nat)
    requires
        n < pow(91, width),
    ensures
        base91_digits(n, width).len() == width,
        is_base91(base91_digits(n, width)),
        base91_value(base91_digits(n, width)) == n,
    decreases width,
{
    if width == 0 {
        assert(pow(91, 0) == 1) by {
            reveal(pow);
        }
    } else {
        lemma_width_step(n, width);
        lemma_value_of_digits(n / 91, (width - 1) as nat);
        let head = base91_digits(n / 91, (width - 1) as nat);
        let last = (FIRST_DIGIT + n % 91) as u8;
        assert(head.push(last).drop_last() =~= head);
        assert(head.push(last).last() == last);
    }
}

/// Base-91 digits spell a number that fits in their width, and writing that
/// number in the same width gives the digits back.
pub proof fn lemma_digits_of_value(s: Seq<u8>)
    requires
        is_base91(s),
    ensures
        base91_value(s) < pow(91, s.len()),
        base91_digits(base91_value(s), s.len()) == s,
    decreases s.len(),
{
    if s.len() == 0 {
        assert(pow(91, 0) == 1) by {
            reveal(pow);
        }
        assert(base91_digits(0, 0) =~= s);
    } else {
        let head = s.drop_last();
        lemma_digits_of_value(head);
        let n = base91_value(s);
        let d = base91_digit_value(s.last());
        assert(is_base91_digit(s.last()));
        assert(n == base91_value(head) * 91 + d);
        assert(n / 91 == base91_value(head) && n % 91 == d) by (nonlinear_arith)
            requires
                n == base91_value(head) * 91 + d,
                0 <= d < 91,
        ;
        lemma_width_step(n, s.len());
        assert(base91_digits(n, s.len()) =~= s);
    }
}

/// The number that a base-91 digit stands for.
pub fn digit_from_ascii(b: u8) -> (digit: Option<u8>)
    ensures
        digit is Some <==> is_base91_digit(b),
        digit matches Some(d) ==> d == base91_digit_value(b) && d < BASE,
{
    if b < FIRST_DIGIT || b > LAST_DIGIT {
        None
    } else {
        Some(b - FIRST_DIGIT)
    }
}

/// The base-91 digit that stands for `digit`.
pub(crate) fn digit_to_ascii(digit: u8) -> (b: u8)
    requires
        digit < BASE,
    ensures
        b == FIRST_DIGIT + digit,
        is_base91_digit(b),
        base91_digit_value(b) == digit,
{
    FIRST_DIGIT + digit
}

/// Reads `b` as a number in base 91. A byte that is no base-91 digit, or a
/// number beyond 64 bits, gives `None`. No digits at all spell zero.
pub fn decode_ascii(b: &[u8]) -> (number: Option<u64>)
    ensures
        number == decoded_number(b@),
{
    let mut value: u64 = 0;
    let mut i: usize = 0;
    while i < b.len()
        invariant
            0 <= i <= b.len(),
            is_base91(b@.take(i as int)),
            value == base91_value(b@.take(i as int)),
        decreases b.len() - i,
    {
        let digit = match digit_from_ascii(b[i]) {
            Some(digit) => digit,
            None => {
                assert(!is_base91_digit(b@[i as int]));
                return None;
            },
        };
        proof {
            assert(b@.take(i + 1).drop_last() =~= b@.take(i as int));
            assert(b@.take(i + 1).last() == b@[i as int]);
            lemma_prefix_value_le(b@, i + 1);
        }
        let next = match value.checked_mul(BASE) {
            Some(shifted) => shifted.checked_add(digit as u64),
            None => None,
        };
        match next {
            Some(n) => {
                value = n;
            },
            None => {
                return None;
            },
        }
        i += 1;
    }
    assert(b@.take(i as int) =~= b@);
    Some(value)
}

/// Appends `value` to `buf` as `width` base-91 digits. Where `value` needs
/// more digits than that, nothing is appended.
pub fn encode_ascii(value: u64, buf: &mut Vec<u8>, width: usize) -> (written: Result<
    (),
    EncodeError,
>)
    ensures
        written is Ok <==> value < pow(91, width as nat),
        written is Ok ==> final(buf)@ == old(buf)@ + base91_digits(value as nat, width as nat),
        written is Err ==> final(buf)@ == old(buf)@,
{
    // The digits come out least significant first.
    let mut reversed: Vec<u8> = Vec::new();
    let mut rest: u64 = value;
    let mut i: usize = 0;
    while i < width
        invariant
            0 <= i <= width,
            reversed@.len() == i,
            value < pow(91, width as nat) <==> rest < pow(91, (width - i) as nat),
            base91_digits(value as nat, width as nat) == base91_digits(
                rest as nat,
                (width - i) as nat,
            ) + reversed@.reverse(),
        decreases width - i,
    {
        proof {
            lemma_width_step(rest as nat, (width - i) as nat);
            let head = base91_digits((rest / 91) as nat, (width - i - 1) as nat);
            let last = (FIRST_DIGIT + rest % 91) as u8;
            assert(reversed@.push(last).reverse() =~= seq![last] + reversed@.reverse());
            assert(head.push(last) + reversed@.reverse() =~= head + (seq![last]
                + reversed@.reverse()));
        }
        reversed.push(digit_to_ascii((rest % BASE) as u8));
        rest = rest / BASE;
        i += 1;
    }
    proof {
        assert(pow(91, 0) == 1) by {
            reveal(pow);
        }
        assert(base91_digits(rest as nat, 0) + reversed@.reverse() =~= reversed@.reverse());
    }
    if rest != 0 {
        return Err(EncodeError::NumberTooLarge);
    }
    let mut j: usize = width;
    while j > 0
        invariant
            0 <= j <= width,
            reversed@.len() == width,
            buf@ == old(buf)@ + reversed@.reverse().take(width - j),
        decreases j,
    {
        j -= 1;
        buf.push(reversed[j]);
        assert(buf@ =~= old(buf)@ + reversed@.reverse().take(width - j));
    }
    assert(reversed@.reverse().take(width as int) =~= reversed@.reverse());
    Ok(())
}

} // verus!
