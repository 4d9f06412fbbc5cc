//! The digit fields of the degrees-and-minutes text.
use vstd::prelude::*;

use crate::ascii::{SPACE, ZERO};
use crate::units::{dms_units, rounded_hundredths, whole_degrees, whole_minutes};

verus! {

/// The ASCII digit for `d`, which is between 0 and 9.
pub open spec fn digit_char(d: int) -> u8 {
    (ZERO + d) as u8
}

/// `n`, below 100, as two decimal digits.
pub open spec fn two_digits(n: int) -> Seq<u8> {
    seq![digit_char(n / 10), digit_char(n % 10)]
}

/// `n`, below 1000, as three decimal digits.
pub open spec fn three_digits(n: int) -> Seq<u8> {
    seq![digit_char(n / 100), digit_char((n / 10) % 10), digit_char(n % 10)]
}

/// The six digits `DDMMff` of an angle of `m >= 0` units below a hundred
/// degrees: whole degrees, whole minutes, rounded hundredths of a minute.
pub open spec fn latitude_digits(m: int) -> Seq<u8> {
    two_digits(whole_degrees(m)) + two_digits(whole_minutes(m)) + two_digits(
        rounded_hundredths(m),
    )
}

/// The seven digits `DDDMMff` of an angle of `m >= 0` units below a thousand
/// degrees.
pub open spec fn longitude_digits(m: int) -> Seq<u8> {
    three_digits(whole_degrees(m)) + two_digits(whole_minutes(m)) + two_digits(
        rounded_hundredths(m),
    )
}

/// What is left of an angle of `m >= 0` units, rounded to the nearest
/// hundredth of a minute, once the last `blanks` digits of its text count as
/// zero.
pub open spec fn kept_units(m: int, blanks: int) -> int {
    let degrees = whole_degrees(m);
    let minutes = whole_minutes(m);
    let hundredths = rounded_hundredths(m);
    if blanks <= 0 {
        dms_units(degrees, minutes, hundredths)
    } else if blanks == 1 {
        dms_units(degrees, minutes, hundredths - hundredths % 10)
    } else if blanks == 2 {
        dms_units(degrees, minutes, 0)
    } else if blanks == 3 {
        dms_units(degrees, minutes - minutes % 10, 0)
    } else if blanks == 4 {
        dms_units(degrees, 0, 0)
    } else {
        dms_units(degrees - degrees % 10, 0, 0)
    }
}

/// `digits` with its last `count` positions replaced by `fill`.
pub open spec fn overwritten(digits: Seq<u8>, count: int, fill: u8) -> Seq<u8> {
    Seq::new(
        digits.len(),
        |i: int|
            if i < digits.len() - count {
                digits[i]
            } else {
                fill
            },
    )
}

/// `digits` with its last `blanks` positions replaced by spaces.
pub open spec fn blanked(digits: Seq<u8>, blanks: int) -> Seq<u8> {
    overwritten(digits, blanks, SPACE)
}

/// `digits` with its last `blanks` positions replaced by the digit `0`.
pub open spec fn zeroed(digits: Seq<u8>, blanks: int) -> Seq<u8> {
    overwritten(digits, blanks, ZERO)
}

/// Appends `n` as two decimal digits.
pub(crate) fn push_two_digits(buf: &mut Vec<u8>, n: u32)
    requires
        n < 100,
    ensures
        final(buf)@ == old(buf)@ + two_digits(n as int),
{
    buf.push(ZERO + (n / 10) as u8);
    buf.push(ZERO + (n % 10) as u8);
    assert(buf@ =~= old(buf)@ + two_digits(n as int));
}

/// Appends `n` as three decimal digits.
pub(crate) fn push_three_digits(buf: &mut Vec<u8>, n: u32)
    requires
        n < 1000,
    ensures
        final(buf)@ == old(buf)@ + three_digits(n as int),
{
    buf.push(ZERO + (n / 100) as u8);
    buf.push(ZERO + ((n / 10) % 10) as u8);
    buf.push(ZERO + (n % 10) as u8);
    assert(buf@ =~= old(buf)@ + three_digits(n as int));
}

/// Replaces the last `count` bytes of `digits` by `fill`.
pub(crate) fn overwrite_trailing(digits: &mut Vec<u8>, count: usize, fill: u8)
    requires
        count <= old(digits)@.len(),
    ensures
        final(digits)@ == overwritten(old(digits)@, count as int, fill),
{
    let n = digits.len();
    let mut i: usize = n - count;
    while i < n
        invariant
            count <= n,
            n - count <= i <= n,
            digits@.len() == n,
            n == old(digits)@.len(),
            forall|j: int| 0 <= j < n - count ==> digits@[j] == old(digits)@[j],
            forall|j: int| n - count <= j < i ==> digits@[j] == fill,
        decreases n - i,
    {
        digits.set(i, fill);
        i += 1;
    }
    assert(digits@ =~= overwritten(old(digits)@, count as int, fill));
}

} // verus!
