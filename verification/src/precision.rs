//! The ambiguity of a position: how many trailing digits of the
//! degrees-and-minutes text carry no information.
use vstd::prelude::*;

use crate::units::{UNITS_PER_DEGREE, UNITS_PER_HUNDREDTH, UNITS_PER_MINUTE};

verus! {

/// How precisely a position is given, from the finest level to the coarsest.
///
/// A level stands for the number of trailing digits, out of the six digits
/// `DDMMff` of a latitude, that are blanked. All six blanked is not a level.
#[derive(Clone, Copy, Debug, PartialEq, Eq, Structural, PartialOrd, Ord, Hash)]
pub enum Precision {
    /// No digit is blanked.
    HundredthMinute,
    /// The hundredths of a minute are blanked.
    TenthMinute,
    /// The whole fraction of the minute is blanked.
    OneMinute,
    /// The minutes are known to the ten only.
    TenMinute,
    /// The minutes are blanked altogether.
    OneDegree,
    /// Only the tens of the degrees remain.
    TenDegree,
}

/// The number of digits in the `DDMMff` text of a latitude.
pub const LATITUDE_DIGITS: u8 = 6;

impl Precision {
    /// The number of trailing digits that this level blanks.
    pub open spec fn blanks(self) -> int {
        match self {
            Precision::HundredthMinute => 0,
            Precision::TenthMinute => 1,
            Precision::OneMinute => 2,
            Precision::TenMinute => 3,
            Precision::OneDegree => 4,
            Precision::TenDegree => 5,
        }
    }

    /// The angle, in units, that one step of the last digit kept stands for:
    /// from a hundredth of a minute at the finest level to ten degrees at the
    /// coarsest.
    pub open spec fn width(self) -> int {
        match self {
            Precision::HundredthMinute => UNITS_PER_HUNDREDTH as int,
            Precision::TenthMinute => 10 * UNITS_PER_HUNDREDTH,
            Precision::OneMinute => UNITS_PER_MINUTE as int,
            Precision::TenMinute => 10 * UNITS_PER_MINUTE,
            Precision::OneDegree => UNITS_PER_DEGREE as int,
            Precision::TenDegree => 10 * UNITS_PER_DEGREE,
        }
    }

    /// Whether this level blanks the digit at `index`, counted from 0 at the
    /// left of the six digits `DDMMff`.
    pub open spec fn blanks_position(self, index: int) -> bool {
        LATITUDE_DIGITS - self.blanks() <= index < LATITUDE_DIGITS
    }

    /// The level that blanks `digits` trailing digits, if there is one.
    pub open spec fn of_blanks(digits: int) -> Option<Precision> {
        if digits == 0 {
            Some(Precision::HundredthMinute)
        } else if digits == 1 {
            Some(Precision::TenthMinute)
        } else if digits == 2 {
            Some(Precision::OneMinute)
        } else if digits == 3 {
            Some(Precision::TenMinute)
        } else if digits == 4 {
            Some(Precision::OneDegree)
        } else if digits == 5 {
            Some(Precision::TenDegree)
        } else {
            None
        }
    }

    /// The number of trailing digits that this level blanks.
    pub fn num_digits(&self) -> (n: u8)
        ensures
            n == self.blanks(),
            n < LATITUDE_DIGITS,
    {
        match self {
            Precision::HundredthMinute => 0,
            Precision::TenthMinute => 1,
            Precision::OneMinute => 2,
            Precision::TenMinute => 3,
            Precision::OneDegree => 4,
            Precision::TenDegree => 5,
        }
    }

    /// The level that blanks `digits` trailing digits. There is none for six
    /// or more: a coordinate with every digit blanked says nothing.
    pub fn from_num_digits(digits: u8) -> (level: Option<Precision>)
        ensures
            level == Precision::of_blanks(digits as int),
            level is Some <==> digits < LATITUDE_DIGITS,
            level matches Some(p) ==> p.blanks() == digits,
    {
        match digits {
            0 => Some(Precision::HundredthMinute),
            1 => Some(Precision::TenthMinute),
            2 => Some(Precision::OneMinute),
            3 => Some(Precision::TenMinute),
            4 => Some(Precision::OneDegree),
            5 => Some(Precision::TenDegree),
            _ => None,
        }
    }
}

impl Default for Precision {
    /// The finest level.
    fn default() -> (level: Precision)
        ensures
            level == Precision::HundredthMinute,
    {
        Precision::HundredthMinute
    }
}

/// Reading a level back from its number of blanked digits gives the level.
pub proof fn lemma_level_of_its_blanks(level: Precision)
    ensures
        0 <= level.blanks() < LATITUDE_DIGITS,
        Precision::of_blanks(level.blanks()) == Some(level),
{
}

} // verus!
