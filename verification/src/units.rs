//! The fixed-point unit in which coordinates are held, and the split of an
//! angle into degrees, minutes and hundredths of a minute.
//!
//! The text form counts in hundredths of a minute, 6000 to the degree. The
//! compressed forms count in steps of 1/380926 degree (latitude) and
//! 1/190463 degree (longitude). One unit is the largest angle of which all
//! three are whole multiples: 1/1142778000 degree.
use vstd::prelude::*;

verus! {

/// Units in one degree.
pub const UNITS_PER_DEGREE: i64 = 1_142_778_000;

/// Units in one minute of arc, a sixtieth of a degree.
pub const UNITS_PER_MINUTE: i64 = 19_046_300;

/// Units in one hundredth of a minute.
pub const UNITS_PER_HUNDREDTH: i64 = 190_463;

/// Hundredths of a minute in one minute.
pub const HUNDREDTHS_PER_MINUTE: i64 = 100;

/// Hundredths of a minute in one degree.
pub const HUNDREDTHS_PER_DEGREE: i64 = 6_000;

/// Units in one step of a compressed latitude.
pub const UNITS_PER_LATITUDE_STEP: i64 = 3_000;

/// Units in one step of a compressed longitude.
pub const UNITS_PER_LONGITUDE_STEP: i64 = 6_000;

/// Ninety degrees, the largest latitude.
pub const MAX_LATITUDE: i64 = 102_850_020_000;

/// A hundred and eighty degrees, the largest longitude.
pub const MAX_LONGITUDE: i64 = 205_700_040_000;

/// The number of steps from one end of the range of a compressed coordinate
/// to the other: 180 degrees of latitude, or 360 degrees of longitude.
pub const MAX_COMPRESSED_STEPS: u64 = 68_566_680;

/// The angle of `degrees`, `minutes` and `hundredths` of a minute, in units.
pub open spec fn dms_units(degrees: int, minutes: int, hundredths: int) -> int {
    degrees * UNITS_PER_DEGREE + minutes * UNITS_PER_MINUTE + hundredths * UNITS_PER_HUNDREDTH
}

/// The size of an angle without its sign.
pub open spec fn magnitude(units: int) -> int {
    if units >= 0 {
        units
    } else {
        -units
    }
}

/// An angle of `m >= 0` units in whole hundredths of a minute, rounded to
/// the nearest. This is what the text of a coordinate is made from: where
/// the rounding fills a minute or a degree, the minutes and degrees go up.
pub open spec fn nearest_hundredths(m: int) -> int {
    (m + UNITS_PER_HUNDREDTH / 2) / (UNITS_PER_HUNDREDTH as int)
}

/// The whole degrees in an angle of `m >= 0` units, once it is rounded to
/// the nearest hundredth of a minute.
pub open spec fn whole_degrees(m: int) -> int {
    nearest_hundredths(m) / (HUNDREDTHS_PER_DEGREE as int)
}

/// The whole minutes that an angle of `m >= 0` units has beyond its whole
/// degrees, once it is rounded to the nearest hundredth of a minute.
pub open spec fn whole_minutes(m: int) -> int {
    (nearest_hundredths(m) / (HUNDREDTHS_PER_MINUTE as int)) % 60
}

/// The hundredths of a minute that an angle of `m >= 0` units has beyond its
/// whole minutes, once it is rounded to the nearest hundredth of a minute.
pub open spec fn rounded_hundredths(m: int) -> int {
    nearest_hundredths(m) % (HUNDREDTHS_PER_MINUTE as int)
}

/// The constants agree with each other.
pub proof fn lemma_unit_ratios()
    ensures
        UNITS_PER_DEGREE == 60 * UNITS_PER_MINUTE,
        UNITS_PER_MINUTE == HUNDREDTHS_PER_MINUTE * UNITS_PER_HUNDREDTH,
        UNITS_PER_DEGREE == HUNDREDTHS_PER_DEGREE * UNITS_PER_HUNDREDTH,
        UNITS_PER_DEGREE == 380_926 * UNITS_PER_LATITUDE_STEP,
        UNITS_PER_DEGREE == 190_463 * UNITS_PER_LONGITUDE_STEP,
        MAX_LATITUDE == 90 * UNITS_PER_DEGREE,
        MAX_LONGITUDE == 180 * UNITS_PER_DEGREE,
        MAX_COMPRESSED_STEPS * UNITS_PER_LATITUDE_STEP == 2 * MAX_LATITUDE,
        MAX_COMPRESSED_STEPS * UNITS_PER_LONGITUDE_STEP == 2 * MAX_LONGITUDE,
{
}

/// Rounds an angle of `m` units to the nearest hundredth of a minute, and
/// splits it into whole degrees, whole minutes and hundredths of a minute.
pub fn split_angle(m: u64) -> (parts: (u64, u32, u32))
    ensures
        parts.0 == whole_degrees(m as int),
        parts.1 == whole_minutes(m as int),
        parts.2 == rounded_hundredths(m as int),
        parts.1 < 60,
        parts.2 < 100,
{
    let below: u64 = m / (UNITS_PER_HUNDREDTH as u64);
    let rest: u64 = m % (UNITS_PER_HUNDREDTH as u64);
    let up: u64 = (rest + (UNITS_PER_HUNDREDTH as u64) / 2) / (UNITS_PER_HUNDREDTH as u64);
    assert(up <= 1);
    assert(below < u64::MAX) by (nonlinear_arith)
        requires
            below == m / 190_463,
    ;
    let nearest: u64 = below + up;
    let degrees: u64 = nearest / (HUNDREDTHS_PER_DEGREE as u64);
    let minutes: u64 = (nearest / (HUNDREDTHS_PER_MINUTE as u64)) % 60;
    let hundredths: u64 = nearest % (HUNDREDTHS_PER_MINUTE as u64);
    (degrees, minutes as u32, hundredths as u32)
}

} // verus!
