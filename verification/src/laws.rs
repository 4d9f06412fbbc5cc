//! What holds between writing a coordinate and reading it back.
//!
//! The laws speak of the same spec functions as the contracts of the codec:
//! what a text or a compressed field says ([`latitude_text`],
//! [`latitude_compressed`] and their longitude counterparts), and what is
//! written for a coordinate (`uncompressed` and `compressed`).
use vstd::prelude::*;

use crate::ascii::{EAST, NORTH, POINT, SOUTH, SPACE, WEST};
use crate::base91::{lemma_digits_of_value, lemma_value_of_digits};
use crate::bytes::{digit_value, is_digit, is_digits};
use crate::lonlat::{
    latitude_compressed, latitude_positions, latitude_positions_units, latitude_text,
    lemma_steps_fit, longitude_compressed, longitude_positions, longitude_positions_units,
    longitude_text, trailing_spaces, Latitude, Longitude, COMPRESSED_WIDTH,
};
use crate::precision::Precision;
use crate::text::{blanked, digit_char, kept_units, latitude_digits, longitude_digits, zeroed};
use crate::units::{
    dms_units, magnitude, nearest_hundredths, rounded_hundredths, whole_degrees, whole_minutes,
    MAX_LATITUDE,
    MAX_LONGITUDE, UNITS_PER_HUNDREDTH, UNITS_PER_LATITUDE_STEP, UNITS_PER_LONGITUDE_STEP,
};

verus! {

/// The character for a digit is a digit, stands for that digit, and is no
/// space.
proof fn lemma_digit_char(d: int)
    requires
        0 <= d <= 9,
    ensures
        is_digit(digit_char(d)),
        digit_value(digit_char(d)) == d,
        digit_char(d) != SPACE,
{
}

/// Cutting an angle into degrees, minutes and hundredths rounds it to the
/// nearest hundredth of a minute: the parts, put together again, are within
/// half a hundredth of a minute of the angle. The minutes stay below sixty
/// and the hundredths below a hundred.
pub proof fn lemma_split_is_near(m: int)
    requires
        0 <= m,
    ensures
        0 <= whole_degrees(m),
        0 <= whole_minutes(m) < 60,
        0 <= rounded_hundredths(m) < 100,
        -(UNITS_PER_HUNDREDTH / 2) <= m - dms_units(
            whole_degrees(m),
            whole_minutes(m),
            rounded_hundredths(m),
        ) <= UNITS_PER_HUNDREDTH / 2,
{
}

/// The angle that the digits kept spell is the angle rounded to the nearest
/// hundredth of a minute and then cut off at the last digit kept. So it is
/// at most half a hundredth of a minute above the angle, and less than one
/// step of the last digit kept below that.
pub proof fn lemma_kept_units_are_near(m: int, precision: Precision)
    requires
        0 <= m,
    ensures
        0 <= kept_units(m, precision.blanks()),
        kept_units(m, precision.blanks()) <= nearest_hundredths(m) * UNITS_PER_HUNDREDTH,
        -(UNITS_PER_HUNDREDTH / 2) <= m - kept_units(m, precision.blanks()) < precision.width()
            - UNITS_PER_HUNDREDTH / 2,
{
    lemma_split_is_near(m);
}

/// The six digits of the text of a latitude are digits, and stand for the
/// decimal places of its degrees, minutes and hundredths.
proof fn lemma_latitude_digits(m: int)
    requires
        0 <= m <= MAX_LATITUDE,
    ensures
        latitude_digits(m).len() == 6,
        is_digits(latitude_digits(m)),
        forall|i: int| 0 <= i < 6 ==> latitude_digits(m)[i] != SPACE,
        digit_value(latitude_digits(m)[0]) == whole_degrees(m) / 10,
        digit_value(latitude_digits(m)[1]) == whole_degrees(m) % 10,
        digit_value(latitude_digits(m)[2]) == whole_minutes(m) / 10,
        digit_value(latitude_digits(m)[3]) == whole_minutes(m) % 10,
        digit_value(latitude_digits(m)[4]) == rounded_hundredths(m) / 10,
        digit_value(latitude_digits(m)[5]) == rounded_hundredths(m) % 10,
{
    lemma_split_is_near(m);
    let deg = whole_degrees(m);
    let min = whole_minutes(m);
    let shown = rounded_hundredths(m);
    assert(deg <= 90);
    lemma_digit_char(deg / 10);
    lemma_digit_char(deg % 10);
    lemma_digit_char(min / 10);
    lemma_digit_char(min % 10);
    lemma_digit_char(shown / 10);
    lemma_digit_char(shown % 10);
    assert(latitude_digits(m) =~= seq![
        digit_char(deg / 10),
        digit_char(deg % 10),
        digit_char(min / 10),
        digit_char(min % 10),
        digit_char(shown / 10),
        digit_char(shown % 10),
    ]);
}

/// The seven digits of the text of a longitude are digits, and stand for
/// the decimal places of its degrees, minutes and hundredths.
proof fn lemma_longitude_digits(m: int)
    requires
        0 <= m <= MAX_LONGITUDE,
    ensures
        longitude_digits(m).len() == 7,
        is_digits(longitude_digits(m)),
        digit_value(longitude_digits(m)[0]) == whole_degrees(m) / 100,
        digit_value(longitude_digits(m)[1]) == (whole_degrees(m) / 10) % 10,
        digit_value(longitude_digits(m)[2]) == whole_degrees(m) % 10,
        digit_value(longitude_digits(m)[3]) == whole_minutes(m) / 10,
        digit_value(longitude_digits(m)[4]) == whole_minutes(m) % 10,
        digit_value(longitude_digits(m)[5]) == rounded_hundredths(m) / 10,
        digit_value(longitude_digits(m)[6]) == rounded_hundredths(m) % 10,
{
    lemma_split_is_near(m);
    let deg = whole_degrees(m);
    let min = whole_minutes(m);
    let shown = rounded_hundredths(m);
    assert(deg <= 180);
    lemma_digit_char(deg / 100);
    lemma_digit_char((deg / 10) % 10);
    lemma_digit_char(deg % 10);
    lemma_digit_char(min / 10);
    lemma_digit_char(min % 10);
    lemma_digit_char(shown / 10);
    lemma_digit_char(shown % 10);
    assert(longitude_digits(m) =~= seq![
        digit_char(deg / 100),
        digit_char((deg / 10) % 10),
        digit_char(deg % 10),
        digit_char(min / 10),
        digit_char(min % 10),
        digit_char(shown / 10),
        digit_char(shown % 10),
    ]);
}

/// The six digits of a latitude with the last few blanked: the blanks are
/// counted as they were made, the others are digits, and together they spell
/// the angle that keeps those digits.
proof fn lemma_latitude_digits_spell(m: int, precision: Precision)
    requires
        0 <= m <= MAX_LATITUDE,
    ensures
        ({
            let d = blanked(latitude_digits(m), precision.blanks());
            &&& trailing_spaces(d, 6) == precision.blanks()
            &&& is_digits(d.take(6 - precision.blanks()))
            &&& latitude_positions_units(d) == kept_units(m, precision.blanks())
        }),
{
    let k = precision.blanks();
    lemma_latitude_digits(m);
    lemma_split_is_near(m);
    let deg = whole_degrees(m);
    let min = whole_minutes(m);
    let shown = rounded_hundredths(m);
    let digits = latitude_digits(m);
    let d = blanked(digits, k);
    assert(trailing_spaces(d, 6) == k) by {
        reveal_with_fuel(trailing_spaces, 7);
        assert(d[5 - k] == digits[5 - k]);
    }
    assert(is_digits(d.take(6 - k))) by {
        assert forall|i: int| 0 <= i < 6 - k implies is_digit(#[trigger] d.take(6 - k)[i]) by {
            assert(d.take(6 - k)[i] == digits[i]);
        }
    }
    let v0 = digit_value(d[0]) as int;
    let v1 = digit_value(d[1]) as int;
    let v2 = digit_value(d[2]) as int;
    let v3 = digit_value(d[3]) as int;
    let v4 = digit_value(d[4]) as int;
    let v5 = digit_value(d[5]) as int;
    assert(v0 == deg / 10);
    assert(v1 == if k < 5 { deg % 10 } else { 0 });
    assert(v2 == if k < 4 { min / 10 } else { 0 });
    assert(v3 == if k < 3 { min % 10 } else { 0 });
    assert(v4 == if k < 2 { shown / 10 } else { 0 });
    assert(v5 == if k < 1 { shown % 10 } else { 0 });
    assert(latitude_positions_units(d) == dms_units(10 * v0 + v1, 10 * v2 + v3, 10 * v4 + v5));
    assert(10 * v0 + v1 == if k < 5 { deg } else { deg - deg % 10 });
    assert(10 * v2 + v3 == if k < 3 { min } else if k < 4 { min - min % 10 } else { 0 });
    assert(10 * v4 + v5 == if k < 1 { shown } else if k < 2 { shown - shown % 10 } else { 0 });
}

/// The seven digits of a longitude with the last few read as zero are
/// digits, and spell the angle that keeps the other digits.
proof fn lemma_longitude_digits_spell(m: int, precision: Precision)
    requires
        0 <= m <= MAX_LONGITUDE,
    ensures
        is_digits(zeroed(longitude_digits(m), precision.blanks())),
        longitude_positions_units(zeroed(longitude_digits(m), precision.blanks())) == kept_units(
            m,
            precision.blanks(),
        ),
{
    let k = precision.blanks();
    lemma_longitude_digits(m);
    lemma_digit_char(0);
    let deg = whole_degrees(m);
    let min = whole_minutes(m);
    let shown = rounded_hundredths(m);
    let digits = longitude_digits(m);
    let d = zeroed(digits, k);
    assert(is_digits(d)) by {
        assert forall|i: int| 0 <= i < d.len() implies is_digit(#[trigger] d[i]) by {
            if i < 7 - k {
                assert(d[i] == digits[i]);
            }
        }
    }
    let v0 = digit_value(d[0]) as int;
    let v1 = digit_value(d[1]) as int;
    let v2 = digit_value(d[2]) as int;
    let v3 = digit_value(d[3]) as int;
    let v4 = digit_value(d[4]) as int;
    let v5 = digit_value(d[5]) as int;
    let v6 = digit_value(d[6]) as int;
    assert(v0 == deg / 100);
    assert(v1 == (deg / 10) % 10);
    assert(v2 == if k < 5 { deg % 10 } else { 0 });
    assert(v3 == if k < 4 { min / 10 } else { 0 });
    assert(v4 == if k < 3 { min % 10 } else { 0 });
    assert(v5 == if k < 2 { shown / 10 } else { 0 });
    assert(v6 == if k < 1 { shown % 10 } else { 0 });
    assert(longitude_positions_units(d) == dms_units(
        100 * v0 + 10 * v1 + v2,
        10 * v3 + v4,
        10 * v5 + v6,
    ));
    assert(100 * v0 + 10 * v1 + v2 == if k < 5 { deg } else { deg - deg % 10 });
    assert(10 * v3 + v4 == if k < 3 { min } else if k < 4 { min - min % 10 } else { 0 });
    assert(10 * v5 + v6 == if k < 1 { shown } else if k < 2 { shown - shown % 10 } else { 0 });
}

/// The text of a latitude at any precision is read as a latitude of that
/// precision, and what is read is exactly the angle that the digits kept
/// spell, on the same side of the equator.
pub proof fn lemma_latitude_text_is_read(latitude: Latitude, precision: Precision)
    requires
        Latitude::in_range(latitude@),
    ensures
        latitude_text(latitude.uncompressed(precision)) == Some(
            (
                if latitude@ >= 0 {
                    kept_units(magnitude(latitude@), precision.blanks())
                } else {
                    -kept_units(magnitude(latitude@), precision.blanks())
                },
                precision,
            ),
        ),
{
    let m = magnitude(latitude@);
    let b = latitude.uncompressed(precision);
    let kept = kept_units(m, precision.blanks());
    lemma_split_is_near(m);
    lemma_latitude_digits(m);
    lemma_latitude_digits_spell(m, precision);
    assert(latitude_positions(b) =~= blanked(latitude_digits(m), precision.blanks()));
    assert(b.len() == 8 && b[4] == POINT && b[7] == latitude.hemisphere());
    assert(kept <= MAX_LATITUDE);
}

/// The text of a longitude is read at any precision, and what is read is
/// exactly the angle that the digits kept spell, on the same side of the
/// prime meridian.
pub proof fn lemma_longitude_text_is_read(longitude: Longitude, precision: Precision)
    requires
        Longitude::in_range(longitude@),
    ensures
        longitude_text(longitude.uncompressed(), precision) == Some(
            if longitude@ >= 0 {
                kept_units(magnitude(longitude@), precision.blanks())
            } else {
                -kept_units(magnitude(longitude@), precision.blanks())
            },
        ),
{
    let m = magnitude(longitude@);
    let b = longitude.uncompressed();
    let kept = kept_units(m, precision.blanks());
    lemma_split_is_near(m);
    lemma_longitude_digits(m);
    lemma_longitude_digits_spell(m, precision);
    assert(longitude_positions(b) =~= longitude_digits(m));
    assert(b.len() == 9 && b[5] == POINT && b[8] == longitude.hemisphere());
    assert(kept <= MAX_LONGITUDE);
}

/// A latitude written at any precision is read back with that precision and
/// on the same side of the equator. What is read is at most half a hundredth
/// of a minute larger than the latitude, and less than one step of the last
/// digit kept smaller than that.
pub proof fn lemma_latitude_text_round_trip_at(latitude: Latitude, precision: Precision)
    requires
        Latitude::in_range(latitude@),
    ensures
        latitude_text(latitude.uncompressed(precision)) matches Some((units, read)) && {
            &&& read == precision
            &&& latitude@ >= 0 ==> units >= 0
            &&& latitude@ < 0 ==> units <= 0
            &&& -(UNITS_PER_HUNDREDTH / 2) <= magnitude(latitude@) - magnitude(units)
                < precision.width() - UNITS_PER_HUNDREDTH / 2
        },
{
    lemma_latitude_text_is_read(latitude, precision);
    lemma_kept_units_are_near(magnitude(latitude@), precision);
}

/// Every latitude written at full precision is read back to within half a
/// hundredth of a minute.
pub proof fn lemma_latitude_text_round_trip(latitude: Latitude)
    requires
        Latitude::in_range(latitude@),
    ensures
        latitude_text(latitude.uncompressed(Precision::HundredthMinute)) matches Some(
            (units, read),
        ) && read == Precision::HundredthMinute && -(UNITS_PER_HUNDREDTH / 2) <= latitude@ - units
            <= UNITS_PER_HUNDREDTH / 2,
{
    lemma_latitude_text_round_trip_at(latitude, Precision::HundredthMinute);
}

/// A longitude written and then read at any precision stays on the same side
/// of the prime meridian. What is read is at most half a hundredth of a
/// minute larger than the longitude, and less than one step of the last
/// digit that the precision keeps smaller than that.
pub proof fn lemma_longitude_text_round_trip_at(longitude: Longitude, precision: Precision)
    requires
        Longitude::in_range(longitude@),
    ensures
        longitude_text(longitude.uncompressed(), precision) matches Some(units) && {
            &&& longitude@ >= 0 ==> units >= 0
            &&& longitude@ < 0 ==> units <= 0
            &&& -(UNITS_PER_HUNDREDTH / 2) <= magnitude(longitude@) - magnitude(units)
                < precision.width() - UNITS_PER_HUNDREDTH / 2
        },
{
    lemma_longitude_text_is_read(longitude, precision);
    lemma_kept_units_are_near(magnitude(longitude@), precision);
}

/// Every longitude is read back from its text to within half a hundredth of
/// a minute.
pub proof fn lemma_longitude_text_round_trip(longitude: Longitude)
    requires
        Longitude::in_range(longitude@),
    ensures
        longitude_text(longitude.uncompressed(), Precision::HundredthMinute) matches Some(units)
            && -(UNITS_PER_HUNDREDTH / 2) <= longitude@ - units <= UNITS_PER_HUNDREDTH / 2,
{
    lemma_longitude_text_round_trip_at(longitude, Precision::HundredthMinute);
}

/// An angle put together from degrees, minutes below sixty and hundredths
/// below a hundred is cut into the same parts again.
pub proof fn lemma_split_of_parts(degrees: int, minutes: int, hundredths: int)
    requires
        0 <= degrees,
        0 <= minutes < 60,
        0 <= hundredths < 100,
    ensures
        whole_degrees(dms_units(degrees, minutes, hundredths)) == degrees,
        whole_minutes(dms_units(degrees, minutes, hundredths)) == minutes,
        rounded_hundredths(dms_units(degrees, minutes, hundredths)) == hundredths,
{
}

/// A digit is the character for the number it stands for.
proof fn lemma_digit_is_its_char(b: u8)
    requires
        is_digit(b),
    ensures
        digit_char(digit_value(b) as int) == b,
        0 <= digit_value(b) <= 9,
{
}

/// A latitude text is written back as it was read, at the precision that was
/// read from it, provided that its minutes are below sixty and that it does
/// not put the equator in the south.
pub proof fn lemma_latitude_text_is_written_back(
    b: Seq<u8>,
    latitude: Latitude,
    precision: Precision,
)
    requires
        latitude_text(b) == Some((latitude@, precision)),
        10 * digit_value(b[2]) + digit_value(b[3]) < 60,
        latitude@ != 0 || b[7] == NORTH,
    ensures
        latitude.uncompressed(precision) == b,
{
    let d = latitude_positions(b);
    let k = precision.blanks();
    let m = magnitude(latitude@);
    let deg = (10 * digit_value(d[0]) + digit_value(d[1])) as int;
    let min = (10 * digit_value(d[2]) + digit_value(d[3])) as int;
    let frac = (10 * digit_value(d[4]) + digit_value(d[5])) as int;
    assert(k == trailing_spaces(d, 6));
    assert(m == dms_units(deg, min, frac));
    assert(b[7] == latitude.hemisphere());
    // the positions are digits, then spaces
    assert forall|i: int| 0 <= i < 6 implies if i < 6 - k {
        is_digit(#[trigger] d[i])
    } else {
        d[i] == SPACE
    } by {
        reveal_with_fuel(trailing_spaces, 7);
        if i < 6 - k {
            assert(d.take(6 - k)[i] == d[i]);
        }
    }
    assert(d[0] != SPACE);
    // a space counts as zero, and a digit is written as it was read
    assert forall|i: int| 0 <= i < 6 implies 0 <= digit_value(#[trigger] d[i]) <= 9 && (i < 6 - k
        ==> digit_char(digit_value(d[i]) as int) == d[i]) by {
        if i < 6 - k {
            lemma_digit_is_its_char(d[i]);
        }
    }
    lemma_split_of_parts(deg, min, frac);
    let digits = latitude_digits(m);
    assert(digits =~= seq![
        digit_char(digit_value(d[0]) as int),
        digit_char(digit_value(d[1]) as int),
        digit_char(digit_value(d[2]) as int),
        digit_char(digit_value(d[3]) as int),
        digit_char(digit_value(d[4]) as int),
        digit_char(digit_value(d[5]) as int),
    ]) by {
        assert(deg / 10 == digit_value(d[0]) && deg % 10 == digit_value(d[1]));
        assert(min / 10 == digit_value(d[2]) && min % 10 == digit_value(d[3]));
        assert(frac / 10 == digit_value(d[4]) && frac % 10 == digit_value(d[5]));
    }
    assert(blanked(digits, k) =~= d);
    assert(latitude.uncompressed(precision) =~= b);
}

/// A longitude text is written back as it was read at full precision,
/// provided that its minutes are below sixty and that it does not put the
/// prime meridian in the west.
pub proof fn lemma_longitude_text_is_written_back(b: Seq<u8>, longitude: Longitude)
    requires
        longitude_text(b, Precision::HundredthMinute) == Some(longitude@),
        10 * digit_value(b[3]) + digit_value(b[4]) < 60,
        longitude@ != 0 || b[8] == EAST,
    ensures
        longitude.uncompressed() == b,
{
    let d = longitude_positions(b);
    let m = magnitude(longitude@);
    let deg = (100 * digit_value(d[0]) + 10 * digit_value(d[1]) + digit_value(d[2])) as int;
    let min = (10 * digit_value(d[3]) + digit_value(d[4])) as int;
    let frac = (10 * digit_value(d[5]) + digit_value(d[6])) as int;
    assert(zeroed(d, 0) =~= d);
    assert(m == dms_units(deg, min, frac));
    assert(b[8] == longitude.hemisphere());
    assert forall|i: int| 0 <= i < 7 implies 0 <= digit_value(#[trigger] d[i]) <= 9 && digit_char(
        digit_value(d[i]) as int,
    ) == d[i] by {
        lemma_digit_is_its_char(d[i]);
    }
    lemma_split_of_parts(deg, min, frac);
    let digits = longitude_digits(m);
    assert(digits =~= d) by {
        assert(deg / 100 == digit_value(d[0]) && (deg / 10) % 10 == digit_value(d[1]) && deg % 10
            == digit_value(d[2]));
        assert(min / 10 == digit_value(d[3]) && min % 10 == digit_value(d[4]));
        assert(frac / 10 == digit_value(d[5]) && frac % 10 == digit_value(d[6]));
    }
    assert(longitude.uncompressed() =~= b);
}

/// A latitude is read back from its compressed field to within half a step
/// of 1/380926 degree. The field has four digits.
pub proof fn lemma_latitude_compressed_round_trip(latitude: Latitude)
    requires
        Latitude::in_range(latitude@),
    ensures
        latitude.compressed().len() == COMPRESSED_WIDTH,
        latitude_compressed(latitude.compressed()) matches Some(units)
            && -(UNITS_PER_LATITUDE_STEP / 2) <= latitude@ - units <= UNITS_PER_LATITUDE_STEP / 2,
{
    let steps = latitude.compressed_steps();
    lemma_steps_fit(steps);
    lemma_value_of_digits(steps, COMPRESSED_WIDTH as nat);
}

/// A longitude is read back from its compressed field to within half a step
/// of 1/190463 degree. The field has four digits.
pub proof fn lemma_longitude_compressed_round_trip(longitude: Longitude)
    requires
        Longitude::in_range(longitude@),
    ensures
        longitude.compressed().len() == COMPRESSED_WIDTH,
        longitude_compressed(longitude.compressed()) matches Some(units)
            && -(UNITS_PER_LONGITUDE_STEP / 2) <= longitude@ - units <= UNITS_PER_LONGITUDE_STEP
            / 2,
{
    let steps = longitude.compressed_steps();
    lemma_steps_fit(steps);
    lemma_value_of_digits(steps, COMPRESSED_WIDTH as nat);
}

/// A compressed latitude of four digits is written back as it was read.
pub proof fn lemma_latitude_field_is_written_back(b: Seq<u8>, latitude: Latitude)
    requires
        b.len() == COMPRESSED_WIDTH,
        latitude_compressed(b) == Some(latitude@),
    ensures
        latitude.compressed() == b,
{
    lemma_digits_of_value(b);
}

/// A compressed longitude of four digits is written back as it was read.
pub proof fn lemma_longitude_field_is_written_back(b: Seq<u8>, longitude: Longitude)
    requires
        b.len() == COMPRESSED_WIDTH,
        longitude_compressed(b) == Some(longitude@),
    ensures
        longitude.compressed() == b,
{
    lemma_digits_of_value(b);
}

/// A coarser level blanks every digit position that a finer level blanks.
pub proof fn lemma_blanked_positions_grow(finer: Precision, coarser: Precision, index: int)
    requires
        finer.blanks() <= coarser.blanks(),
        finer.blanks_position(index),
    ensures
        coarser.blanks_position(index),
{
}

/// In the text of a latitude, the digit positions that hold a space are
/// those that the precision blanks, and neither the point nor the letter of
/// the hemisphere is a space.
pub proof fn lemma_spaces_are_blanks(latitude: Latitude, precision: Precision, index: int)
    requires
        Latitude::in_range(latitude@),
        0 <= index < 6,
    ensures
        latitude_positions(latitude.uncompressed(precision))[index] == SPACE
            <==> precision.blanks_position(index),
        latitude.uncompressed(precision)[4] != SPACE,
        latitude.uncompressed(precision)[7] != SPACE,
{
    lemma_latitude_digits(magnitude(latitude@));
}

/// Every byte of the text of a latitude that is a space at one precision is
/// a space at every coarser precision.
pub proof fn lemma_blanking_is_monotonic(
    latitude: Latitude,
    finer: Precision,
    coarser: Precision,
    at: int,
)
    requires
        Latitude::in_range(latitude@),
        finer.blanks() <= coarser.blanks(),
        0 <= at < 8,
        latitude.uncompressed(finer)[at] == SPACE,
    ensures
        latitude.uncompressed(coarser)[at] == SPACE,
{
    let index = if at < 4 {
        at
    } else {
        at - 1
    };
    if at != 4 && at != 7 {
        lemma_spaces_are_blanks(latitude, finer, index);
        lemma_spaces_are_blanks(latitude, coarser, index);
        lemma_blanked_positions_grow(finer, coarser, index);
    } else {
        lemma_spaces_are_blanks(latitude, finer, 0);
    }
}

/// Only a text of eight bytes that ends in `N` or `S` is a latitude, and the
/// letter decides the sign: nothing north of the equator is negative,
/// nothing south of it positive. What is read is within ninety degrees.
pub proof fn lemma_latitude_text_shape(b: Seq<u8>)
    requires
        latitude_text(b) is Some,
    ensures
        b.len() == 8,
        b[4] == POINT,
        b[7] == NORTH || b[7] == SOUTH,
        latitude_text(b) matches Some((units, _)) && Latitude::in_range(units) && (b[7] == NORTH
            ==> units >= 0) && (b[7] == SOUTH ==> units <= 0),
{
}

/// Only a text of nine bytes that ends in `E` or `W` is a longitude, and the
/// letter decides the sign: nothing east of the prime meridian is negative,
/// nothing west of it positive. What is read is within a hundred and eighty
/// degrees.
pub proof fn lemma_longitude_text_shape(b: Seq<u8>, precision: Precision)
    requires
        longitude_text(b, precision) is Some,
    ensures
        b.len() == 9,
        b[5] == POINT,
        b[8] == EAST || b[8] == WEST,
        longitude_text(b, precision) matches Some(units) && Longitude::in_range(units) && (b[8]
            == EAST ==> units >= 0) && (b[8] == WEST ==> units <= 0),
{
}

} // verus!
