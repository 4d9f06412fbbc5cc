//! Latitudes and longitudes, and their two wire forms.
use vstd::prelude::*;

use crate::ascii::{EAST, NORTH, POINT, SOUTH, SPACE, WEST, ZERO};
use crate::base91::{
    base91_digits, base91_value, decode_ascii, encode_ascii, is_base91,
};
use crate::bytes::{
    digit_value, digits_value, is_digit, is_digits, parse_bytes, parsed_number,
};
use crate::error::{AprsError, EncodeError};
use crate::precision::Precision;
use crate::text::{
    blanked, latitude_digits, longitude_digits, overwrite_trailing, push_three_digits,
    push_two_digits, zeroed,
};
use crate::units::{
    dms_units, magnitude, split_angle, MAX_COMPRESSED_STEPS, MAX_LATITUDE, MAX_LONGITUDE,
    UNITS_PER_DEGREE, UNITS_PER_HUNDREDTH, UNITS_PER_LATITUDE_STEP, UNITS_PER_LONGITUDE_STEP,
    UNITS_PER_MINUTE,
};
use vstd::arithmetic::power::pow;
use vstd::slice::{slice_subrange, slice_to_vec};

verus! {

/// What a group of two digit positions holds: its number, and how many of
/// its digits are blanked. A group is two digits, a digit and a space, or two
/// spaces; where `only_spaces` is set, because blanking began further left,
/// only two spaces will do.
pub open spec fn digit_group(first: u8, second: u8, only_spaces: bool) -> Option<(u32, u8)> {
    if first == SPACE && second == SPACE {
        Some((0u32, 2u8))
    } else if only_spaces {
        None
    } else if second == SPACE {
        if is_digit(first) {
            Some(((10 * digit_value(first)) as u32, 1u8))
        } else {
            None
        }
    } else if is_digit(first) && is_digit(second) {
        Some(((10 * digit_value(first) + digit_value(second)) as u32, 0u8))
    } else {
        None
    }
}

/// Reads a group of two digit positions, of which a trailing part may be
/// blanked with spaces. Returns the number, with each blank read as zero, and
/// the count of blanks.
pub fn parse_bytes_trailing_spaces(b: &[u8; 2], only_spaces: bool) -> (group: Option<(u32, u8)>)
    ensures
        group == digit_group(b@[0], b@[1], only_spaces),
{
    if only_spaces {
        if b[0] == SPACE && b[1] == SPACE {
            return Some((0, 2));
        } else {
            return None;
        }
    }
    if b[0] == SPACE && b[1] == SPACE {
        Some((0, 2))
    } else if b[1] == SPACE {
        let tens = slice_subrange(b.as_slice(), 0, 1);
        proof {
            reveal_with_fuel(digits_value, 2);
            assert(tens@.drop_last() =~= Seq::<u8>::empty());
        }
        match parse_bytes(tens) {
            Some(v) => Some((v * 10, 1)),
            None => None,
        }
    } else {
        proof {
            reveal_with_fuel(digits_value, 3);
            assert(b@.drop_last().drop_last() =~= Seq::<u8>::empty());
        }
        match parse_bytes(b.as_slice()) {
            Some(v) => Some((v, 0)),
            None => None,
        }
    }
}

/// The number of spaces at the end of the first `n` bytes of `s`.
pub open spec fn trailing_spaces(s: Seq<u8>, n: nat) -> nat
    decreases n,
{
    if n > 0 && s[n - 1] == SPACE {
        1 + trailing_spaces(s, (n - 1) as nat)
    } else {
        0
    }
}

/// The six digit positions of a latitude text `DDMM.ffH`, in order.
pub open spec fn latitude_positions(b: Seq<u8>) -> Seq<u8> {
    seq![b[0], b[1], b[2], b[3], b[5], b[6]]
}

/// The angle that six digit positions `DDMMff` spell, in units. A position
/// that holds no digit counts as zero.
pub open spec fn latitude_positions_units(d: Seq<u8>) -> int {
    dms_units(
        (10 * digit_value(d[0]) + digit_value(d[1])) as int,
        (10 * digit_value(d[2]) + digit_value(d[3])) as int,
        (10 * digit_value(d[4]) + digit_value(d[5])) as int,
    )
}

/// What the text `b` says as an uncompressed latitude: the angle in units,
/// south negative, and the precision; `None` where `b` is no such text.
///
/// The text is eight bytes `DDMM.ffH`, with `N` or `S` for `H`. Of its six
/// digit positions, the last few, but not all, may be spaces; the others are
/// digits. The number of spaces is the precision, and the angle may not
/// exceed ninety degrees.
pub open spec fn latitude_text(b: Seq<u8>) -> Option<(int, Precision)> {
    let d = latitude_positions(b);
    let blanks = trailing_spaces(d, 6);
    let m = latitude_positions_units(d);
    if b.len() == 8 && b[4] == POINT && (b[7] == NORTH || b[7] == SOUTH) && blanks < 6
        && is_digits(d.take(6 - blanks)) && m <= MAX_LATITUDE {
        Some(
            (
                if b[7] == NORTH {
                    m
                } else {
                    -m
                },
                Precision::of_blanks(blanks as int).unwrap(),
            ),
        )
    } else {
        None
    }
}

/// The three groups of the six digit positions `d`, read from the left, each
/// one told whether blanking has begun before it: the three numbers and the
/// total of blanks.
spec fn latitude_groups(d: Seq<u8>) -> Option<(u32, u32, u32, int)> {
    match digit_group(d[0], d[1], false) {
        Some((degrees, n0)) => match digit_group(d[2], d[3], n0 > 0) {
            Some((minutes, n1)) => match digit_group(d[4], d[5], n1 > 0) {
                Some((hundredths, n2)) => Some((degrees, minutes, hundredths, n0 + n1 + n2)),
                None => None,
            },
            None => None,
        },
        None => None,
    }
}

/// Reading the positions group by group accepts the texts whose positions
/// are digits followed by spaces, counts the spaces, and gives the angle that
/// the digits spell.
proof fn lemma_groups_agree(d: Seq<u8>)
    requires
        d.len() == 6,
    ensures
        latitude_groups(d) is Some <==> is_digits(d.take(6 - trailing_spaces(d, 6))),
        latitude_groups(d) matches Some((degrees, minutes, hundredths, blanks)) ==> {
            &&& blanks == trailing_spaces(d, 6)
            &&& degrees <= 99 && minutes <= 99 && hundredths <= 99
            &&& dms_units(degrees as int, minutes as int, hundredths as int)
                == latitude_positions_units(d)
        },
{
    reveal_with_fuel(trailing_spaces, 7);
    let k = trailing_spaces(d, 6);
    let shown = d.take(6 - k);
    if is_digits(shown) {
        assert forall|i: int| 0 <= i < 6 - k implies is_digit(d[i]) by {
            assert(shown[i] == d[i]);
        }
    }
    if latitude_groups(d) is Some {
        assert forall|i: int| 0 <= i < shown.len() implies is_digit(#[trigger] shown[i]) by {
            assert(shown[i] == d[i]);
        }
    }
}

/// What the bytes `b` say as a compressed latitude: the angle in units, south
/// negative; `None` where `b` is no such field.
///
/// The field is a number in base 91, and counts steps of 1/380926 degree
/// from the north pole southwards. It may not go beyond the south pole. On
/// the wire the field has four digits; any number of digits is read.
pub open spec fn latitude_compressed(b: Seq<u8>) -> Option<int> {
    if is_base91(b) && base91_value(b) <= MAX_COMPRESSED_STEPS {
        Some(MAX_LATITUDE - UNITS_PER_LATITUDE_STEP * base91_value(b))
    } else {
        None
    }
}

/// A latitude: an angle between ninety degrees south and ninety degrees
/// north, held as a whole number of units, north positive.
#[derive(Clone, Copy, Debug, PartialEq, Eq, Structural, PartialOrd, Hash)]
pub struct Latitude(i64);

impl View for Latitude {
    type V = int;

    /// The angle in units, north positive.
    closed spec fn view(&self) -> int {
        self.0 as int
    }
}

impl Latitude {
    /// Whether `units` is an angle that a latitude can have.
    pub open spec fn in_range(units: int) -> bool {
        -MAX_LATITUDE <= units <= MAX_LATITUDE
    }

    #[verifier::type_invariant]
    closed spec fn bounded(self) -> bool {
        Self::in_range(self.0 as int)
    }

    /// Creates the latitude of `value` units, if there is one.
    pub fn new(value: i64) -> (latitude: Option<Self>)
        ensures
            latitude is Some <==> Self::in_range(value as int),
            latitude matches Some(l) ==> l@ == value,
    {
        if value > MAX_LATITUDE || value < -MAX_LATITUDE {
            None
        } else {
            Some(Latitude(value))
        }
    }

    /// The angle in units, north positive.
    pub fn value(&self) -> (units: i64)
        ensures
            units == self@,
            Self::in_range(units as int),
    {
        proof {
            use_type_invariant(self);
        }
        self.0
    }

    /// The letter of the hemisphere: `N` from the equator northwards, `S`
    /// south of it.
    pub open spec fn hemisphere(self) -> u8 {
        if self@ >= 0 {
            NORTH
        } else {
            SOUTH
        }
    }

    /// The uncompressed text `DDMM.ffH` of this latitude at `precision`: the
    /// angle rounded to the nearest hundredth of a minute, in whole degrees,
    /// whole minutes and hundredths, with the last digits blanked as the
    /// precision says.
    pub open spec fn uncompressed(self, precision: Precision) -> Seq<u8> {
        let d = blanked(latitude_digits(magnitude(self@)), precision.blanks());
        seq![d[0], d[1], d[2], d[3], POINT, d[4], d[5], self.hemisphere()]
    }

    /// Reads an uncompressed latitude, and the precision that its blanked
    /// digits give it.
    pub fn parse_uncompressed(b: &[u8]) -> (parsed: Result<(Self, Precision), AprsError>)
        ensures
            match parsed {
                Ok((latitude, precision)) => latitude_text(b@) == Some((latitude@, precision)),
                Err(e) => latitude_text(b@) is None && e is InvalidLatitude && e.rejected() == b@,
            },
    {
        if b.len() != 8 || b[4] != POINT {
            return Err(AprsError::InvalidLatitude(slice_to_vec(b)));
        }
        let north = if b[7] == NORTH {
            true
        } else if b[7] == SOUTH {
            false
        } else {
            return Err(AprsError::InvalidLatitude(slice_to_vec(b)));
        };
        proof {
            lemma_groups_agree(latitude_positions(b@));
        }

        // Once a digit is blanked, every digit after it must be blanked too.
        let mut total_spaces: u8 = 0;
        let (deg, num_spaces) = match parse_bytes_trailing_spaces(&[b[0], b[1]], false) {
            Some(group) => group,
            None => {
                return Err(AprsError::InvalidLatitude(slice_to_vec(b)));
            },
        };
        total_spaces += num_spaces;
        let (min, num_spaces) = match parse_bytes_trailing_spaces(&[b[2], b[3]], num_spaces > 0) {
            Some(group) => group,
            None => {
                return Err(AprsError::InvalidLatitude(slice_to_vec(b)));
            },
        };
        total_spaces += num_spaces;
        let (min_frac, num_spaces) = match parse_bytes_trailing_spaces(
            &[b[5], b[6]],
            num_spaces > 0,
        ) {
            Some(group) => group,
            None => {
                return Err(AprsError::InvalidLatitude(slice_to_vec(b)));
            },
        };
        total_spaces += num_spaces;

        let precision = match Precision::from_num_digits(total_spaces) {
            Some(precision) => precision,
            None => {
                return Err(AprsError::InvalidLatitude(slice_to_vec(b)));
            },
        };
        let value: i64 = (deg as i64) * UNITS_PER_DEGREE + (min as i64) * UNITS_PER_MINUTE + (
        min_frac as i64) * UNITS_PER_HUNDREDTH;
        let value = if north {
            value
        } else {
            -value
        };
        match Latitude::new(value) {
            Some(latitude) => Ok((latitude, precision)),
            None => Err(AprsError::InvalidLatitude(slice_to_vec(b))),
        }
    }

    /// Appends the uncompressed text of this latitude at `precision` to
    /// `buf`. This cannot fail.
    pub fn encode_uncompressed(&self, buf: &mut Vec<u8>, precision: Precision) -> (written: Result<
        (),
        EncodeError,
    >)
        ensures
            written is Ok,
            final(buf)@ == old(buf)@ + self.uncompressed(precision),
    {
        proof {
            use_type_invariant(self);
        }
        let (dir, lat) = if self.0 >= 0 {
            (NORTH, self.0 as u64)
        } else {
            (SOUTH, (-self.0) as u64)
        };
        let (deg, min, min_frac) = split_angle(lat);

        let mut digit_buffer: Vec<u8> = Vec::new();
        push_two_digits(&mut digit_buffer, deg as u32);
        push_two_digits(&mut digit_buffer, min);
        push_two_digits(&mut digit_buffer, min_frac);
        assert(digit_buffer@ =~= latitude_digits(magnitude(self@)));
        overwrite_trailing(&mut digit_buffer, precision.num_digits() as usize, SPACE);

        buf.push(digit_buffer[0]);
        buf.push(digit_buffer[1]);
        buf.push(digit_buffer[2]);
        buf.push(digit_buffer[3]);
        buf.push(POINT);
        buf.push(digit_buffer[4]);
        buf.push(digit_buffer[5]);
        buf.push(dir);
        assert(buf@ =~= old(buf)@ + self.uncompressed(precision));
        Ok(())
    }

    /// The number of steps of 1/380926 degree from the north pole that comes
    /// nearest to this latitude. Halfway between two, it is the larger.
    pub open spec fn compressed_steps(self) -> nat {
        ((MAX_LATITUDE - self@ + UNITS_PER_LATITUDE_STEP / 2) / (UNITS_PER_LATITUDE_STEP as int)) as nat
    }

    /// The compressed field of this latitude: its steps in four base-91
    /// digits.
    pub open spec fn compressed(self) -> Seq<u8> {
        base91_digits(self.compressed_steps(), COMPRESSED_WIDTH as nat)
    }

    /// Reads a compressed latitude.
    pub fn parse_compressed(b: &[u8]) -> (parsed: Result<Self, AprsError>)
        ensures
            match parsed {
                Ok(latitude) => latitude_compressed(b@) == Some(latitude@),
                Err(e) => latitude_compressed(b@) is None && e is InvalidLatitude && e.rejected()
                    == b@,
            },
    {
        let steps = match decode_ascii(b) {
            Some(steps) => steps,
            None => {
                return Err(AprsError::InvalidLatitude(slice_to_vec(b)));
            },
        };
        if steps > MAX_COMPRESSED_STEPS {
            return Err(AprsError::InvalidLatitude(slice_to_vec(b)));
        }
        let value: i64 = MAX_LATITUDE - (steps as i64) * UNITS_PER_LATITUDE_STEP;
        match Latitude::new(value) {
            Some(latitude) => Ok(latitude),
            None => Err(AprsError::InvalidLatitude(slice_to_vec(b))),
        }
    }

    /// Appends the compressed field of this latitude to `buf`. This cannot
    /// fail.
    pub fn encode_compressed(&self, buf: &mut Vec<u8>) -> (written: Result<(), EncodeError>)
        ensures
            written is Ok,
            final(buf)@ == old(buf)@ + self.compressed(),
    {
        proof {
            use_type_invariant(self);
        }
        let from_pole: u64 = (MAX_LATITUDE - self.0) as u64;
        let steps: u64 = (from_pole + (UNITS_PER_LATITUDE_STEP as u64) / 2) / (
        UNITS_PER_LATITUDE_STEP as u64);
        proof {
            lemma_steps_fit(steps as nat);
        }
        encode_ascii(steps, buf, COMPRESSED_WIDTH)
    }
}

impl Default for Latitude {
    /// The equator.
    fn default() -> (latitude: Latitude)
        ensures
            latitude@ == 0,
    {
        Latitude(0)
    }
}

/// The seven digit positions of a longitude text `DDDMM.ffH`, in order.
pub open spec fn longitude_positions(b: Seq<u8>) -> Seq<u8> {
    seq![b[0], b[1], b[2], b[3], b[4], b[6], b[7]]
}

/// The angle that seven digits `DDDMMff` spell, in units.
pub open spec fn longitude_positions_units(d: Seq<u8>) -> int {
    dms_units(
        (100 * digit_value(d[0]) + 10 * digit_value(d[1]) + digit_value(d[2])) as int,
        (10 * digit_value(d[3]) + digit_value(d[4])) as int,
        (10 * digit_value(d[5]) + digit_value(d[6])) as int,
    )
}

/// What the text `b` says as an uncompressed longitude that goes with a
/// latitude of the given precision: the angle in units, west negative; `None`
/// where `b` is no such text.
///
/// The text is nine bytes `DDDMM.ffH`, with `E` or `W` for `H`. It has no
/// blanks of its own. As many of its last digit positions as the precision
/// blanks are not looked at: they count as the digit `0`, whatever they hold.
/// The other positions are digits, and the angle may not exceed a hundred
/// and eighty degrees.
pub open spec fn longitude_text(b: Seq<u8>, precision: Precision) -> Option<int> {
    let d = zeroed(longitude_positions(b), precision.blanks());
    let m = longitude_positions_units(d);
    if b.len() == 9 && b[5] == POINT && (b[8] == EAST || b[8] == WEST) && is_digits(d) && m
        <= MAX_LONGITUDE {
        Some(
            if b[8] == EAST {
                m
            } else {
                -m
            },
        )
    } else {
        None
    }
}

/// Reading seven positions as a number of three digits and two numbers of
/// two digits succeeds where all seven are digits, and gives the angle that
/// they spell.
proof fn lemma_fields_agree(d: Seq<u8>)
    requires
        d.len() == 7,
    ensures
        is_digits(d) <==> parsed_number(d.subrange(0, 3)) is Some && parsed_number(
            d.subrange(3, 5),
        ) is Some && parsed_number(d.subrange(5, 7)) is Some,
        is_digits(d) ==> {
            let degrees = parsed_number(d.subrange(0, 3))->0;
            let minutes = parsed_number(d.subrange(3, 5))->0;
            let hundredths = parsed_number(d.subrange(5, 7))->0;
            &&& degrees <= 999 && minutes <= 99 && hundredths <= 99
            &&& dms_units(degrees as int, minutes as int, hundredths as int)
                == longitude_positions_units(d)
        },
{
    let deg_digits = d.subrange(0, 3);
    let min_digits = d.subrange(3, 5);
    let frac_digits = d.subrange(5, 7);
    reveal_with_fuel(digits_value, 4);
    assert(deg_digits.drop_last().drop_last().drop_last() =~= Seq::<u8>::empty());
    assert(min_digits.drop_last().drop_last() =~= Seq::<u8>::empty());
    assert(frac_digits.drop_last().drop_last() =~= Seq::<u8>::empty());
    if is_digits(d) {
        assert forall|i: int| 0 <= i < 3 implies is_digit(#[trigger] deg_digits[i]) by {
            assert(deg_digits[i] == d[i]);
        }
        assert forall|i: int| 0 <= i < 2 implies is_digit(#[trigger] min_digits[i]) by {
            assert(min_digits[i] == d[i + 3]);
        }
        assert forall|i: int| 0 <= i < 2 implies is_digit(#[trigger] frac_digits[i]) by {
            assert(frac_digits[i] == d[i + 5]);
        }
    }
    if is_digits(deg_digits) && is_digits(min_digits) && is_digits(frac_digits) {
        assert(deg_digits[0] == d[0] && deg_digits[1] == d[1] && deg_digits[2] == d[2]);
        assert(min_digits[0] == d[3] && min_digits[1] == d[4]);
        assert(frac_digits[0] == d[5] && frac_digits[1] == d[6]);
    }
}

/// What the bytes `b` say as a compressed longitude: the angle in units, west
/// negative; `None` where `b` is no such field.
///
/// The field is a number in base 91, and counts steps of 1/190463 degree
/// from the meridian of 180 degrees west eastwards. It may not go beyond 180
/// degrees east. On the wire the field has four digits; any number of digits
/// is read.
pub open spec fn longitude_compressed(b: Seq<u8>) -> Option<int> {
    if is_base91(b) && base91_value(b) <= MAX_COMPRESSED_STEPS {
        Some(UNITS_PER_LONGITUDE_STEP * base91_value(b) - MAX_LONGITUDE)
    } else {
        None
    }
}

/// The width of a compressed coordinate, in base-91 digits.
pub const COMPRESSED_WIDTH: usize = 4;

/// Four base-91 digits have room for every count of steps.
pub proof fn lemma_steps_fit(steps: nat)
    requires
        steps <= MAX_COMPRESSED_STEPS,
    ensures
        steps < pow(91, COMPRESSED_WIDTH as nat),
{
    assert(pow(91, 4) == 68_574_961) by {
        reveal_with_fuel(pow, 5);
    }
}

/// A longitude: an angle between a hundred and eighty degrees west and a
/// hundred and eighty degrees east, held as a whole number of units, east
/// positive.
#[derive(Clone, Copy, Debug, PartialEq, Eq, Structural, PartialOrd, Hash)]
pub struct Longitude(i64);

impl View for Longitude {
    type V = int;

    /// The angle in units, east positive.
    closed spec fn view(&self) -> int {
        self.0 as int
    }
}

impl Longitude {
    /// Whether `units` is an angle that a longitude can have.
    pub open spec fn in_range(units: int) -> bool {
        -MAX_LONGITUDE <= units <= MAX_LONGITUDE
    }

    #[verifier::type_invariant]
    closed spec fn bounded(self) -> bool {
        Self::in_range(self.0 as int)
    }

    /// Creates the longitude of `value` units, if there is one.
    pub fn new(value: i64) -> (longitude: Option<Self>)
        ensures
            longitude is Some <==> Self::in_range(value as int),
            longitude matches Some(l) ==> l@ == value,
    {
        if value > MAX_LONGITUDE || value < -MAX_LONGITUDE {
            None
        } else {
            Some(Longitude(value))
        }
    }

    /// The angle in units, east positive.
    pub fn value(&self) -> (units: i64)
        ensures
            units == self@,
            Self::in_range(units as int),
    {
        proof {
            use_type_invariant(self);
        }
        self.0
    }

    /// The letter of the hemisphere: `E` from the prime meridian eastwards,
    /// `W` west of it.
    pub open spec fn hemisphere(self) -> u8 {
        if self@ >= 0 {
            EAST
        } else {
            WEST
        }
    }

    /// The uncompressed text `DDDMM.ffH` of this longitude: the angle rounded
    /// to the nearest hundredth of a minute, in whole degrees, whole minutes
    /// and hundredths. No digit is blanked.
    pub open spec fn uncompressed(self) -> Seq<u8> {
        let d = longitude_digits(magnitude(self@));
        seq![d[0], d[1], d[2], d[3], d[4], POINT, d[5], d[6], self.hemisphere()]
    }

    /// Reads an uncompressed longitude. The precision is that of the latitude
    /// it goes with, and says how many trailing digits to ignore.
    pub fn parse_uncompressed(b: &[u8], precision: Precision) -> (parsed: Result<Self, AprsError>)
        ensures
            match parsed {
                Ok(longitude) => longitude_text(b@, precision) == Some(longitude@),
                Err(e) => longitude_text(b@, precision) is None && e is InvalidLongitude
                    && e.rejected() == b@,
            },
    {
        if b.len() != 9 || b[5] != POINT {
            return Err(AprsError::InvalidLongitude(slice_to_vec(b)));
        }
        let east = if b[8] == EAST {
            true
        } else if b[8] == WEST {
            false
        } else {
            return Err(AprsError::InvalidLongitude(slice_to_vec(b)));
        };

        let mut digit_buffer: Vec<u8> = Vec::new();
        digit_buffer.push(b[0]);
        digit_buffer.push(b[1]);
        digit_buffer.push(b[2]);
        digit_buffer.push(b[3]);
        digit_buffer.push(b[4]);
        digit_buffer.push(b[6]);
        digit_buffer.push(b[7]);
        assert(digit_buffer@ =~= longitude_positions(b@));

        // zero out the digits that carry no information
        overwrite_trailing(&mut digit_buffer, precision.num_digits() as usize, ZERO);
        let ghost d = digit_buffer@;

        let deg_digits = slice_subrange(digit_buffer.as_slice(), 0, 3);
        let min_digits = slice_subrange(digit_buffer.as_slice(), 3, 5);
        let frac_digits = slice_subrange(digit_buffer.as_slice(), 5, 7);
        proof {
            lemma_fields_agree(d);
        }
        let deg = match parse_bytes(deg_digits) {
            Some(deg) => deg,
            None => {
                return Err(AprsError::InvalidLongitude(slice_to_vec(b)));
            },
        };
        let min = match parse_bytes(min_digits) {
            Some(min) => min,
            None => {
                return Err(AprsError::InvalidLongitude(slice_to_vec(b)));
            },
        };
        let min_frac = match parse_bytes(frac_digits) {
            Some(min_frac) => min_frac,
            None => {
                return Err(AprsError::InvalidLongitude(slice_to_vec(b)));
            },
        };
        let value: i64 = (deg as i64) * UNITS_PER_DEGREE + (min as i64) * UNITS_PER_MINUTE + (
        min_frac as i64) * UNITS_PER_HUNDREDTH;
        let value = if east {
            value
        } else {
            -value
        };
        match Longitude::new(value) {
            Some(longitude) => Ok(longitude),
            None => Err(AprsError::InvalidLongitude(slice_to_vec(b))),
        }
    }

    /// Appends the uncompressed text of this longitude to `buf`. This cannot
    /// fail.
    pub fn encode_uncompressed(&self, buf: &mut Vec<u8>) -> (written: Result<(), EncodeError>)
        ensures
            written is Ok,
            final(buf)@ == old(buf)@ + self.uncompressed(),
    {
        proof {
            use_type_invariant(self);
        }
        let (dir, lon) = if self.0 >= 0 {
            (EAST, self.0 as u64)
        } else {
            (WEST, (-self.0) as u64)
        };
        let (deg, min, min_frac) = split_angle(lon);

        push_three_digits(buf, deg as u32);
        push_two_digits(buf, min);
        buf.push(POINT);
        push_two_digits(buf, min_frac);
        buf.push(dir);
        assert(buf@ =~= old(buf)@ + self.uncompressed());
        Ok(())
    }

    /// The number of steps of 1/190463 degree from 180 degrees west that
    /// comes nearest to this longitude. Halfway between two, it is the larger.
    pub open spec fn compressed_steps(self) -> nat {
        ((MAX_LONGITUDE + self@ + UNITS_PER_LONGITUDE_STEP / 2) / (
        UNITS_PER_LONGITUDE_STEP as int)) as nat
    }

    /// The compressed field of this longitude: its steps in four base-91
    /// digits.
    pub open spec fn compressed(self) -> Seq<u8> {
        base91_digits(self.compressed_steps(), COMPRESSED_WIDTH as nat)
    }

    /// Reads a compressed longitude.
    pub fn parse_compressed(b: &[u8]) -> (parsed: Result<Self, AprsError>)
        ensures
            match parsed {
                Ok(longitude) => longitude_compressed(b@) == Some(longitude@),
                Err(e) => longitude_compressed(b@) is None && e is InvalidLongitude
                    && e.rejected() == b@,
            },
    {
        let steps = match decode_ascii(b) {
            Some(steps) => steps,
            None => {
                return Err(AprsError::InvalidLongitude(slice_to_vec(b)));
            },
        };
        if steps > MAX_COMPRESSED_STEPS {
            return Err(AprsError::InvalidLongitude(slice_to_vec(b)));
        }
        let value: i64 = (steps as i64) * UNITS_PER_LONGITUDE_STEP - MAX_LONGITUDE;
        match Longitude::new(value) {
            Some(longitude) => Ok(longitude),
            None => Err(AprsError::InvalidLongitude(slice_to_vec(b))),
        }
    }

    /// Appends the compressed field of this longitude to `buf`. This cannot
    /// fail.
    pub fn encode_compressed(&self, buf: &mut Vec<u8>) -> (written: Result<(), EncodeError>)
        ensures
            written is Ok,
            final(buf)@ == old(buf)@ + self.compressed(),
    {
        proof {
            use_type_invariant(self);
        }
        let from_west: u64 = (MAX_LONGITUDE + self.0) as u64;
        let steps: u64 = (from_west + (UNITS_PER_LONGITUDE_STEP as u64) / 2) / (
        UNITS_PER_LONGITUDE_STEP as u64);
        proof {
            lemma_steps_fit(steps as nat);
        }
        encode_ascii(steps, buf, COMPRESSED_WIDTH)
    }
}

impl Default for Longitude {
    /// The prime meridian.
    fn default() -> (longitude: Longitude)
        ensures
            longitude@ == 0,
    {
        Longitude(0)
    }
}

} // verus!
