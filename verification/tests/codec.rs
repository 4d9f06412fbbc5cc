use aprs_codec::base91::{decode_ascii, digit_from_ascii, encode_ascii};
use aprs_codec::bytes::parse_bytes;
use aprs_codec::error::{AprsError, EncodeError};
use aprs_codec::lonlat::{Latitude, Longitude};
use aprs_codec::precision::Precision;
use aprs_codec::units::{
    split_angle, MAX_COMPRESSED_STEPS, MAX_LATITUDE, MAX_LONGITUDE, UNITS_PER_DEGREE,
    UNITS_PER_HUNDREDTH, UNITS_PER_LATITUDE_STEP, UNITS_PER_LONGITUDE_STEP, UNITS_PER_MINUTE,
};

const LEVELS: [Precision; 6] = [
    Precision::HundredthMinute,
    Precision::TenthMinute,
    Precision::OneMinute,
    Precision::TenMinute,
    Precision::OneDegree,
    Precision::TenDegree,
];

fn latitude_text(units: i64, precision: Precision) -> Vec<u8> {
    let mut buf = vec![];
    Latitude::new(units)
        .unwrap()
        .encode_uncompressed(&mut buf, precision)
        .unwrap();
    buf
}

fn longitude_text(units: i64) -> Vec<u8> {
    let mut buf = vec![];
    Longitude::new(units)
        .unwrap()
        .encode_uncompressed(&mut buf)
        .unwrap();
    buf
}

#[test]
fn unit_constants_agree() {
    assert_eq!(UNITS_PER_DEGREE, 60 * UNITS_PER_MINUTE);
    assert_eq!(UNITS_PER_MINUTE, 100 * UNITS_PER_HUNDREDTH);
    assert_eq!(UNITS_PER_DEGREE, 380_926 * UNITS_PER_LATITUDE_STEP);
    assert_eq!(UNITS_PER_DEGREE, 190_463 * UNITS_PER_LONGITUDE_STEP);
    assert_eq!(MAX_LATITUDE, 90 * UNITS_PER_DEGREE);
    assert_eq!(MAX_LONGITUDE, 180 * UNITS_PER_DEGREE);
    assert_eq!(MAX_COMPRESSED_STEPS, 180 * 380_926);
}

#[test]
fn precision_levels_and_digits() {
    for (digits, level) in LEVELS.iter().enumerate() {
        assert_eq!(level.num_digits() as usize, digits);
        assert_eq!(Precision::from_num_digits(digits as u8), Some(*level));
    }
    assert_eq!(Precision::from_num_digits(6), None);
    assert_eq!(Precision::from_num_digits(255), None);
    assert_eq!(Precision::default(), Precision::HundredthMinute);
    assert!(Precision::HundredthMinute < Precision::TenDegree);
}

#[test]
fn parse_bytes_reads_digits_only() {
    assert_eq!(parse_bytes(b"0"), Some(0));
    assert_eq!(parse_bytes(b"129"), Some(129));
    assert_eq!(parse_bytes(b"007"), Some(7));
    assert_eq!(parse_bytes(b"4294967295"), Some(u32::MAX));
    assert_eq!(parse_bytes(b"4294967296"), None);
    assert_eq!(parse_bytes(b""), None);
    assert_eq!(parse_bytes(b" 2"), None);
    assert_eq!(parse_bytes(b"+2"), None);
    assert_eq!(parse_bytes(b"-2"), None);
    assert_eq!(parse_bytes(b"1x"), None);
    assert_eq!(parse_bytes(b"99999999999999999999x"), None);
}

#[test]
fn base91_digits() {
    assert_eq!(digit_from_ascii(b'!'), Some(0));
    assert_eq!(digit_from_ascii(b'{'), Some(90));
    assert_eq!(digit_from_ascii(b' '), None);
    assert_eq!(digit_from_ascii(b'|'), None);
    for b in 0..=255u8 {
        let digit = if (33..=123).contains(&b) { Some(b - 33) } else { None };
        assert_eq!(digit_from_ascii(b), digit);
    }
}

#[test]
fn base91_decode() {
    assert_eq!(decode_ascii(b""), Some(0));
    assert_eq!(decode_ascii(b"!"), Some(0));
    assert_eq!(decode_ascii(b"\""), Some(1));
    assert_eq!(decode_ascii(b"5L!!"), Some(15_427_503));
    assert_eq!(decode_ascii(b"<*e7"), Some(20_427_156));
    assert_eq!(decode_ascii(b"{{{{"), Some(68_574_960));
    assert_eq!(decode_ascii(b"5L !"), None);
    assert_eq!(decode_ascii(b"5L|!"), None);
    assert_eq!(decode_ascii(b"{{{{{{{{{{{{{{{{{{{{"), None);
}

#[test]
fn base91_encode() {
    let mut buf = b">".to_vec();
    assert_eq!(encode_ascii(15_427_503, &mut buf, 4), Ok(()));
    assert_eq!(buf, b">5L!!");

    let mut buf = vec![];
    assert_eq!(encode_ascii(0, &mut buf, 4), Ok(()));
    assert_eq!(buf, b"!!!!");

    let mut buf = vec![];
    assert_eq!(encode_ascii(68_574_960, &mut buf, 4), Ok(()));
    assert_eq!(buf, b"{{{{");

    let mut buf = b"kept".to_vec();
    assert_eq!(
        encode_ascii(68_574_961, &mut buf, 4),
        Err(EncodeError::NumberTooLarge)
    );
    assert_eq!(buf, b"kept");

    let mut buf = vec![];
    assert_eq!(encode_ascii(0, &mut buf, 0), Ok(()));
    assert_eq!(buf, b"");
    assert_eq!(
        encode_ascii(1, &mut buf, 0),
        Err(EncodeError::NumberTooLarge)
    );

    let mut buf = vec![];
    assert_eq!(encode_ascii(u64::MAX, &mut buf, 12), Ok(()));
    assert_eq!(decode_ascii(&buf), Some(u64::MAX));
}

#[test]
fn base91_round_trip() {
    for n in [0u64, 1, 90, 91, 8_280, 8_281, 753_570, 753_571, 20_427_156, 68_574_960] {
        let mut buf = vec![];
        encode_ascii(n, &mut buf, 4).unwrap();
        assert_eq!(buf.len(), 4);
        assert_eq!(decode_ascii(&buf), Some(n));
    }
}

#[test]
fn split_angle_rounds_and_carries() {
    assert_eq!(split_angle(0), (0, 0, 0));
    assert_eq!(split_angle(MAX_LONGITUDE as u64), (180, 0, 0));
    assert_eq!(split_angle(u64::MAX), (16_142_018_899, 18, 28));
    // 49 degrees, 3.4998 minutes
    assert_eq!(split_angle(56_062_780_241), (49, 3, 50));
    // half a hundredth of a minute is 95231.5 units
    assert_eq!(split_angle(95_231), (0, 0, 0));
    assert_eq!(split_angle(95_232), (0, 0, 1));
    // half a hundredth short of a minute, the minute is full
    assert_eq!(split_angle(UNITS_PER_MINUTE as u64 - 95_232), (0, 0, 99));
    assert_eq!(split_angle(UNITS_PER_MINUTE as u64 - 95_231), (0, 1, 0));
    assert_eq!(split_angle(UNITS_PER_MINUTE as u64 - 1), (0, 1, 0));
    assert_eq!(split_angle(UNITS_PER_DEGREE as u64 - 1), (1, 0, 0));
}

#[test]
fn latitude_bounds() {
    assert!(Latitude::new(MAX_LATITUDE).is_some());
    assert!(Latitude::new(-MAX_LATITUDE).is_some());
    assert_eq!(Latitude::new(MAX_LATITUDE + 1), None);
    assert_eq!(Latitude::new(-MAX_LATITUDE - 1), None);
    // 90.0000001 degrees
    assert_eq!(Latitude::new(102_850_020_114), None);
    assert_eq!(Latitude::new(-102_850_020_114), None);
    assert_eq!(Latitude::new(i64::MAX), None);
    assert_eq!(Latitude::new(i64::MIN), None);
    assert_eq!(Latitude::new(12_345).unwrap().value(), 12_345);
    assert_eq!(Latitude::default().value(), 0);
}

#[test]
fn longitude_bounds() {
    assert!(Longitude::new(MAX_LONGITUDE).is_some());
    assert!(Longitude::new(-MAX_LONGITUDE).is_some());
    assert_eq!(Longitude::new(MAX_LONGITUDE + 1), None);
    assert_eq!(Longitude::new(-MAX_LONGITUDE - 1), None);
    assert_eq!(Longitude::new(i64::MAX), None);
    assert_eq!(Longitude::new(i64::MIN), None);
    assert_eq!(Longitude::new(-12_345).unwrap().value(), -12_345);
    assert_eq!(Longitude::default().value(), 0);
}

#[test]
fn latitude_text_exact_values() {
    let (lat, precision) = Latitude::parse_uncompressed(b"4903.50N").unwrap();
    assert_eq!(lat.value(), 56_062_784_050);
    assert_eq!(precision, Precision::HundredthMinute);
    let (lat, precision) = Latitude::parse_uncompressed(b"49  .  N").unwrap();
    assert_eq!(lat.value(), 49 * UNITS_PER_DEGREE);
    assert_eq!(precision, Precision::OneDegree);
    let (lat, _) = Latitude::parse_uncompressed(b"9000.00S").unwrap();
    assert_eq!(lat.value(), -MAX_LATITUDE);
    // minutes are not held below sixty: 89 degrees and 60 minutes is the pole
    let (lat, _) = Latitude::parse_uncompressed(b"8960.00N").unwrap();
    assert_eq!(lat.value(), MAX_LATITUDE);
}

#[test]
fn latitude_text_rejections() {
    for text in [
        &b""[..],
        b"4903.50",
        b"4903.50NN",
        b"4903,50N",
        b"4903.50n",
        b"4903.50 ",
        b"9000.01N",
        b"9000.01S",
        b"8960.01N",
        b"+903.50N",
        b"49+3.50N",
        b"4903.+0N",
        b"4903. 0N",
        b" 903.50N",
        b"4 03.50N",
        b"49 3.  N",
        b"    .  N",
        b"4903.5xN",
    ] {
        assert_eq!(
            Latitude::parse_uncompressed(text),
            Err(AprsError::InvalidLatitude(text.to_vec())),
            "{:?}",
            text
        );
    }
}

#[test]
fn longitude_text_exact_values() {
    let lon = Longitude::parse_uncompressed(b"12903.50E", Precision::HundredthMinute).unwrap();
    assert_eq!(lon.value(), 147_485_024_050);
    let lon = Longitude::parse_uncompressed(b"18000.00W", Precision::HundredthMinute).unwrap();
    assert_eq!(lon.value(), -MAX_LONGITUDE);
    let expected = [
        129 * UNITS_PER_DEGREE + 3 * UNITS_PER_MINUTE + 57 * UNITS_PER_HUNDREDTH,
        129 * UNITS_PER_DEGREE + 3 * UNITS_PER_MINUTE + 50 * UNITS_PER_HUNDREDTH,
        129 * UNITS_PER_DEGREE + 3 * UNITS_PER_MINUTE,
        129 * UNITS_PER_DEGREE,
        129 * UNITS_PER_DEGREE,
        120 * UNITS_PER_DEGREE,
    ];
    for (level, units) in LEVELS.iter().zip(expected) {
        let lon = Longitude::parse_uncompressed(b"12903.57E", *level).unwrap();
        assert_eq!(lon.value(), units, "{:?}", level);
    }
    // what the precision hides is not looked at
    let lon = Longitude::parse_uncompressed(b"12 xy.??E", Precision::TenDegree).unwrap();
    assert_eq!(lon.value(), 120 * UNITS_PER_DEGREE);
}

#[test]
fn longitude_text_rejections() {
    for text in [
        &b""[..],
        b"12903.50",
        b"12903.50EE",
        b"12903,50E",
        b"12903.50e",
        b"18000.01E",
        b"18000.01W",
        b"+2903.50E",
        b"129 3.50E",
        b"12903.5 E",
        b"12903.  E",
    ] {
        assert_eq!(
            Longitude::parse_uncompressed(text, Precision::HundredthMinute),
            Err(AprsError::InvalidLongitude(text.to_vec())),
            "{:?}",
            text
        );
    }
    // a digit that the precision keeps must be a digit
    assert_eq!(
        Longitude::parse_uncompressed(b"1x903.50E", Precision::TenDegree),
        Err(AprsError::InvalidLongitude(b"1x903.50E".to_vec()))
    );
    assert_eq!(
        Longitude::parse_uncompressed(b"12903.5 E", Precision::TenthMinute).map(|l| l.value()),
        Ok(129 * UNITS_PER_DEGREE + 3 * UNITS_PER_MINUTE + 50 * UNITS_PER_HUNDREDTH)
    );
}

#[test]
fn rejected_bytes_are_handed_back() {
    let e = Latitude::parse_uncompressed(b"nonsense").unwrap_err();
    assert_eq!(e.raw(), &b"nonsense".to_vec());
    let e = Longitude::parse_compressed(b"a b").unwrap_err();
    assert_eq!(e, AprsError::InvalidLongitude(b"a b".to_vec()));
    assert_eq!(e.raw(), &b"a b".to_vec());
}

#[test]
fn latitude_text_at_each_precision() {
    let units = 56_062_780_241; // 49.05833 degrees
    let expected: [&[u8]; 6] = [
        b"4903.50N",
        b"4903.5 N",
        b"4903.  N",
        b"490 .  N",
        b"49  .  N",
        b"4   .  N",
    ];
    for (level, text) in LEVELS.iter().zip(expected) {
        assert_eq!(latitude_text(units, *level), text);
    }
    assert_eq!(latitude_text(MAX_LATITUDE, Precision::HundredthMinute), b"9000.00N");
    assert_eq!(latitude_text(-MAX_LATITUDE, Precision::HundredthMinute), b"9000.00S");
    assert_eq!(latitude_text(-1, Precision::HundredthMinute), b"0000.00S");
}

#[test]
fn encoders_append() {
    let mut buf = b"!".to_vec();
    let lat = Latitude::new(56_062_780_241).unwrap();
    let lon = Longitude::new(-83_137_104_000).unwrap();
    lat.encode_uncompressed(&mut buf, Precision::TenthMinute).unwrap();
    buf.push(b'/');
    lon.encode_uncompressed(&mut buf).unwrap();
    buf.push(b'/');
    lat.encode_compressed(&mut buf).unwrap();
    lon.encode_compressed(&mut buf).unwrap();
    assert_eq!(buf, b"!4903.5 N/07245.00W/5`=m<*e7");
}

#[test]
fn rounding_carries_into_minutes_and_degrees() {
    // 49.06666 degrees is 49 degrees 3.9996 minutes
    assert_eq!(latitude_text(56_072_299_581, Precision::HundredthMinute), b"4904.00N");
    assert_eq!(latitude_text(-56_072_299_581, Precision::TenthMinute), b"4904.0 S");
    assert_eq!(longitude_text(147_494_539_581), b"12904.00E");
    // 49 degrees 59.999 minutes
    let units = 50 * UNITS_PER_DEGREE - 19_046;
    assert_eq!(latitude_text(units, Precision::HundredthMinute), b"5000.00N");
    assert_eq!(latitude_text(units, Precision::OneMinute), b"5000.  N");
    assert_eq!(latitude_text(units, Precision::TenDegree), b"5   .  N");
    assert_eq!(longitude_text(-units), b"05000.00W");
    // 89.99999 degrees
    assert_eq!(latitude_text(102_850_008_572, Precision::HundredthMinute), b"9000.00N");
    assert_eq!(latitude_text(MAX_LATITUDE - 95_231, Precision::HundredthMinute), b"9000.00N");
    assert_eq!(latitude_text(MAX_LATITUDE - 95_232, Precision::HundredthMinute), b"8959.99N");
    assert_eq!(longitude_text(MAX_LONGITUDE - 1), b"18000.00E");
    assert_eq!(longitude_text(10 * UNITS_PER_DEGREE - 1), b"01000.00E");
}

#[test]
fn longitude_text_of_values() {
    assert_eq!(longitude_text(MAX_LONGITUDE), b"18000.00E");
    assert_eq!(longitude_text(-MAX_LONGITUDE), b"18000.00W");
    assert_eq!(longitude_text(-1), b"00000.00W");
    assert_eq!(longitude_text(147_485_024_050), b"12903.50E");
}

#[test]
fn compressed_fields() {
    let lat = Latitude::parse_compressed(b"5L!!").unwrap();
    assert_eq!(lat.value(), 56_567_511_000); // 49.5 degrees
    let lon = Longitude::parse_compressed(b"<*e7").unwrap();
    assert_eq!(lon.value(), -83_137_104_000); // 72.75 degrees west, less a step
    assert_eq!(Latitude::parse_compressed(b"!!!!").unwrap().value(), MAX_LATITUDE);
    assert_eq!(Latitude::parse_compressed(b"{{!!").unwrap().value(), -MAX_LATITUDE);
    assert_eq!(Longitude::parse_compressed(b"!!!!").unwrap().value(), -MAX_LONGITUDE);
    assert_eq!(Longitude::parse_compressed(b"{{!!").unwrap().value(), MAX_LONGITUDE);
    assert_eq!(
        Latitude::parse_compressed(b"{{!\""),
        Err(AprsError::InvalidLatitude(b"{{!\"".to_vec()))
    );
    assert_eq!(
        Longitude::parse_compressed(b"{{!\""),
        Err(AprsError::InvalidLongitude(b"{{!\"".to_vec()))
    );
    assert_eq!(
        Latitude::parse_compressed(b"5L !"),
        Err(AprsError::InvalidLatitude(b"5L !".to_vec()))
    );
    assert_eq!(
        Longitude::parse_compressed(b"<*e|"),
        Err(AprsError::InvalidLongitude(b"<*e|".to_vec()))
    );
    // any number of digits is read
    assert_eq!(Latitude::parse_compressed(b"").unwrap().value(), MAX_LATITUDE);
    assert_eq!(
        Latitude::parse_compressed(b"!!5L!!").unwrap().value(),
        56_567_511_000
    );
    assert!(Latitude::parse_compressed(b"{{{{{{{{{{{{{{{{{{{{{{{{").is_err());
}

#[test]
fn compressed_encoding_rounds_to_the_nearest_step() {
    let text = |units: i64| {
        let mut buf = vec![];
        Latitude::new(units).unwrap().encode_compressed(&mut buf).unwrap();
        buf
    };
    assert_eq!(text(56_567_511_000), b"5L!!");
    assert_eq!(text(MAX_LATITUDE), b"!!!!");
    assert_eq!(text(-MAX_LATITUDE), b"{{!!");
    assert_eq!(text(MAX_LATITUDE - 1_499), b"!!!!");
    assert_eq!(text(MAX_LATITUDE - 1_500), b"!!!\"");

    let text = |units: i64| {
        let mut buf = vec![];
        Longitude::new(units).unwrap().encode_compressed(&mut buf).unwrap();
        buf
    };
    assert_eq!(text(-83_137_104_000), b"<*e7");
    assert_eq!(text(-MAX_LONGITUDE), b"!!!!");
    assert_eq!(text(MAX_LONGITUDE), b"{{!!");
    assert_eq!(text(-MAX_LONGITUDE + 2_999), b"!!!!");
    assert_eq!(text(-MAX_LONGITUDE + 3_000), b"!!!\"");
}
