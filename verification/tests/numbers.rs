use regex_decode::number::parse_integer;
use regex_decode::{CaptureSet, DecodeError, Decoder, Group, ParseFailure};

fn staged(text: &str) -> Decoder {
    let groups = vec![Group::new(None, Some(text)), Group::new(None, Some(text))];
    let mut decoder = Decoder::new(CaptureSet::new(groups));
    decoder.read_tuple_arg(0).unwrap();
    decoder
}

#[test]
fn digits_denote_their_decimal_value() {
    assert_eq!(parse_integer("0", 0, 9), Ok(0));
    assert_eq!(parse_integer("7", 0, 9), Ok(7));
    assert_eq!(parse_integer("1941", 0, 65535), Ok(1941));
    assert_eq!(parse_integer("1234567890", 0, 9_999_999_999), Ok(1_234_567_890));
}

#[test]
fn leading_zeros_do_not_count() {
    assert_eq!(parse_integer("0005", 0, 255), Ok(5));
    assert_eq!(parse_integer("000000000000000000000000000000000000000255", 0, 255), Ok(255));
    assert_eq!(parse_integer("-000", -128, 127), Ok(0));
}

#[test]
fn a_plus_sign_is_accepted() {
    assert_eq!(parse_integer("+41", 0, 255), Ok(41));
    assert_eq!(parse_integer("+41", -128, 127), Ok(41));
}

#[test]
fn a_minus_sign_needs_a_range_below_zero() {
    assert_eq!(parse_integer("-41", -128, 127), Ok(-41));
    assert_eq!(parse_integer("-41", 0, 255), Err(ParseFailure::InvalidDigit));
    assert_eq!(parse_integer("-0", 0, 255), Err(ParseFailure::InvalidDigit));
}

#[test]
fn empty_text_is_no_number() {
    assert_eq!(parse_integer("", 0, 255), Err(ParseFailure::Empty));
    assert_eq!(parse_integer("", -128, 127), Err(ParseFailure::Empty));
}

#[test]
fn a_lone_sign_is_no_number() {
    assert_eq!(parse_integer("+", 0, 255), Err(ParseFailure::InvalidDigit));
    assert_eq!(parse_integer("-", -128, 127), Err(ParseFailure::InvalidDigit));
    assert_eq!(parse_integer("-", 0, 255), Err(ParseFailure::InvalidDigit));
}

#[test]
fn other_characters_are_no_digits() {
    assert_eq!(parse_integer(" 5", 0, 255), Err(ParseFailure::InvalidDigit));
    assert_eq!(parse_integer("5 ", 0, 255), Err(ParseFailure::InvalidDigit));
    assert_eq!(parse_integer("1_000", 0, 65535), Err(ParseFailure::InvalidDigit));
    assert_eq!(parse_integer("12a", 0, 255), Err(ParseFailure::InvalidDigit));
    assert_eq!(parse_integer("1.5", 0, 255), Err(ParseFailure::InvalidDigit));
    assert_eq!(parse_integer("++5", 0, 255), Err(ParseFailure::InvalidDigit));
    assert_eq!(parse_integer("\u{0663}", 0, 255), Err(ParseFailure::InvalidDigit));
}

#[test]
fn a_bad_digit_is_reported_before_the_range() {
    assert_eq!(parse_integer("999x", 0, 255), Err(ParseFailure::InvalidDigit));
    assert_eq!(parse_integer("x999", 0, 255), Err(ParseFailure::InvalidDigit));
}

#[test]
fn numbers_out_of_range_overflow() {
    assert_eq!(parse_integer("255", 0, 255), Ok(255));
    assert_eq!(parse_integer("256", 0, 255), Err(ParseFailure::PosOverflow));
    assert_eq!(parse_integer("1941", 0, 255), Err(ParseFailure::PosOverflow));
    assert_eq!(parse_integer("-128", -128, 127), Ok(-128));
    assert_eq!(parse_integer("-129", -128, 127), Err(ParseFailure::NegOverflow));
    assert_eq!(parse_integer("127", -128, 127), Ok(127));
    assert_eq!(parse_integer("128", -128, 127), Err(ParseFailure::PosOverflow));
}

#[test]
fn the_widest_ranges_are_exact() {
    let max = "170141183460469231731687303715884105727";
    let above = "170141183460469231731687303715884105728";
    let min = "-170141183460469231731687303715884105728";
    let below = "-170141183460469231731687303715884105729";
    assert_eq!(parse_integer(max, i128::MIN, i128::MAX), Ok(i128::MAX));
    assert_eq!(parse_integer(above, i128::MIN, i128::MAX), Err(ParseFailure::PosOverflow));
    assert_eq!(parse_integer(min, i128::MIN, i128::MAX), Ok(i128::MIN));
    assert_eq!(parse_integer(below, i128::MIN, i128::MAX), Err(ParseFailure::NegOverflow));
    let huge = "340282366920938463463374607431768211455";
    let huger = "340282366920938463463374607431768211456";
    let hugest = "99999999999999999999999999999999999999999999999999999999999";
    assert_eq!(parse_integer(huge, i128::MIN, i128::MAX), Err(ParseFailure::PosOverflow));
    assert_eq!(parse_integer(huger, i128::MIN, i128::MAX), Err(ParseFailure::PosOverflow));
    assert_eq!(parse_integer(hugest, 0, 255), Err(ParseFailure::PosOverflow));
    assert_eq!(parse_integer("-340282366920938463463374607431768211456", -1, 0), Err(ParseFailure::NegOverflow));
}

#[test]
fn a_range_away_from_zero() {
    assert_eq!(parse_integer("3", 5, 10), Err(ParseFailure::NegOverflow));
    assert_eq!(parse_integer("7", 5, 10), Ok(7));
    assert_eq!(parse_integer("-3", -10, -5), Err(ParseFailure::PosOverflow));
    assert_eq!(parse_integer("-7", -10, -5), Ok(-7));
    assert_eq!(parse_integer("7", 10, 5), Err(ParseFailure::PosOverflow));
}

#[test]
fn read_u8_at_its_bounds() {
    assert_eq!(staged("0").read_u8(), Ok(0));
    assert_eq!(staged("255").read_u8(), Ok(u8::MAX));
    assert_eq!(
        staged("256").read_u8(),
        Err(DecodeError::InvalidPrimitive(ParseFailure::PosOverflow))
    );
    assert_eq!(
        staged("-1").read_u8(),
        Err(DecodeError::InvalidPrimitive(ParseFailure::InvalidDigit))
    );
}

#[test]
fn read_u16_at_its_bounds() {
    assert_eq!(staged("65535").read_u16(), Ok(u16::MAX));
    assert_eq!(
        staged("65536").read_u16(),
        Err(DecodeError::InvalidPrimitive(ParseFailure::PosOverflow))
    );
}

#[test]
fn read_u32_at_its_bounds() {
    assert_eq!(staged("4294967295").read_u32(), Ok(u32::MAX));
    assert_eq!(
        staged("4294967296").read_u32(),
        Err(DecodeError::InvalidPrimitive(ParseFailure::PosOverflow))
    );
}

#[test]
fn read_u64_at_its_bounds() {
    assert_eq!(staged("18446744073709551615").read_u64(), Ok(u64::MAX));
    assert_eq!(
        staged("18446744073709551616").read_u64(),
        Err(DecodeError::InvalidPrimitive(ParseFailure::PosOverflow))
    );
}

#[test]
fn read_usize_at_its_bounds() {
    assert_eq!(staged(&usize::MAX.to_string()).read_usize(), Ok(usize::MAX));
    assert_eq!(
        staged("340282366920938463463374607431768211455").read_usize(),
        Err(DecodeError::InvalidPrimitive(ParseFailure::PosOverflow))
    );
}

#[test]
fn read_i8_at_its_bounds() {
    assert_eq!(staged("-128").read_i8(), Ok(i8::MIN));
    assert_eq!(staged("127").read_i8(), Ok(i8::MAX));
    assert_eq!(
        staged("-129").read_i8(),
        Err(DecodeError::InvalidPrimitive(ParseFailure::NegOverflow))
    );
    assert_eq!(
        staged("128").read_i8(),
        Err(DecodeError::InvalidPrimitive(ParseFailure::PosOverflow))
    );
}

#[test]
fn read_i16_at_its_bounds() {
    assert_eq!(staged("-32768").read_i16(), Ok(i16::MIN));
    assert_eq!(staged("32767").read_i16(), Ok(i16::MAX));
    assert_eq!(
        staged("-32769").read_i16(),
        Err(DecodeError::InvalidPrimitive(ParseFailure::NegOverflow))
    );
}

#[test]
fn read_i32_at_its_bounds() {
    assert_eq!(staged("-2147483648").read_i32(), Ok(i32::MIN));
    assert_eq!(staged("2147483647").read_i32(), Ok(i32::MAX));
    assert_eq!(
        staged("2147483648").read_i32(),
        Err(DecodeError::InvalidPrimitive(ParseFailure::PosOverflow))
    );
}

#[test]
fn read_i64_at_its_bounds() {
    assert_eq!(staged("-9223372036854775808").read_i64(), Ok(i64::MIN));
    assert_eq!(staged("9223372036854775807").read_i64(), Ok(i64::MAX));
    assert_eq!(
        staged("-9223372036854775809").read_i64(),
        Err(DecodeError::InvalidPrimitive(ParseFailure::NegOverflow))
    );
}

#[test]
fn read_isize_at_its_bounds() {
    assert_eq!(staged(&isize::MIN.to_string()).read_isize(), Ok(isize::MIN));
    assert_eq!(staged(&isize::MAX.to_string()).read_isize(), Ok(isize::MAX));
    assert_eq!(
        staged("-340282366920938463463374607431768211455").read_isize(),
        Err(DecodeError::InvalidPrimitive(ParseFailure::NegOverflow))
    );
}

#[test]
fn numbers_agree_with_the_standard_parser() {
    let texts = [
        "0", "1", "41", "255", "256", "1941", "-1", "-128", "-129", "+7", "+", "-", "", "007",
        "12a", " 1", "65535", "65536", "4294967295", "4294967296", "-2147483648", "-2147483649",
    ];
    for text in texts {
        assert_eq!(staged(text).read_u8().ok(), text.parse::<u8>().ok(), "u8 {:?}", text);
        assert_eq!(staged(text).read_u16().ok(), text.parse::<u16>().ok(), "u16 {:?}", text);
        assert_eq!(staged(text).read_u32().ok(), text.parse::<u32>().ok(), "u32 {:?}", text);
        assert_eq!(staged(text).read_u64().ok(), text.parse::<u64>().ok(), "u64 {:?}", text);
        assert_eq!(staged(text).read_usize().ok(), text.parse::<usize>().ok(), "usize {:?}", text);
        assert_eq!(staged(text).read_i8().ok(), text.parse::<i8>().ok(), "i8 {:?}", text);
        assert_eq!(staged(text).read_i16().ok(), text.parse::<i16>().ok(), "i16 {:?}", text);
        assert_eq!(staged(text).read_i32().ok(), text.parse::<i32>().ok(), "i32 {:?}", text);
        assert_eq!(staged(text).read_i64().ok(), text.parse::<i64>().ok(), "i64 {:?}", text);
        assert_eq!(staged(text).read_isize().ok(), text.parse::<isize>().ok(), "isize {:?}", text);
    }
}
