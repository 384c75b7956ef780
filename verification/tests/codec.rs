use flash_console::byte_str::{parse_digit, parse_num, to_string, ByteBuf, ParseByteStr, ToByteStr};
use flash_console::byte_str::{FormatNumErr, ParseNumErr};

#[test]
fn format_basic_bases() {
    let mut buf = ByteBuf::new(8);
    assert!(to_string(255, 2, &mut buf).is_ok());
    assert_eq!(buf.as_slice(), b"11111111");

    let mut buf = ByteBuf::new(8);
    assert!(to_string(255, 16, &mut buf).is_ok());
    assert_eq!(buf.as_slice(), b"FF");

    let mut buf = ByteBuf::new(8);
    assert!(to_string(0, 10, &mut buf).is_ok());
    assert_eq!(buf.as_slice(), b"0");

    let mut buf = ByteBuf::new(8);
    assert!(to_string(35, 36, &mut buf).is_ok());
    assert_eq!(buf.as_slice(), b"Z");
}

#[test]
fn format_overrun_when_capacity_too_small() {
    // 255 in base 2 needs 8 digits: a 4-byte buffer fails ...
    let mut buf = ByteBuf::new(4);
    assert!(matches!(to_string(255, 2, &mut buf), Err(FormatNumErr::Overrun)));
    // ... and holds the partial, unreversed digits
    assert_eq!(buf.as_slice(), b"1111");
}

#[test]
fn format_appends_after_existing_content() {
    let mut buf = ByteBuf::new(8);
    assert!(buf.push(b'9'));
    assert!(to_string(0x1F, 16, &mut buf).is_ok());
    // digits go in front, prior content is reversed behind them
    assert_eq!(buf.as_slice(), b"1F9");
}

#[test]
fn format_via_trait_impls() {
    let mut buf = ByteBuf::new(2);
    assert!(ToByteStr::to_string(&0x9Fu8, 16, &mut buf).is_ok());
    assert_eq!(buf.as_slice(), b"9F");

    let mut buf = ByteBuf::new(8);
    assert!(ToByteStr::to_string(&0xDEAD_BEEFu32, 16, &mut buf).is_ok());
    assert_eq!(buf.as_slice(), b"DEADBEEF");
}

#[test]
fn parse_hex_prefix() {
    assert_eq!(parse_num(b"0x1F"), Ok(31));
    assert_eq!(parse_num(b"0X1f"), Ok(31));
}

#[test]
fn parse_separator_ignored() {
    assert_eq!(parse_num(b"1_000"), Ok(1000));
}

#[test]
fn parse_empty_is_zero() {
    assert_eq!(parse_num(b""), Ok(0));
}

#[test]
fn parse_octal_and_binary_prefixes() {
    assert_eq!(parse_num(b"0o17"), Ok(15));
    assert_eq!(parse_num(b"0b101"), Ok(5));
    assert_eq!(parse_num(b"0B101"), Ok(5));
}

#[test]
fn parse_digit_rejects_digit_out_of_base() {
    // digit 9 is invalid in base 8
    assert_eq!(parse_digit(0, b'9', 8), Err(ParseNumErr::BadDigit(b'9')));
    assert_eq!(parse_digit(0, b'8', 8), Err(ParseNumErr::BadDigit(b'8')));
    assert_eq!(parse_digit(0, b'7', 8), Ok(7));
}

#[test]
fn parse_digit_rejects_bad_base() {
    assert_eq!(parse_digit(0, b'5', 1), Err(ParseNumErr::BadBase(1)));
    assert_eq!(parse_digit(0, b'5', 36), Err(ParseNumErr::BadBase(36)));
    assert_eq!(parse_digit(0, b'5', 40), Err(ParseNumErr::BadBase(40)));
}

#[test]
fn parse_digit_case_and_letters() {
    assert_eq!(parse_digit(0, b'a', 16), Ok(10));
    assert_eq!(parse_digit(0, b'F', 16), Ok(15));
    assert_eq!(parse_digit(0, b'z', 36), Err(ParseNumErr::BadBase(36)));
    assert_eq!(parse_digit(0, b'z', 35), Err(ParseNumErr::BadDigit(b'z')));
    assert_eq!(parse_digit(1, b'_', 10), Ok(1));
}

#[test]
fn parse_rejects_stray_bytes() {
    assert_eq!(parse_num(b"12a4"), Err(ParseNumErr::BadDigit(b'a')));
    assert_eq!(parse_num(b" 12"), Err(ParseNumErr::BadDigit(b' ')));
}

#[test]
fn parse_narrowing_overflow() {
    // 2^32 does not fit a 32-bit value
    assert_eq!(<u32 as ParseByteStr>::parse(b"4294967296"), Err(ParseNumErr::Overflow));
    assert_eq!(<u32 as ParseByteStr>::parse(b"4294967295"), Ok(u32::MAX));
    assert_eq!(<u8 as ParseByteStr>::parse(b"256"), Err(ParseNumErr::Overflow));
    assert_eq!(<u8 as ParseByteStr>::parse(b"255"), Ok(255));
    assert_eq!(<u16 as ParseByteStr>::parse(b"0x10000"), Err(ParseNumErr::Overflow));
    assert_eq!(<u16 as ParseByteStr>::parse(b"0xFFFF"), Ok(0xFFFF));
    assert_eq!(<usize as ParseByteStr>::parse(b"12345"), Ok(12345));
}

#[test]
fn round_trip_all_bases() {
    // format then re-parse in the same base, for every base the parser takes
    for base in 2u8..36 {
        for &v in &[0usize, 1, base as usize - 1, base as usize, 12345, 0xFFFF_FFFF] {
            let mut buf = ByteBuf::new(64);
            assert!(to_string(v, base, &mut buf).is_ok());
            let mut acc = 0usize;
            for &c in buf.as_slice() {
                acc = parse_digit(acc, c, base).expect("digit of the formatter parses back");
            }
            assert_eq!(acc, v);
        }
    }
}

#[test]
fn round_trip_through_prefixes() {
    let mut buf = ByteBuf::new(16);
    assert!(to_string(48879, 16, &mut buf).is_ok());
    let mut line = b"0x".to_vec();
    line.extend_from_slice(buf.as_slice());
    assert_eq!(parse_num(&line), Ok(48879));

    let mut buf = ByteBuf::new(64);
    assert!(to_string(48879, 10, &mut buf).is_ok());
    assert_eq!(parse_num(buf.as_slice()), Ok(48879));
}
