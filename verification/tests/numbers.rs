use minhook_cli::bytes::le_at;
use minhook_cli::hex::{parse_hex, parse_hex_u32, parse_hex_usize, HexError};
use minhook_cli::text::{chars_of, push_decimal, push_decimal_right, push_hex, push_hex16};

fn reference_u32(s: &str) -> Result<u32, String> {
    let s = s.trim_start_matches("0x").trim_start_matches("0X");
    u32::from_str_radix(s, 16).map_err(|e| format!("not a hex u32: {e}"))
}

fn reference_usize(s: &str) -> Result<usize, String> {
    let s = s.trim_start_matches("0x").trim_start_matches("0X");
    usize::from_str_radix(s, 16).map_err(|e| format!("not a hex address: {e}"))
}

#[test]
fn addresses_of_the_usage_examples() {
    assert_eq!(parse_hex_usize("0x7ff67c001234"), Ok(0x7ff6_7c00_1234));
    assert_eq!(parse_hex_u32("0x1b520"), Ok(0x1b520));
}

#[test]
fn prefix_is_optional_and_may_repeat() {
    assert_eq!(parse_hex_u32("1b520"), Ok(0x1b520));
    assert_eq!(parse_hex_u32("0X1B520"), Ok(0x1b520));
    assert_eq!(parse_hex_u32("0x0x0x1b520"), Ok(0x1b520));
    assert_eq!(parse_hex_u32("0x0X1b520"), Ok(0x1b520));
    assert_eq!(parse_hex_u32("0X0x1b520"), Err("not a hex u32: invalid digit found in string".to_string()));
}

#[test]
fn each_hex_error() {
    assert_eq!(parse_hex_u32(""), Err("not a hex u32: cannot parse integer from empty string".to_string()));
    assert_eq!(parse_hex_u32("0x"), Err("not a hex u32: cannot parse integer from empty string".to_string()));
    assert_eq!(parse_hex_u32("12g4"), Err("not a hex u32: invalid digit found in string".to_string()));
    assert_eq!(
        parse_hex_u32("0x100000000"),
        Err("not a hex u32: number too large to fit in target type".to_string())
    );
    assert_eq!(parse_hex_usize("-1"), Err("not a hex address: invalid digit found in string".to_string()));
    assert_eq!(
        parse_hex_usize("10000000000000000"),
        Err("not a hex address: number too large to fit in target type".to_string())
    );
    assert_eq!(parse_hex("", 15), Err(HexError::Empty));
    assert_eq!(parse_hex("f", 15), Ok(15));
    assert_eq!(parse_hex("10", 15), Err(HexError::TooLarge));
    assert_eq!(parse_hex("g", 15), Err(HexError::InvalidDigit));
}

#[test]
fn hex_numbers_read_like_those_of_the_standard_library() {
    let inputs = [
        "", "0", "00", "0x", "0X", "0x0", "+", "-", "++1", "+1", "0x+1", "+0x1", "-0", "1_0", " 1",
        "1 ", "ffffffff", "FFFFFFFF", "100000000", "0000000000000001", "00000000000000000000ff",
        "100000000z", "ffffffffz", "z00000000000", "fffffffffffffffff", "ffffffffffffffff",
        "FfFfFfFfFfFfFfFf", "10000000000000000", "deadBEEF", "0xdead_beef", "\u{e9}", "1\u{e9}",
        "ffffffff\u{e9}", "100000000\u{2014}", "x", "0x0X", "0X0x", "00x1", "0xx1", "/", ":", "@",
        "G", "`", "g", "+f", "+g", "+00000000000000000000001",
    ];
    for s in inputs {
        assert_eq!(parse_hex_u32(s), reference_u32(s), "{s:?}");
        assert_eq!(parse_hex_usize(s), reference_usize(s), "{s:?}");
    }
}

#[test]
fn printed_numbers_read_back() {
    let numbers: [u64; 8] = [0, 1, 15, 16, 0x1b520, u32::MAX as u64, 0x7ff6_7c00_1234, u64::MAX];
    for n in numbers {
        let mut plain = String::new();
        push_hex(&mut plain, n);
        assert_eq!(plain, format!("{n:x}"));
        assert_eq!(parse_hex(&plain, u64::MAX), Ok(n));
        assert_eq!(parse_hex(&format!("0x{plain}"), u64::MAX), Ok(n));
        assert_eq!(parse_hex(&format!("0X{plain}"), u64::MAX), Ok(n));
        let mut wide = String::from("=");
        push_hex16(&mut wide, n);
        assert_eq!(wide, format!("={n:016x}"));
        assert_eq!(parse_hex(&wide[1..], u64::MAX), Ok(n));
    }
}

#[test]
fn letter_case_of_digits_does_not_matter() {
    assert_eq!(parse_hex_u32("abcdef"), Ok(0xabcdef));
    assert_eq!(parse_hex_u32("ABCDEF"), Ok(0xabcdef));
    assert_eq!(parse_hex_u32("aBcDeF"), Ok(0xabcdef));
}

#[test]
fn decimals() {
    for n in [0u64, 7, 10, 99, 100, 999, 1000, u64::MAX] {
        let mut out = String::from("a");
        push_decimal(&mut out, n);
        assert_eq!(out, format!("a{n}"));
        let mut out = String::from("a");
        push_decimal_right(&mut out, n, 3);
        assert_eq!(out, format!("a{n:>3}"));
    }
}

#[test]
fn characters_of_a_string() {
    assert_eq!(chars_of("a\u{2014}\u{1d11e}"), vec!['a', '\u{2014}', '\u{1d11e}']);
    assert_eq!(chars_of(""), Vec::<char>::new());
}

#[test]
fn little_endian_numbers() {
    let bytes: Vec<u8> = vec![0xff, 0x78, 0x56, 0x34, 0x12, 0xf0, 0xde, 0xbc, 0x9a];
    assert_eq!(le_at(&bytes, 1, 4), 0x1234_5678);
    assert_eq!(le_at(&bytes, 1, 8), 0x9abc_def0_1234_5678);
    assert_eq!(le_at(&bytes, 9, 0), 0);
}
