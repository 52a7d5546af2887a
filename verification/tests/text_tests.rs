use home_mng::text::{
    decode_hex_input, decode_hex_text, parse_bool, parse_hex_u8, parse_i32, u8_decimal,
    IntErrorKind,
};

fn std_kind(s: &str) -> Result<i32, IntErrorKind> {
    match s.parse::<i32>() {
        Ok(v) => Ok(v),
        Err(e) => Err(match e.kind() {
            std::num::IntErrorKind::Empty => IntErrorKind::Empty,
            std::num::IntErrorKind::InvalidDigit => IntErrorKind::InvalidDigit,
            std::num::IntErrorKind::PosOverflow => IntErrorKind::PosOverflow,
            std::num::IntErrorKind::NegOverflow => IntErrorKind::NegOverflow,
            _ => panic!("unexpected kind"),
        }),
    }
}

#[test]
fn parse_i32_reads_decimal_integers() {
    assert_eq!(parse_i32("42"), Ok(42));
    assert_eq!(parse_i32("-17"), Ok(-17));
    assert_eq!(parse_i32("+5"), Ok(5));
    assert_eq!(parse_i32("007"), Ok(7));
    assert_eq!(parse_i32("2147483647"), Ok(i32::MAX));
    assert_eq!(parse_i32("-2147483648"), Ok(i32::MIN));
}

#[test]
fn parse_i32_errors() {
    assert_eq!(parse_i32(""), Err(IntErrorKind::Empty));
    assert_eq!(parse_i32("-"), Err(IntErrorKind::InvalidDigit));
    assert_eq!(parse_i32("+"), Err(IntErrorKind::InvalidDigit));
    assert_eq!(parse_i32("12a"), Err(IntErrorKind::InvalidDigit));
    assert_eq!(parse_i32(" 1"), Err(IntErrorKind::InvalidDigit));
    assert_eq!(parse_i32("+-1"), Err(IntErrorKind::InvalidDigit));
    assert_eq!(parse_i32("2147483648"), Err(IntErrorKind::PosOverflow));
    assert_eq!(parse_i32("-2147483649"), Err(IntErrorKind::NegOverflow));
    assert_eq!(parse_i32("99999999999x"), Err(IntErrorKind::PosOverflow));
}

#[test]
fn parse_i32_agrees_with_std() {
    let samples = [
        "", "0", "-0", "+0", "1", "-1", "+", "-", "++1", "--1", "1-", "12 ", "é", "١",
        "2147483647", "2147483648", "-2147483648", "-2147483649", "00000000000000000001",
        "-99999999999", "9999999999a", "a9999999999", "+2147483647", "3000000000",
    ];
    for s in samples.iter() {
        assert_eq!(parse_i32(s), std_kind(s), "input {:?}", s);
    }
}

#[test]
fn parse_i32_reads_back_every_written_i32() {
    for n in [0, 1, -1, 9, 10, -10, 12345, -98765, i32::MAX, i32::MIN, i32::MAX - 1, i32::MIN + 1] {
        assert_eq!(parse_i32(&n.to_string()), Ok(n));
    }
}

#[test]
fn parse_bool_reads_only_true_and_false() {
    assert_eq!(parse_bool("true"), Some(true));
    assert_eq!(parse_bool("false"), Some(false));
    assert_eq!(parse_bool("True"), None);
    assert_eq!(parse_bool("1"), None);
    assert_eq!(parse_bool(""), None);
    assert_eq!(parse_bool("truee"), None);
    for s in ["true", "false", "True", "yes", "", "fals"] {
        assert_eq!(parse_bool(s), s.parse::<bool>().ok());
    }
}

#[test]
fn parse_hex_u8_follows_from_str_radix() {
    let samples = [
        "", "0", "f", "F", "ff", "FF", "7a", "+f", "+", "-", "-1", "100", "g", "0g", "+ff", "00ff",
        "1ff", " f",
    ];
    for s in samples.iter() {
        let chars: Vec<char> = s.chars().collect();
        assert_eq!(parse_hex_u8(&chars), u8::from_str_radix(s, 16).ok(), "input {:?}", s);
    }
    assert_eq!(parse_hex_u8(&['a', 'b']), Some(0xab));
}

#[test]
fn decode_hex_text_reads_pairs() {
    assert_eq!(decode_hex_text("a1b2c"), vec![0xa1, 0xb2, 0x0c]);
    assert_eq!(decode_hex_text(""), Vec::<u8>::new());
    assert_eq!(decode_hex_text("00FF"), vec![0x00, 0xff]);
    assert_eq!(decode_hex_text("+f10"), vec![0x0f, 0x10]);
}

#[test]
fn decode_hex_text_reads_back_written_bytes() {
    let bytes: Vec<u8> = vec![0, 1, 0x7f, 0x80, 0xab, 0xff];
    let text: String = bytes.iter().map(|b| format!("{:02x}", b)).collect();
    assert_eq!(decode_hex_text(&text), bytes);
}

#[test]
fn decode_hex_input_passes_over_what_is_no_hex() {
    assert_eq!(decode_hex_input(b"a1b2\n"), vec![0xa1, 0xb2]);
    assert_eq!(decode_hex_input(b"a1zzb2"), vec![0xa1, 0xb2]);
    assert_eq!(decode_hex_input(b"a1b"), vec![0xa1, 0x0b]);
    assert_eq!(decode_hex_input(b""), Vec::<u8>::new());
    assert_eq!(decode_hex_input(b"-1+1"), vec![0x01]);
}

#[test]
fn decode_hex_input_reads_back_a_typed_line() {
    let bytes: Vec<u8> = vec![0xa1, 0x64, 0x6e, 0x61];
    let mut line: Vec<u8> = bytes.iter().map(|b| format!("{:02X}", b)).collect::<String>().into_bytes();
    line.push(b'\n');
    assert_eq!(decode_hex_input(&line), bytes);
}

#[test]
fn u8_decimal_writes_bytes() {
    for n in [0u8, 7, 10, 42, 99, 100, 200, 255] {
        assert_eq!(u8_decimal(n), n.to_string());
    }
}
