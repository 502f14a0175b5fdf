use kg_diag::io::decode::decode;
use kg_diag::io::quote::split_lines;
use kg_diag::io::reader::{consume_bom, starts_with_at};
use kg_diag::parse::convert::{parse_binary, parse_decimal, parse_hex, parse_octal, strip_underscores};
use kg_diag::parse::num::{is_at_start, is_digit, NotationRules};
use kg_diag::parse::{Case, Notation, NumberParser, NumericalErrorKind, Sign};
use kg_diag::text::{decimal_len, push_decimal, push_hex_byte, push_padded_decimal, push_repeat};
use kg_diag::{MemCharReader, Reader};

#[test]
fn numerals_are_appended() {
    let mut out = String::from(">");
    push_decimal(&mut out, 0);
    out.push(' ');
    push_decimal(&mut out, 7);
    out.push(' ');
    push_decimal(&mut out, 1234567890);
    out.push(' ');
    push_decimal(&mut out, u128::MAX);
    assert_eq!(out, ">0 7 1234567890 340282366920938463463374607431768211455");
    assert_eq!(decimal_len(0), 1);
    assert_eq!(decimal_len(9), 1);
    assert_eq!(decimal_len(10), 2);
    assert_eq!(decimal_len(999), 3);
    assert_eq!(decimal_len(1000), 4);
    assert_eq!(decimal_len(u128::MAX), 39);
}

#[test]
fn numerals_are_padded() {
    let mut out = String::new();
    push_padded_decimal(&mut out, 7, 4, '0');
    out.push('|');
    push_padded_decimal(&mut out, 12345, 4, '0');
    out.push('|');
    push_padded_decimal(&mut out, 42, 5, ' ');
    out.push('|');
    push_padded_decimal(&mut out, 42, 0, ' ');
    out.push('|');
    push_repeat(&mut out, '^', 3);
    push_repeat(&mut out, '!', 0);
    out.push('|');
    push_hex_byte(&mut out, 0);
    push_hex_byte(&mut out, 0x9F);
    push_hex_byte(&mut out, 0xA0);
    push_hex_byte(&mut out, 0xFF);
    assert_eq!(out, "0007|12345|   42|42|^^^|009FA0FF");
}

#[test]
fn scalars_are_decoded() {
    assert_eq!(decode(b"a", 0), Ok(('a', 1)));
    assert_eq!(decode("xż".as_bytes(), 1), Ok(('ż', 2)));
    assert_eq!(decode("€".as_bytes(), 0), Ok(('€', 3)));
    assert_eq!(decode("𝄞!".as_bytes(), 0), Ok(('𝄞', 4)));
    assert_eq!(decode(&[0x7F], 0), Ok(('\u{7F}', 1)));
    assert_eq!(decode(&[0xC2, 0x80], 0), Ok(('\u{80}', 2)));
    assert_eq!(decode(&[0xDF, 0xBF], 0), Ok(('\u{7FF}', 2)));
    assert_eq!(decode(&[0xE0, 0xA0, 0x80], 0), Ok(('\u{800}', 3)));
    assert_eq!(decode(&[0xED, 0x9F, 0xBF], 0), Ok(('\u{D7FF}', 3)));
    assert_eq!(decode(&[0xEE, 0x80, 0x80], 0), Ok(('\u{E000}', 3)));
    assert_eq!(decode(&[0xEF, 0xBF, 0xBF], 0), Ok(('\u{FFFF}', 3)));
    assert_eq!(decode(&[0xF0, 0x90, 0x80, 0x80], 0), Ok(('\u{10000}', 4)));
    assert_eq!(decode(&[0xF4, 0x8F, 0xBF, 0xBF], 0), Ok(('\u{10FFFF}', 4)));
    assert_eq!(decode(&[0xBF], 0), Err(1));
    assert_eq!(decode(&[0xC1, 0xBF], 0), Err(2));
    assert_eq!(decode(&[0xC2, 0xC0], 0), Err(2));
    assert_eq!(decode(&[0xE0, 0x9F, 0xBF], 0), Err(3));
    assert_eq!(decode(&[0xED, 0xA0, 0x80], 0), Err(3));
    assert_eq!(decode(&[0xEF, 0xBF], 0), Err(3));
    assert_eq!(decode(&[0xF0, 0x8F, 0xBF, 0xBF], 0), Err(4));
    assert_eq!(decode(&[0xF4, 0x90, 0x80, 0x80], 0), Err(4));
    assert_eq!(decode(&[0xF8, 0x80, 0x80, 0x80], 0), Err(4));
}

#[test]
fn bytes_are_compared_in_place() {
    assert!(starts_with_at(b"hello", 0, b"he"));
    assert!(starts_with_at(b"hello", 3, b"lo"));
    assert!(starts_with_at(b"hello", 5, b""));
    assert!(!starts_with_at(b"hello", 4, b"lo"));
    assert!(!starts_with_at(b"hello", 0, b"hex"));
    assert_eq!(consume_bom(&[0xEF, 0xBB, 0xBF]), b"");
    assert_eq!(consume_bom(&[0xEF, 0xBB]), &[0xEF, 0xBB]);
    assert_eq!(consume_bom(&[0xEF, 0xBB, 0xBE, 1]), &[0xEF, 0xBB, 0xBE, 1]);
    assert_eq!(consume_bom(b"abc"), b"abc");
}

#[test]
fn texts_are_split_into_lines() {
    let none: Vec<String> = vec![];
    assert_eq!(split_lines(""), none);
    assert_eq!(split_lines("a"), vec!["a"]);
    assert_eq!(split_lines("a\n"), vec!["a"]);
    assert_eq!(split_lines("\n"), vec![""]);
    assert_eq!(split_lines("a\n\nb"), vec!["a", "", "b"]);
    assert_eq!(split_lines("a\r\nb\r"), vec!["a", "b\r"]);
    assert_eq!(split_lines("\r\n\r\n"), vec!["", ""]);
    assert_eq!(split_lines("x\r\r\n"), vec!["x\r"]);
    for text in ["", "a", "a\n", "\n\n", "a\r\nb\r", "ż\n€\r\n\n", "\r", "\r\n", "a\n\rb"] {
        let expected: Vec<String> = text.lines().map(String::from).collect();
        assert_eq!(split_lines(text), expected);
    }
    assert_eq!(strip_underscores("_1__2_"), "12");
    assert_eq!(strip_underscores(""), "");
    assert_eq!(strip_underscores("ż_ż"), "żż");
}

#[test]
fn digits_are_told_by_notation_and_case() {
    for c in ['0', '1', '7', '8', '9', 'a', 'f', 'g', 'A', 'F', 'G', '_', ' ', 'ż'] {
        assert_eq!(is_digit(Notation::Decimal, Case::Any, c), c.is_ascii_digit());
        assert_eq!(is_digit(Notation::Float, Case::Any, c), c.is_ascii_digit());
        assert_eq!(is_digit(Notation::Exponent, Case::Upper, c), c.is_ascii_digit());
        assert_eq!(is_digit(Notation::Hex, Case::Any, c), c.is_ascii_hexdigit());
        assert_eq!(is_digit(Notation::Hex, Case::Upper, c), c.is_ascii_hexdigit() && !c.is_ascii_lowercase());
        assert_eq!(is_digit(Notation::Hex, Case::Lower, c), c.is_ascii_hexdigit() && !c.is_ascii_uppercase());
        assert_eq!(is_digit(Notation::Octal, Case::Any, c), ('0'..='7').contains(&c));
        assert_eq!(is_digit(Notation::Binary, Case::Any, c), c == '0' || c == '1');
    }
}

#[test]
fn digits_are_converted() {
    assert_eq!(parse_decimal::<u8>(Sign::Absent, b"200"), Ok(200));
    assert_eq!(parse_decimal::<u8>(Sign::Plus, b"2_0_0"), Ok(200));
    assert_eq!(parse_decimal::<u8>(Sign::Absent, b""), Ok(0));
    assert_eq!(parse_decimal::<u8>(Sign::Absent, b"300"), Err(NumericalErrorKind::Overflow));
    assert_eq!(parse_decimal::<i8>(Sign::Minus, b"128"), Ok(-128));
    assert_eq!(parse_decimal::<i8>(Sign::Minus, b"130"), Err(NumericalErrorKind::Underflow));
    assert_eq!(parse_hex::<u16>(Sign::Absent, b"fFfF"), Ok(0xFFFF));
    assert_eq!(parse_hex::<i16>(Sign::Minus, b"8000"), Ok(i16::MIN));
    assert_eq!(parse_hex::<u16>(Sign::Absent, b"10000"), Err(NumericalErrorKind::Overflow));
    assert_eq!(parse_octal::<u32>(Sign::Absent, b"777"), Ok(0o777));
    assert_eq!(parse_octal::<i8>(Sign::Minus, b"200"), Ok(-128));
    assert_eq!(parse_octal::<i8>(Sign::Absent, b"200"), Err(NumericalErrorKind::Overflow));
    assert_eq!(parse_binary::<u8>(Sign::Absent, b"1111_1111"), Ok(255));
    assert_eq!(parse_binary::<u8>(Sign::Absent, b"1_0000_0000"), Err(NumericalErrorKind::Overflow));
    assert_eq!(parse_binary::<u8>(Sign::Minus, b"1"), Err(NumericalErrorKind::Underflow));
    assert_eq!(parse_binary::<u8>(Sign::Minus, b"000"), Ok(0));
}

#[test]
fn notations_are_recognised_one_by_one() {
    let np = NumberParser::new();
    let mut r = MemCharReader::new(b"+0x1F;");
    let t = np.parse_hex(Sign::Plus, &mut r).unwrap();
    assert_eq!((t.start().offset, t.end().offset), (0, 5));
    let mut r = MemCharReader::new(b"0o17");
    let t = np.parse_octal(Sign::Absent, &mut r).unwrap();
    assert_eq!(t.term().notation(), Notation::Octal);
    let mut r = MemCharReader::new(b"-0b11");
    let t = np.parse_binary(Sign::Minus, &mut r).unwrap();
    assert_eq!(t.term().sign(), Sign::Minus);
    assert_eq!(r.position().offset, 5);
    let mut r = MemCharReader::new(b"-1.5e3,");
    let t = np.parse_decimal(Sign::Minus, &mut r).unwrap();
    assert_eq!(t.term().notation(), Notation::Exponent);
    assert_eq!(r.position().offset, 6);
    let rules = NotationRules {
        notation: Notation::Hex,
        enabled: true,
        allow_minus: false,
        allow_plus: true,
        allow_underscores: false,
        prefix: "",
        case: Case::Lower,
    };
    let mut r = MemCharReader::new(b"+ff");
    assert!(is_at_start(&rules, &mut r).unwrap());
    let mut r = MemCharReader::new(b"-ff");
    assert!(!is_at_start(&rules, &mut r).unwrap());
    let mut r = MemCharReader::new(b"FF");
    assert!(!is_at_start(&rules, &mut r).unwrap());
    let off = NotationRules { enabled: false, ..np.hex.as_rules() };
    let mut r = MemCharReader::new(b"0x1");
    assert!(!is_at_start(&off, &mut r).unwrap());
    assert!(is_at_start(&np.hex.as_rules(), &mut r).unwrap());
}
