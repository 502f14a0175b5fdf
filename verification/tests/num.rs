use kg_diag::io::{Position, Span};
use kg_diag::parse::{
    Case, Expected, Input, Notation, Number, NumberParser, NumericalErrorKind, ParseErrorDetail, Sign,
};
use kg_diag::{CharReader, LexToken, MemCharReader, Reader};

fn float_of(np: &NumberParser, n: &LexToken<Number>, r: &mut MemCharReader) -> f64 {
    let text = np.float_text(n.span(), n.term().sign(), n.term().notation(), r).unwrap();
    text.parse::<f64>().unwrap()
}

fn single_of(np: &NumberParser, n: &LexToken<Number>, r: &mut MemCharReader) -> f32 {
    let text = np.float_text(n.span(), n.term().sign(), n.term().notation(), r).unwrap();
    text.parse::<f32>().unwrap()
}

fn parse(input: &str) -> Result<LexToken<Number>, ParseErrorDetail> {
    let np = NumberParser::new();
    let mut r = MemCharReader::new(input.as_bytes());
    np.parse_number(&mut r)
}

fn convert<N: kg_diag::parse::Numerical>(input: &str) -> Result<N, ParseErrorDetail> {
    let np = NumberParser::new();
    let mut r = MemCharReader::new(input.as_bytes());
    let n = np.parse_number(&mut r).unwrap();
    np.convert_number_token::<N, _>(&n, &mut r)
}

fn kind_of<N: std::fmt::Debug>(r: Result<N, ParseErrorDetail>) -> (Span, NumericalErrorKind) {
    match r {
        Err(ParseErrorDetail::Numerical { span, kind }) => (span, kind),
        other => panic!("wrong result: {:?}", other),
    }
}

#[test]
fn can_parse_exponent() {
    let np = NumberParser::new();
    let mut r = MemCharReader::new(b"-123456.8e-3");
    let n = np.parse_number(&mut r).unwrap();
    assert_eq!(n.term().sign(), Sign::Minus);
    assert_eq!(n.term().notation(), Notation::Exponent);
    assert_eq!(float_of(&np, &n, &mut r) as i32, -123);
    assert_eq!(single_of(&np, &n, &mut r), -123.4568f32);
    assert_eq!(float_of(&np, &n, &mut r), -123.4568f64);
}

#[test]
fn can_parse_decimal() {
    let np = NumberParser::new();
    let mut r = MemCharReader::new(b"-123456");
    let n = np.parse_number(&mut r).unwrap();
    assert_eq!(n.term().sign(), Sign::Minus);
    assert_eq!(n.term().notation(), Notation::Decimal);
    assert_eq!(np.convert_number_token::<i32, _>(&n, &mut r).unwrap(), -123456);
    assert_eq!(single_of(&np, &n, &mut r), -123456f32);
    assert_eq!(float_of(&np, &n, &mut r), -123456f64);
}

#[test]
fn num_can_parse_decimal() {
    let mut np = NumberParser::new();

    np.decimal.enabled = true;
    np.decimal.allow_minus = true;
    np.decimal.allow_plus = true;
    np.decimal.allow_underscores = true;
    np.decimal.allow_float = true;
    np.decimal.allow_exponent = true;

    np.octal.enabled = true;

    let mut r = MemCharReader::new(b"0e-9");

    match np.parse_number(&mut r) {
        Ok(n) => {
            println!("{} {:?}", n.term().to_string(), r.slice_pos(n.start(), n.end()).unwrap());
            assert_eq!(n.term().to_string(), "e");
            assert_eq!(r.slice_pos(n.start(), n.end()).unwrap(), "0e-9");
        }
        Err(err) => panic!("{:?}", err),
    }
}

#[test]
fn can_parse_decimal_ending_with_dot() {
    let np = NumberParser::new();
    let mut r = MemCharReader::new(b"123456..");
    let n = np.parse_number(&mut r).unwrap();
    assert_eq!(n.term().sign(), Sign::Absent);
    assert_eq!(n.term().notation(), Notation::Decimal);
    assert_eq!(n.start().offset, 0);
    assert_eq!(n.start().column, 0);
    assert_eq!(n.end().offset, 6);
    assert_eq!(n.end().column, 6);
    assert_eq!(np.convert_number_token::<i32, _>(&n, &mut r).unwrap(), 123456);
    assert_eq!(r.position(), Position::with(6, 0, 6));
    assert_eq!(r.peek_char(0).unwrap(), Some('.'));
}

#[test]
fn can_parse_float() {
    let np = NumberParser::new();
    let mut r = MemCharReader::new(b"123.456");
    let n = np.parse_number(&mut r).unwrap();
    assert_eq!(n.term().sign(), Sign::Absent);
    assert_eq!(n.term().notation(), Notation::Float);
    assert_eq!(float_of(&np, &n, &mut r) as i32, 123);
    assert_eq!(single_of(&np, &n, &mut r), 123.456f32);
    assert_eq!(float_of(&np, &n, &mut r), 123.456f64);
}

#[test]
fn can_parse_hex() {
    let np = NumberParser::new();
    let mut r = MemCharReader::new(b"0xaaff");
    let n = np.parse_number(&mut r).unwrap();
    assert_eq!(n.term().sign(), Sign::Absent);
    assert_eq!(n.term().notation(), Notation::Hex);
    assert_eq!(np.convert_number_token::<i32, _>(&n, &mut r).unwrap(), 0xAAFF);
    assert_eq!(np.convert_number_token::<i32, _>(&n, &mut r).unwrap() as f32, 0xAAFF as f32);
    assert_eq!(np.convert_number_token::<i64, _>(&n, &mut r).unwrap() as f64, 0xAAFF as f64);
}

#[test]
fn can_parse_octal() {
    let np = NumberParser::new();
    let mut r = MemCharReader::new(b"0o777");
    let n = np.parse_number(&mut r).unwrap();
    assert_eq!(n.term().sign(), Sign::Absent);
    assert_eq!(n.term().notation(), Notation::Octal);
    assert_eq!(np.convert_number_token::<i32, _>(&n, &mut r).unwrap(), 0o777);
    assert_eq!(np.convert_number_token::<i32, _>(&n, &mut r).unwrap() as f32, 0o777 as f32);
    assert_eq!(np.convert_number_token::<i64, _>(&n, &mut r).unwrap() as f64, 0o777 as f64);
}

#[test]
fn can_parse_binary() {
    let np = NumberParser::new();
    let mut r = MemCharReader::new(b"0b10010011");
    let n = np.parse_number(&mut r).unwrap();
    assert_eq!(n.term().sign(), Sign::Absent);
    assert_eq!(n.term().notation(), Notation::Binary);
    assert_eq!(np.convert_number_token::<i32, _>(&n, &mut r).unwrap(), 0b10010011);
    assert_eq!(np.convert_number_token::<i32, _>(&n, &mut r).unwrap() as f32, 0b10010011 as f32);
    assert_eq!(np.convert_number_token::<i64, _>(&n, &mut r).unwrap() as f64, 0b10010011 as f64);
}

#[test]
fn hex_with_minus() {
    let np = NumberParser::new();
    let mut r = MemCharReader::new(b"-0xAAFF");
    let n = np.parse_number(&mut r).unwrap();
    assert_eq!(n.term().sign(), Sign::Minus);
    assert_eq!(n.term().notation(), Notation::Hex);
    assert_eq!(n.span(), Span::with(0, 0, 0, 7, 0, 7));
    assert_eq!(np.convert_number_token::<i32, _>(&n, &mut r).unwrap(), -0xAAFF);
    let (span, kind) = kind_of(np.convert_number_token::<u32, _>(&n, &mut r));
    assert_eq!(span, n.span());
    assert_eq!(kind, NumericalErrorKind::Underflow);
}

#[test]
fn empty_number_with_sign() {
    match parse("- ") {
        Err(ParseErrorDetail::UnexpectedInput { pos, found, expected, task }) => {
            assert_eq!(pos, Position::with(1, 0, 1));
            assert_eq!(found, Some(Input::Char(' ')));
            assert_eq!(
                expected,
                Some(Expected::one_of(vec![
                    Expected::Char('-'),
                    Expected::Char('+'),
                    Expected::CharRange('0', '9')
                ]))
            );
            assert_eq!(
                expected,
                Some(Expected::OneOf(vec![
                    Expected::Char('+'),
                    Expected::Char('-'),
                    Expected::CharRange('0', '9')
                ]))
            );
            assert_eq!(task, "parsing a decimal number literal");
        }
        other => panic!("wrong result: {:?}", other),
    }
}

#[test]
fn sign_at_the_end_of_the_input() {
    match parse("+") {
        Err(ParseErrorDetail::UnexpectedEof { pos, expected, task }) => {
            assert_eq!(pos, Position::with(1, 0, 1));
            assert!(expected.is_some());
            assert_eq!(task, "parsing a decimal number literal");
        }
        other => panic!("wrong result: {:?}", other),
    }
}

#[test]
fn nothing_to_parse() {
    match parse("") {
        Err(ParseErrorDetail::UnexpectedEof { pos, expected, task }) => {
            assert_eq!(pos, Position::new());
            assert_eq!(expected, None);
            assert_eq!(task, "parsing a number literal");
        }
        other => panic!("wrong result: {:?}", other),
    }
    match parse("x1") {
        Err(ParseErrorDetail::UnexpectedInput { pos, found, expected, task }) => {
            assert_eq!(pos, Position::new());
            assert_eq!(found, Some(Input::Char('x')));
            assert_eq!(expected, None);
            assert_eq!(task, "parsing a number literal");
        }
        other => panic!("wrong result: {:?}", other),
    }
}

#[test]
fn malformed_input_is_an_error_of_the_reader() {
    let np = NumberParser::new();
    let bytes: &[u8] = &[b'1', b'2', 0xFF];
    let mut r = MemCharReader::new(bytes);
    match np.parse_number(&mut r) {
        Err(ParseErrorDetail::Io(kg_diag::IoErrorDetail::Utf8InvalidEncoding { pos, len })) => {
            assert_eq!(pos.offset, 2);
            assert_eq!(len, 4);
        }
        other => panic!("wrong result: {:?}", other),
    }
}

#[test]
fn underscores_group_digits() {
    let n = parse("1_000_000;").unwrap();
    assert_eq!(n.term().notation(), Notation::Decimal);
    assert_eq!(n.end().offset, 9);
    assert_eq!(convert::<u32>("1_000_000").unwrap(), 1_000_000);
    assert_eq!(convert::<u32>("0xFF_FF").unwrap(), 0xFFFF);
    assert_eq!(convert::<u8>("0b1111_0000").unwrap(), 0xF0);
    assert_eq!(convert::<u16>("0o7_7").unwrap(), 0o77);
}

#[test]
fn underscore_does_not_begin_a_number() {
    assert!(parse("_1").is_err());
    match parse("-_1") {
        Err(ParseErrorDetail::UnexpectedInput { pos, found, .. }) => {
            assert_eq!(pos.offset, 1);
            assert_eq!(found, Some(Input::Char('_')));
        }
        other => panic!("wrong result: {:?}", other),
    }
    match parse("0x_1") {
        Err(ParseErrorDetail::UnexpectedInput { pos, found, expected, task }) => {
            assert_eq!(pos.offset, 2);
            assert_eq!(found, Some(Input::Char('_')));
            assert_eq!(
                expected,
                Some(Expected::OneOf(vec![
                    Expected::CharRange('0', '9'),
                    Expected::CharRange('A', 'F'),
                    Expected::CharRange('a', 'f')
                ]))
            );
            assert_eq!(task, "parsing a hexadecimal number literal");
        }
        other => panic!("wrong result: {:?}", other),
    }
    match parse("0o") {
        Err(ParseErrorDetail::UnexpectedEof { pos, expected, task }) => {
            assert_eq!(pos.offset, 2);
            assert_eq!(expected, Some(Expected::CharRange('0', '7')));
            assert_eq!(task, "parsing an octal number literal");
        }
        other => panic!("wrong result: {:?}", other),
    }
    match parse("0b2") {
        Err(ParseErrorDetail::UnexpectedInput { pos, found, expected, task }) => {
            assert_eq!(pos.offset, 2);
            assert_eq!(found, Some(Input::Char('2')));
            assert_eq!(expected, Some(Expected::CharRange('0', '1')));
            assert_eq!(task, "parsing a binary number literal");
        }
        other => panic!("wrong result: {:?}", other),
    }
}

#[test]
fn underscores_after_a_digit_are_passed_over_in_decimal_numbers() {
    let n = parse("1__2_").unwrap();
    assert_eq!(n.end().offset, 5);
    assert_eq!(convert::<i32>("1__2_").unwrap(), 12);
}

fn hex_expected() -> Option<Expected> {
    Some(Expected::OneOf(vec![
        Expected::CharRange('0', '9'),
        Expected::CharRange('A', 'F'),
        Expected::CharRange('a', 'f'),
    ]))
}

#[test]
fn underscore_needs_a_digit_after_it_in_prefixed_numbers() {
    match parse("0xFF_") {
        Err(ParseErrorDetail::UnexpectedEof { pos, expected, task }) => {
            assert_eq!(pos, Position::with(5, 0, 5));
            assert_eq!(expected, hex_expected());
            assert_eq!(task, "parsing a hexadecimal number literal");
        }
        other => panic!("wrong result: {:?}", other),
    }
    match parse("0xF__F") {
        Err(ParseErrorDetail::UnexpectedInput { pos, found, expected, task }) => {
            assert_eq!(pos, Position::with(4, 0, 4));
            assert_eq!(found, Some(Input::Char('_')));
            assert_eq!(expected, hex_expected());
            assert_eq!(task, "parsing a hexadecimal number literal");
        }
        other => panic!("wrong result: {:?}", other),
    }
    match parse("0x1__2_") {
        Err(ParseErrorDetail::UnexpectedInput { pos, found, .. }) => {
            assert_eq!(pos.offset, 4);
            assert_eq!(found, Some(Input::Char('_')));
        }
        other => panic!("wrong result: {:?}", other),
    }
    match parse("0b1_;") {
        Err(ParseErrorDetail::UnexpectedInput { pos, found, expected, task }) => {
            assert_eq!(pos.offset, 4);
            assert_eq!(found, Some(Input::Char(';')));
            assert_eq!(expected, Some(Expected::CharRange('0', '1')));
            assert_eq!(task, "parsing a binary number literal");
        }
        other => panic!("wrong result: {:?}", other),
    }
    match parse("-0o7_8") {
        Err(ParseErrorDetail::UnexpectedInput { pos, found, expected, .. }) => {
            assert_eq!(pos.offset, 5);
            assert_eq!(found, Some(Input::Char('8')));
            assert_eq!(expected, Some(Expected::CharRange('0', '7')));
        }
        other => panic!("wrong result: {:?}", other),
    }
    let np = NumberParser::new();
    let bytes: &[u8] = &[b'0', b'x', b'1', b'_', 0xFF];
    let mut r = MemCharReader::new(bytes);
    match np.parse_number(&mut r) {
        Err(ParseErrorDetail::Io(kg_diag::IoErrorDetail::Utf8InvalidEncoding { pos, .. })) => {
            assert_eq!(pos.offset, 4);
        }
        other => panic!("wrong result: {:?}", other),
    }
    let mut r = MemCharReader::new(b"0xF_");
    assert!(np.parse_number(&mut r).is_err());
    assert_eq!(r.position().offset, 4);
}

#[test]
fn underscores_between_digits_are_passed_over_in_prefixed_numbers() {
    let n = parse("0xF_F_0;").unwrap();
    assert_eq!(n.end().offset, 7);
    assert_eq!(convert::<u16>("0xF_F_0").unwrap(), 0xFF0);
    assert_eq!(convert::<u8>("0b1_0_1").unwrap(), 5);
    assert_eq!(convert::<i16>("-0o1_7").unwrap(), -15);
    let mut np = NumberParser::new();
    np.hex.allow_underscores = false;
    let mut r = MemCharReader::new(b"0xFF_");
    let n = np.parse_number(&mut r).unwrap();
    assert_eq!(n.end().offset, 4);
    assert_eq!(r.peek_char(0).unwrap(), Some('_'));
    let mut r = MemCharReader::new(b"0xF_F");
    assert_eq!(np.parse_number(&mut r).unwrap().end().offset, 3);
}

#[test]
fn tokens_are_checked_against_the_buffer() {
    let np = NumberParser::new();
    let data = b"x = -0x1F_0;";
    let mut r = MemCharReader::new(data);
    r.skip_chars(5).unwrap();
    let n = np.parse_number(&mut r).unwrap();
    assert_eq!(n.span(), Span::with(4, 0, 4, 11, 0, 11));
    assert!(np.holds_token(data, n.span(), Sign::Minus, Notation::Hex));
    assert!(!np.holds_token(data, n.span(), Sign::Plus, Notation::Hex));
    assert!(!np.holds_token(data, n.span(), Sign::Minus, Notation::Octal));
    assert!(!np.holds_token(data, n.span(), Sign::Absent, Notation::Hex));
    assert!(!np.holds_token(data, Span::with(4, 0, 4, 12, 0, 12), Sign::Minus, Notation::Hex));
    assert!(!np.holds_token(data, Span::with(4, 0, 4, 13, 0, 13), Sign::Minus, Notation::Hex));
    assert!(!np.holds_token(data, Span::with(4, 0, 4, 6, 0, 6), Sign::Minus, Notation::Hex));
    assert!(np.holds_token(data, Span::with(4, 0, 4, 7, 0, 7), Sign::Minus, Notation::Hex));
    assert!(np.holds_token(b"1.5e-3", Span::with(0, 0, 0, 6, 0, 6), Sign::Absent, Notation::Exponent));
    assert!(!np.holds_token(b"1.5e-3", Span::with(0, 0, 0, 6, 0, 6), Sign::Absent, Notation::Decimal));
    assert!(!np.holds_token(b"12", Span::with(2, 0, 2, 1, 0, 1), Sign::Absent, Notation::Decimal));
    assert!(np.holds_token(b"12", Span::with(2, 0, 2, 2, 0, 2), Sign::Absent, Notation::Decimal));
}

#[test]
fn exponent_needs_digits() {
    match parse("1e") {
        Err(ParseErrorDetail::UnexpectedEof { pos, expected, task }) => {
            assert_eq!(pos.offset, 2);
            assert_eq!(
                expected,
                Some(Expected::one_of(vec![
                    Expected::CharRange('0', '9'),
                    Expected::Char('_'),
                    Expected::Char('-'),
                    Expected::Char('+')
                ]))
            );
            assert_eq!(task, "parsing a decimal number literal");
        }
        other => panic!("wrong result: {:?}", other),
    }
    match parse("1e+x") {
        Err(ParseErrorDetail::UnexpectedInput { pos, found, expected, .. }) => {
            assert_eq!(pos.offset, 3);
            assert_eq!(found, Some(Input::Char('x')));
            assert_eq!(
                expected,
                Some(Expected::one_of(vec![Expected::CharRange('0', '9'), Expected::Char('_')]))
            );
        }
        other => panic!("wrong result: {:?}", other),
    }
    let n = parse("1E+5").unwrap();
    assert_eq!(n.term().notation(), Notation::Exponent);
    let n = parse("1.5e2e3").unwrap();
    assert_eq!(n.term().notation(), Notation::Exponent);
    assert_eq!(n.end().offset, 5);
    let n = parse("1.5.2").unwrap();
    assert_eq!(n.term().notation(), Notation::Float);
    assert_eq!(n.end().offset, 3);
}

#[test]
fn rules_can_be_changed() {
    let mut np = NumberParser::new();
    np.decimal.allow_float = false;
    np.decimal.allow_exponent = false;
    np.decimal.allow_underscores = false;
    np.decimal.allow_minus = false;
    np.hex.prefix = "#".to_string();
    np.hex.case = Case::Upper;
    np.octal.enabled = false;
    np.binary.allow_plus = false;

    let mut r = MemCharReader::new(b"1.5");
    let n = np.parse_number(&mut r).unwrap();
    assert_eq!(n.term().notation(), Notation::Decimal);
    assert_eq!(n.end().offset, 1);

    let mut r = MemCharReader::new(b"1e5");
    assert_eq!(np.parse_number(&mut r).unwrap().end().offset, 1);

    let mut r = MemCharReader::new(b"1_5");
    assert_eq!(np.parse_number(&mut r).unwrap().end().offset, 1);

    let mut r = MemCharReader::new(b"-5");
    match np.parse_number(&mut r) {
        Err(ParseErrorDetail::UnexpectedInput { pos, found, expected, task }) => {
            assert_eq!(pos.offset, 0);
            assert_eq!(found, Some(Input::Char('-')));
            assert_eq!(expected, None);
            assert_eq!(task, "parsing a number literal");
        }
        other => panic!("wrong result: {:?}", other),
    }

    let mut r = MemCharReader::new(b"#AFfe");
    let n = np.parse_number(&mut r).unwrap();
    assert_eq!(n.term().notation(), Notation::Hex);
    assert_eq!(n.end().offset, 3);
    assert_eq!(np.convert_number_token::<u8, _>(&n, &mut r).unwrap(), 0xAF);

    let mut r = MemCharReader::new(b"0o17");
    let n = np.parse_number(&mut r).unwrap();
    assert_eq!(n.term().notation(), Notation::Decimal);
    assert_eq!(n.end().offset, 1);

    let mut r = MemCharReader::new(b"+0b1");
    let n = np.parse_number(&mut r).unwrap();
    assert_eq!(n.term().notation(), Notation::Decimal);
    assert_eq!(n.span(), Span::with(0, 0, 0, 2, 0, 2));

    let mut r = MemCharReader::new(b"-0b101");
    let n = np.parse_number(&mut r).unwrap();
    assert_eq!(n.term().notation(), Notation::Binary);
    assert_eq!(np.convert_number_token::<i8, _>(&n, &mut r).unwrap(), -5);
}

#[test]
fn is_at_start_looks_past_the_sign() {
    let np = NumberParser::new();
    let mut r = MemCharReader::new(b"-0x1");
    assert!(np.is_at_start(&mut r).unwrap());
    assert!(np.hex.is_at_start(&mut r).unwrap());
    assert!(!np.octal.is_at_start(&mut r).unwrap());
    assert!(!np.binary.is_at_start(&mut r).unwrap());
    assert!(np.decimal.is_at_start(&mut r).unwrap());
    assert_eq!(r.position(), Position::new());
    let mut r = MemCharReader::new(b"- ");
    assert!(np.is_at_start(&mut r).unwrap());
    assert!(!np.hex.is_at_start(&mut r).unwrap());
    let mut r = MemCharReader::new(b"abc");
    assert!(!np.is_at_start(&mut r).unwrap());
    let mut r = MemCharReader::new(b"");
    assert!(!np.is_at_start(&mut r).unwrap());
    assert!(np.hex.is_digit('f') && np.hex.is_digit('F') && !np.hex.is_digit('g'));
    assert!(np.octal.is_digit('7') && !np.octal.is_digit('8'));
    assert!(np.binary.is_digit('1') && !np.binary.is_digit('2'));
    assert!(np.decimal.is_digit('9') && !np.decimal.is_digit('a'));
}

#[test]
fn conversion_is_exact_at_the_ends_of_the_range() {
    assert_eq!(convert::<i8>("-128").unwrap(), i8::MIN);
    assert_eq!(convert::<i8>("127").unwrap(), i8::MAX);
    assert_eq!(kind_of(convert::<i8>("128")).1, NumericalErrorKind::Overflow);
    assert_eq!(kind_of(convert::<i8>("-129")).1, NumericalErrorKind::Underflow);
    assert_eq!(kind_of(convert::<i8>("+1000")).1, NumericalErrorKind::Overflow);
    assert_eq!(convert::<u8>("255").unwrap(), u8::MAX);
    assert_eq!(kind_of(convert::<u8>("256")).1, NumericalErrorKind::Overflow);
    assert_eq!(convert::<u8>("-0").unwrap(), 0);
    assert_eq!(kind_of(convert::<u8>("-1")).1, NumericalErrorKind::Underflow);
    assert_eq!(convert::<i16>("-0x8000").unwrap(), i16::MIN);
    assert_eq!(kind_of(convert::<i16>("0x8000")).1, NumericalErrorKind::Overflow);
    assert_eq!(convert::<i32>("-2147483648").unwrap(), i32::MIN);
    assert_eq!(convert::<i32>("-0b10000000000000000000000000000000").unwrap(), i32::MIN);
    assert_eq!(convert::<i64>("-0o1000000000000000000000").unwrap(), i64::MIN);
    assert_eq!(convert::<u64>("18446744073709551615").unwrap(), u64::MAX);
    assert_eq!(kind_of(convert::<u64>("18446744073709551616")).1, NumericalErrorKind::Overflow);
    assert_eq!(convert::<i128>("-170141183460469231731687303715884105728").unwrap(), i128::MIN);
    assert_eq!(convert::<u128>("0xFFFFFFFFFFFFFFFFFFFFFFFFFFFFFFFF").unwrap(), u128::MAX);
    assert_eq!(kind_of(convert::<u128>("0x100000000000000000000000000000000")).1, NumericalErrorKind::Overflow);
    assert_eq!(convert::<usize>("+42").unwrap(), 42usize);
    assert_eq!(convert::<isize>("-42").unwrap(), -42isize);
    assert_eq!(convert::<u16>("000000000000000000000000065535").unwrap(), u16::MAX);
}

#[test]
fn minus_with_a_prefix_has_no_unsigned_value() {
    assert_eq!(kind_of(convert::<u32>("-0x0")).1, NumericalErrorKind::Underflow);
    assert_eq!(kind_of(convert::<u8>("-0b0")).1, NumericalErrorKind::Underflow);
    assert_eq!(kind_of(convert::<usize>("-0o0")).1, NumericalErrorKind::Underflow);
    assert_eq!(convert::<i32>("-0x0").unwrap(), 0);
}

#[test]
fn float_text_drops_underscores() {
    let mut np = NumberParser::new();
    let mut r = MemCharReader::new(b"1_0.2_5e1_0");
    let n = np.parse_number(&mut r).unwrap();
    assert_eq!(n.term().notation(), Notation::Exponent);
    let text = np.float_text(n.span(), n.term().sign(), n.term().notation(), &mut r).unwrap();
    assert_eq!(text, "10.25e10");
    np.decimal.allow_underscores = false;
    let mut r = MemCharReader::new(b"+10.25");
    let n = np.parse_number(&mut r).unwrap();
    let text = np.float_text(n.span(), n.term().sign(), n.term().notation(), &mut r).unwrap();
    assert_eq!(text, "+10.25");
}

#[test]
fn number_terminals() {
    assert_eq!(Notation::Decimal.radix(), 10);
    assert_eq!(Notation::Float.radix(), 10);
    assert_eq!(Notation::Exponent.radix(), 10);
    assert_eq!(Notation::Hex.radix(), 16);
    assert_eq!(Notation::Octal.radix(), 8);
    assert_eq!(Notation::Binary.radix(), 2);
    assert_eq!(Sign::Absent.len(), 0);
    assert_eq!(Sign::Minus.len(), 1);
    assert_eq!(Sign::Plus.len(), 1);
    let n = Number::new(Sign::Minus, Notation::Hex);
    assert_eq!(n.sign(), Sign::Minus);
    assert_eq!(n.notation(), Notation::Hex);
    assert_eq!(n.to_string(), "-x");
    assert_eq!(Number::new(Sign::Plus, Notation::Binary).to_string(), "+b");
    assert_eq!(Number::new(Sign::Absent, Notation::Octal).to_string(), "o");
    let t = Number::token(Span::with(1, 0, 1, 4, 0, 4), Sign::Plus, Notation::Float);
    assert_eq!(t.term(), Number::new(Sign::Plus, Notation::Float));
    assert_eq!(t.start(), Position::with(1, 0, 1));
    assert_eq!(t.end(), Position::with(4, 0, 4));
    let d = LexToken::new(n, Position::new(), Position::with(2, 0, 2));
    assert_eq!(d.span(), Span::with_pos(Position::new(), Position::with(2, 0, 2)));
}

#[test]
fn number_in_the_middle_of_a_line() {
    let np = NumberParser::new();
    let mut r = MemCharReader::new("a\nbc -42;".as_bytes());
    r.skip_chars(6).unwrap();
    let n = np.parse_number(&mut r).unwrap();
    assert_eq!(n.span(), Span::with(5, 1, 3, 8, 1, 6));
    assert_eq!(np.convert_number::<i64, _>(n.span(), Sign::Minus, Notation::Decimal, &mut r).unwrap(), -42);
    assert_eq!(r.peek_char(0).unwrap(), Some(';'));
}
