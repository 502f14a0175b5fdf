//! The conversion of recognised number literals to integers.

use vstd::prelude::*;
use vstd::utf8::*;
use vstd::string::StringSliceAdditionalSpecFns;
use crate::io::decode::lemma_ascii_region;
use crate::io::reader::{CharReader, Reader};
use crate::io::{LexToken, Span};
use crate::parse::error::{NumericalErrorKind, ParseErrorDetail};
use crate::parse::num::{is_numeral, is_numeral_byte, is_token, Notation, Number, NumberParser, Sign};
use crate::parse::numerical::{in_range, Numerical};

verus! {

/// The value of a digit: that of `0` to `9`, and 10 to 15 for the letters
/// `a` to `f` in either case.
pub open spec fn digit_value(b: u8) -> int {
    if 0x61 <= b {
        b - 0x61 + 10
    } else if 0x41 <= b {
        b - 0x41 + 10
    } else {
        b - 0x30
    }
}

/// The number that the digits stand for in the radix, underscores among
/// them passed over.
pub open spec fn digits_value(s: Seq<u8>, radix: int) -> int
    decreases s.len(),
{
    if s.len() == 0 {
        0
    } else if s.last() == 0x5F {
        digits_value(s.drop_last(), radix)
    } else {
        digits_value(s.drop_last(), radix) * radix + digit_value(s.last())
    }
}

/// The number that a literal stands for: that of its digits, negated where
/// its sign is a minus.
pub open spec fn literal_value(sign: Sign, s: Seq<u8>, radix: int) -> int {
    if sign is Minus {
        -digits_value(s, radix)
    } else {
        digits_value(s, radix)
    }
}

/// What the conversion of a number to the type `N` yields: the value of
/// the type that stands for the number, or the way in which the number is out
/// of the range of the type.
pub open spec fn is_conversion<N: Numerical>(r: Result<N, NumericalErrorKind>, sign: Sign, v: int) -> bool {
    if in_range::<N>(v) {
        r matches Ok(n) && n.value() == v
    } else {
        r == Err::<N, NumericalErrorKind>(
            if sign is Minus {
                NumericalErrorKind::Underflow
            } else {
                NumericalErrorKind::Overflow
            },
        )
    }
}

/// The digits of a number stand for a number that is not negative and not
/// less than what a part of them from the start stands for.
pub proof fn lemma_digits_monotonic(s: Seq<u8>, k: int, notation: Notation)
    requires
        0 <= k <= s.len(),
        is_numeral(s, 0, s.len() as int, notation),
        notation.is_integer(),
    ensures
        0 <= digits_value(s.subrange(0, k), notation.spec_radix() as int) <= digits_value(
            s,
            notation.spec_radix() as int,
        ),
    decreases s.len(),
{
    let radix = notation.spec_radix() as int;
    if s.len() == 0 {
        assert(s.subrange(0, k) =~= s);
    } else if k == s.len() {
        assert(s.subrange(0, k) =~= s);
        lemma_digits_monotonic(s.drop_last(), 0, notation);
        assert(s.drop_last().subrange(0, 0) =~= Seq::<u8>::empty());
        let v = digits_value(s.drop_last(), radix);
        assert(v * radix >= 0) by (nonlinear_arith)
            requires
                v >= 0,
                radix >= 0,
        ;
    } else {
        lemma_digits_monotonic(s.drop_last(), k, notation);
        assert(s.drop_last().subrange(0, k) =~= s.subrange(0, k));
        let v = digits_value(s.drop_last(), radix);
        assert(v * radix >= v) by (nonlinear_arith)
            requires
                v >= 0,
                radix >= 1,
        ;
    }
}

/// The value of a digit, for a byte that is one.
fn digit_of(d: u8) -> (v: u8)
    requires
        (0x30 <= d <= 0x39) || (0x41 <= d <= 0x46) || (0x61 <= d <= 0x66),
    ensures
        v == digit_value(d),
        v <= 15,
{
    if d >= 0x61 {
        d - 0x61 + 10
    } else if d >= 0x41 {
        d - 0x41 + 10
    } else {
        d - 0x30
    }
}

/// The product of a value by the radix of the notation, if it is in the
/// range of the type.
fn mul_radix<N: Numerical>(notation: Notation, a: N) -> (r: Option<N>)
    requires
        notation.is_integer(),
    ensures
        in_range::<N>(notation.spec_radix() * a.value()) ==> (r matches Some(n) && n.value() == notation.spec_radix()
            * a.value()),
        !in_range::<N>(notation.spec_radix() * a.value()) ==> r is None,
{
    match notation {
        Notation::Hex => N::mul16(a),
        Notation::Octal => N::mul8(a),
        Notation::Binary => N::mul2(a),
        _ => N::mul10(a),
    }
}

/// Converts the digits of a number in the notation: from the left, the
/// value so far is multiplied by the radix and the digit is added to it, or
/// subtracted from it where the sign is a minus, so that the least value of
/// a type is reached without passing through its negation.
fn parse_digits<N: Numerical>(notation: Notation, sign: Sign, s: &[u8]) -> (r: Result<N, NumericalErrorKind>)
    requires
        notation.is_integer(),
        is_numeral(s@, 0, s@.len() as int, notation),
    ensures
        is_conversion(r, sign, literal_value(sign, s@, notation.spec_radix() as int)),
{
    let ghost radix = notation.spec_radix() as int;
    let minus = match sign {
        Sign::Minus => true,
        _ => false,
    };
    let kind = if minus {
        NumericalErrorKind::Underflow
    } else {
        NumericalErrorKind::Overflow
    };
    proof {
        N::lemma_range();
    }
    let mut n: N = N::from_u8(0);
    let mut i: usize = 0;
    proof {
        assert(s@.subrange(0, 0) =~= Seq::<u8>::empty());
    }
    while i < s.len()
        invariant
            i <= s@.len(),
            notation.is_integer(),
            radix == notation.spec_radix(),
            is_numeral(s@, 0, s@.len() as int, notation),
            minus == (sign is Minus),
            kind == if minus {
                NumericalErrorKind::Underflow
            } else {
                NumericalErrorKind::Overflow
            },
            n.value() == literal_value(sign, s@.subrange(0, i as int), radix),
        decreases s@.len() - i,
    {
        let d = s[i];
        let ghost before = s@.subrange(0, i as int);
        let ghost after = s@.subrange(0, i + 1);
        proof {
            assert(after.drop_last() =~= before);
            assert(after.last() == d);
            assert(is_numeral_byte(notation, s@[i as int]));
            lemma_digits_monotonic(s@, i as int, notation);
            lemma_digits_monotonic(s@, i + 1, notation);
            N::lemma_range();
            n.lemma_value();
        }
        if d != 0x5F {
            let ghost v = digits_value(before, radix);
            let ghost dv = digit_value(d);
            proof {
                assert(digits_value(after, radix) == v * radix + dv);
                assert(v * radix == radix * v) by (nonlinear_arith);
                assert((-v) * radix == -(v * radix)) by (nonlinear_arith);
                assert(radix * (-v) == -(v * radix)) by (nonlinear_arith);
                assert(v * radix >= 0) by (nonlinear_arith)
                    requires
                        v >= 0,
                        radix >= 0,
                ;
            }
            let m = match mul_radix(notation, n) {
                Some(m) => m,
                None => {
                    return Err(kind);
                },
            };
            let digit: N = N::from_u8(digit_of(d));
            let next = if minus {
                N::sub(m, digit)
            } else {
                N::add(m, digit)
            };
            match next {
                Some(a) => {
                    n = a;
                },
                None => {
                    return Err(kind);
                },
            }
        }
        i = i + 1;
    }
    proof {
        assert(s@.subrange(0, i as int) =~= s@);
        n.lemma_value();
    }
    Ok(n)
}

/// Converts the digits of a decimal number.
pub fn parse_decimal<N: Numerical>(sign: Sign, s: &[u8]) -> (r: Result<N, NumericalErrorKind>)
    requires
        is_numeral(s@, 0, s@.len() as int, Notation::Decimal),
    ensures
        is_conversion(r, sign, literal_value(sign, s@, 10)),
{
    parse_digits(Notation::Decimal, sign, s)
}

/// Converts the digits of an octal number.
pub fn parse_octal<N: Numerical>(sign: Sign, s: &[u8]) -> (r: Result<N, NumericalErrorKind>)
    requires
        is_numeral(s@, 0, s@.len() as int, Notation::Octal),
    ensures
        is_conversion(r, sign, literal_value(sign, s@, 8)),
{
    parse_digits(Notation::Octal, sign, s)
}

/// Converts the digits of a binary number.
pub fn parse_binary<N: Numerical>(sign: Sign, s: &[u8]) -> (r: Result<N, NumericalErrorKind>)
    requires
        is_numeral(s@, 0, s@.len() as int, Notation::Binary),
    ensures
        is_conversion(r, sign, literal_value(sign, s@, 2)),
{
    parse_digits(Notation::Binary, sign, s)
}

/// Converts the digits of a hexadecimal number.
pub fn parse_hex<N: Numerical>(sign: Sign, s: &[u8]) -> (r: Result<N, NumericalErrorKind>)
    requires
        is_numeral(s@, 0, s@.len() as int, Notation::Hex),
    ensures
        is_conversion(r, sign, literal_value(sign, s@, 16)),
{
    parse_digits(Notation::Hex, sign, s)
}

/// What the conversion of a recognised number to the type `N` yields. A
/// number with a minus sign in a notation with a prefix has no value in a
/// type without negative numbers, whatever its digits are.
pub open spec fn conversion_of<N: Numerical>(
    r: Result<N, NumericalErrorKind>,
    sign: Sign,
    notation: Notation,
    digits: Seq<u8>,
) -> bool {
    if !(notation is Decimal) && sign is Minus && N::min_value() == 0 {
        r == Err::<N, NumericalErrorKind>(NumericalErrorKind::Underflow)
    } else {
        is_conversion(r, sign, literal_value(sign, digits, notation.spec_radix() as int))
    }
}

/// Whether a result is the conversion of a number with the given digits,
/// a failure of which names the span of the number.
pub open spec fn is_converted<N: Numerical>(
    r: Result<N, ParseErrorDetail>,
    span: Span,
    sign: Sign,
    notation: Notation,
    digits: Seq<u8>,
) -> bool {
    match r {
        Ok(n) => conversion_of(Ok::<N, NumericalErrorKind>(n), sign, notation, digits),
        Err(e) => e matches ParseErrorDetail::Numerical { span: s, kind } && s == span && conversion_of(
            Err::<N, NumericalErrorKind>(kind),
            sign,
            notation,
            digits,
        ),
    }
}

/// The text without its underscores.
pub open spec fn without_underscores(s: Seq<char>) -> Seq<char>
    decreases s.len(),
{
    if s.len() == 0 {
        s
    } else if s.last() == '_' {
        without_underscores(s.drop_last())
    } else {
        without_underscores(s.drop_last()).push(s.last())
    }
}

/// The digits of a recognised number: what stands in its span after the
/// sign and the prefix.
pub open spec fn token_digits(data: Seq<u8>, span: Span, sign: Sign, prefix_len: int) -> Seq<u8> {
    data.subrange(span.start.offset + sign.spec_len() + prefix_len, span.end.offset as int)
}

/// The span of a recognised number holds ASCII characters after the prefix,
/// so that what stands there is text.
pub proof fn lemma_token_text(data: Seq<u8>, span: Span, sign: Sign, notation: Notation, prefix_len: int)
    requires
        is_token(data, span, sign, notation, prefix_len),
    ensures
        valid_utf8(token_digits(data, span, sign, prefix_len)),
        prefix_len == 0 ==> valid_utf8(data.subrange(span.start.offset as int, span.end.offset as int)),
{
    let from = span.start.offset + sign.spec_len() + prefix_len;
    assert forall|k: int| from <= k < span.end.offset implies #[trigger] data[k] < 0x80 by {
        assert(is_numeral_byte(notation, data[k]));
    }
    lemma_ascii_region(data, from, span.end.offset as int);
    if prefix_len == 0 {
        assert forall|k: int| span.start.offset <= k < span.end.offset implies #[trigger] data[k] < 0x80 by {
            if k >= from {
                assert(is_numeral_byte(notation, data[k]));
            }
        }
        lemma_ascii_region(data, span.start.offset as int, span.end.offset as int);
    }
}

/// Whether `b` may stand among the digits of a number in the notation.
fn numeral_byte(notation: Notation, b: u8) -> (r: bool)
    ensures
        r == is_numeral_byte(notation, b),
{
    b == 0x5F || match notation {
        Notation::Hex => (0x30 <= b && b <= 0x39) || (0x41 <= b && b <= 0x46) || (0x61 <= b && b <= 0x66),
        Notation::Octal => 0x30 <= b && b <= 0x37,
        Notation::Binary => b == 0x30 || b == 0x31,
        Notation::Decimal => 0x30 <= b && b <= 0x39,
        _ => (0x30 <= b && b <= 0x39) || b == 0x2E || b == 0x65 || b == 0x45 || b == 0x2B || b == 0x2D,
    }
}

/// Whether the span of the buffer holds a number of the sign and the
/// notation as the recogniser yields it, with a prefix of `prefix_len` bytes:
/// what the conversions ask of their arguments.
pub fn holds_token(data: &[u8], span: Span, sign: Sign, notation: Notation, prefix_len: usize) -> (b: bool)
    ensures
        b == is_token(data@, span, sign, notation, prefix_len as int),
{
    let end = span.end.offset;
    if end > data.len() {
        return false;
    }
    let start = span.start.offset;
    let signed = sign.len();
    if start > end || signed > end - start || prefix_len > end - start - signed {
        return false;
    }
    let sign_fits = match sign {
        Sign::Absent => true,
        Sign::Minus => data[start] == 0x2D,
        Sign::Plus => data[start] == 0x2B,
    };
    if !sign_fits {
        return false;
    }
    let from: usize = start + signed + prefix_len;
    let mut k: usize = from;
    while k < end
        invariant
            from <= k <= end <= data@.len(),
            from == span.start.offset + sign.spec_len() + prefix_len,
            end == span.end.offset,
            sign !is Absent ==> data@[span.start.offset as int] == crate::parse::num::sign_byte(sign),
            is_numeral(data@, from as int, k as int, notation),
        decreases end - k,
    {
        if !numeral_byte(notation, data[k]) {
            assert(!is_numeral_byte(notation, data@[k as int]));
            return false;
        }
        k = k + 1;
    }
    true
}

impl NumberParser {
    /// Whether the span of the buffer holds a number of the sign and the
    /// notation as this parser recognises it.
    pub fn holds_token(&self, data: &[u8], span: Span, sign: Sign, notation: Notation) -> (b: bool)
        ensures
            b == is_token(data@, span, sign, notation, self.prefix_len(notation)),
    {
        let prefix: usize = match notation {
            Notation::Hex => self.hex.prefix.as_str().as_bytes().len(),
            Notation::Octal => self.octal.prefix.as_str().as_bytes().len(),
            Notation::Binary => self.binary.prefix.as_str().as_bytes().len(),
            _ => 0,
        };
        holds_token(data, span, sign, notation, prefix)
    }

    /// Converts a token that `parse_number` has recognised on the buffer of
    /// the reader to the integer type `N`.
    pub fn convert_number_token<N: Numerical, R: CharReader>(&self, n: &LexToken<Number>, r: &mut R) -> (res:
        Result<N, ParseErrorDetail>)
        requires
            old(r).wf(),
            n.spec_term().spec_notation().is_integer(),
            is_token(
                old(r).data(),
                n.spec_span(),
                n.spec_term().spec_sign(),
                n.spec_term().spec_notation(),
                self.prefix_len(n.spec_term().spec_notation()),
            ),
        ensures
            *final(r) == *old(r),
            is_converted(
                res,
                n.spec_span(),
                n.spec_term().spec_sign(),
                n.spec_term().spec_notation(),
                token_digits(
                    old(r).data(),
                    n.spec_span(),
                    n.spec_term().spec_sign(),
                    self.prefix_len(n.spec_term().spec_notation()),
                ),
            ),
    {
        self.convert_number(n.span(), n.term().sign(), n.term().notation(), r)
    }

    /// Converts the number of the given sign and notation that stands in
    /// the span of the buffer of the reader to the integer type `N`: to the
    /// value that the digits stand for in the radix of the notation, or to
    /// the failure that tells in which way that value is out of the range of
    /// the type.
    pub fn convert_number<N: Numerical, R: CharReader>(
        &self,
        span: Span,
        sign: Sign,
        notation: Notation,
        r: &mut R,
    ) -> (res: Result<N, ParseErrorDetail>)
        requires
            old(r).wf(),
            notation.is_integer(),
            is_token(old(r).data(), span, sign, notation, self.prefix_len(notation)),
        ensures
            *final(r) == *old(r),
            is_converted(
                res,
                span,
                sign,
                notation,
                token_digits(old(r).data(), span, sign, self.prefix_len(notation)),
            ),
    {
        let prefix: usize = match notation {
            Notation::Hex => self.hex.prefix.as_str().as_bytes().len(),
            Notation::Octal => self.octal.prefix.as_str().as_bytes().len(),
            Notation::Binary => self.binary.prefix.as_str().as_bytes().len(),
            _ => 0,
        };
        proof {
            r.lemma_wf();
            lemma_token_text(r.data(), span, sign, notation, self.prefix_len(notation));
            N::lemma_range();
        }
        let unsigned = match N::sub(N::from_u8(0), N::from_u8(1)) {
            None => true,
            Some(_) => false,
        };
        let minus = match sign {
            Sign::Minus => true,
            _ => false,
        };
        let decimal = match notation {
            Notation::Decimal => true,
            _ => false,
        };
        if !decimal && minus && unsigned {
            return Err(ParseErrorDetail::Numerical { span, kind: NumericalErrorKind::Underflow });
        }
        let text = match r.slice(span.start.offset + sign.len() + prefix, span.end.offset) {
            Ok(text) => text,
            Err(e) => {
                return Err(ParseErrorDetail::Io(e));
            },
        };
        let digits = text.as_bytes();
        let converted = match notation {
            Notation::Hex => parse_hex(sign, digits),
            Notation::Octal => parse_octal(sign, digits),
            Notation::Binary => parse_binary(sign, digits),
            _ => parse_decimal(sign, digits),
        };
        match converted {
            Ok(n) => Ok(n),
            Err(kind) => Err(ParseErrorDetail::Numerical { span, kind }),
        }
    }

    /// The text of a number with a fraction or an exponent as a parser of
    /// floating-point numbers takes it: what stands in the span, without the
    /// underscores where the rules of decimal numbers allow them.
    pub fn float_text<R: CharReader>(&self, span: Span, sign: Sign, notation: Notation, r: &mut R) -> (res: Result<
        String,
        ParseErrorDetail,
    >)
        requires
            old(r).wf(),
            is_token(old(r).data(), span, sign, notation, 0),
        ensures
            *final(r) == *old(r),
            res matches Ok(t) && t@ == if self.decimal.allow_underscores {
                without_underscores(
                    decode_utf8(old(r).data().subrange(span.start.offset as int, span.end.offset as int)),
                )
            } else {
                decode_utf8(old(r).data().subrange(span.start.offset as int, span.end.offset as int))
            },
    {
        proof {
            r.lemma_wf();
            lemma_token_text(r.data(), span, sign, notation, 0);
        }
        let text = match r.slice(span.start.offset, span.end.offset) {
            Ok(text) => text,
            Err(e) => {
                return Err(ParseErrorDetail::Io(e));
            },
        };
        if self.decimal.allow_underscores {
            Ok(strip_underscores(text))
        } else {
            Ok(text.to_owned())
        }
    }
}

/// The text without its underscores.
pub fn strip_underscores(text: &str) -> (out: String)
    ensures
        out@ == without_underscores(text@),
{
    let mut out = String::new();
    let ghost mut seen: Seq<char> = Seq::empty();
    for c in it: text.chars()
        invariant
            it.seq() == text@,
            seen == text@.subrange(0, it.index() as int),
            out@ == without_underscores(seen),
    {
        proof {
            let next = text@.subrange(0, it.index() + 1);
            assert(next.drop_last() =~= seen);
            assert(next.last() == c);
            seen = next;
        }
        if c != '_' {
            out.push(c);
        }
    }
    assert(seen =~= text@);
    out
}

} // verus!
