//! The recogniser of numeric literals.

use vstd::prelude::*;
use vstd::utf8::*;
use vstd::string::StringSliceAdditionalSpecFns;
use crate::io::decode::{
    advance, decode_at, lemma_advance_valid, lemma_ascii_scalar, lemma_position_of, lemma_region_first,
    lemma_scalar_shape, position_after, position_of, valid_position, Decoded,
};
use crate::io::error::{Expected, Input, IoErrorDetail};
use crate::io::reader::{bytes_at, read_at, skip_outcome, CharReader, IoResult, Reader};
use crate::io::{LexTerm, LexToken, Position, Span};
use crate::parse::error::ParseErrorDetail;
use crate::parse::ParseResult;

verus! {

/// The way in which a number is written.
#[derive(Debug, Clone, Copy, PartialEq, Eq, Structural)]
pub enum Notation {
    Decimal,
    Float,
    Exponent,
    Octal,
    Hex,
    Binary,
}

impl Notation {
    pub open spec fn spec_radix(self) -> u32 {
        match self {
            Notation::Decimal | Notation::Float | Notation::Exponent => 10,
            Notation::Hex => 16,
            Notation::Octal => 8,
            Notation::Binary => 2,
        }
    }

    /// The letter that stands for the notation in the text of a number token.
    pub open spec fn spec_letter(self) -> char {
        match self {
            Notation::Decimal => 'd',
            Notation::Float => 'f',
            Notation::Exponent => 'e',
            Notation::Octal => 'o',
            Notation::Hex => 'x',
            Notation::Binary => 'b',
        }
    }

    /// True of the notations that write a whole number in some radix.
    pub open spec fn is_integer(self) -> bool {
        !(self is Float || self is Exponent)
    }

    pub fn radix(&self) -> (r: u32)
        ensures
            r == self.spec_radix(),
    {
        match *self {
            Notation::Decimal | Notation::Float | Notation::Exponent => 10,
            Notation::Hex => 16,
            Notation::Octal => 8,
            Notation::Binary => 2,
        }
    }

    /// The letter that stands for the notation in the text of a number token.
    pub fn letter(&self) -> (c: char)
        ensures
            c == self.spec_letter(),
    {
        match *self {
            Notation::Decimal => 'd',
            Notation::Float => 'f',
            Notation::Exponent => 'e',
            Notation::Octal => 'o',
            Notation::Hex => 'x',
            Notation::Binary => 'b',
        }
    }
}

/// The sign that a number is written with.
#[derive(Debug, Clone, Copy, PartialEq, Eq, Structural)]
pub enum Sign {
    /// No sign is written.
    Absent,
    Minus,
    Plus,
}

impl Sign {
    /// The number of bytes that the sign takes.
    pub open spec fn spec_len(self) -> usize {
        match self {
            Sign::Absent => 0,
            _ => 1,
        }
    }

    pub fn len(&self) -> (n: usize)
        ensures
            n == self.spec_len(),
    {
        match *self {
            Sign::Absent => 0,
            _ => 1,
        }
    }
}

/// The terminal of a number literal: its sign and its notation.
#[derive(Debug, Clone, Copy, PartialEq, Eq, Structural)]
pub struct Number {
    sign: Sign,
    notation: Notation,
}

impl Number {
    pub closed spec fn spec_sign(self) -> Sign {
        self.sign
    }

    pub closed spec fn spec_notation(self) -> Notation {
        self.notation
    }

    /// The terminal of the sign and the notation.
    pub closed spec fn of(sign: Sign, notation: Notation) -> Number {
        Number { sign, notation }
    }

    /// A terminal is fixed by its sign and its notation: it is the terminal
    /// of the two, and two terminals of the same sign and notation are equal.
    pub proof fn lemma_fixed(self, other: Number)
        ensures
            self == Number::of(self.spec_sign(), self.spec_notation()),
            (self == other) == (self.spec_sign() == other.spec_sign() && self.spec_notation()
                == other.spec_notation()),
    {
    }

    /// The sign and the notation of the terminal of a sign and a notation
    /// are those two.
    pub proof fn lemma_of(sign: Sign, notation: Notation)
        ensures
            Number::of(sign, notation).spec_sign() == sign,
            Number::of(sign, notation).spec_notation() == notation,
    {
    }

    /// The text of the terminal: the sign, then the letter of the notation.
    pub open spec fn spec_text(self) -> Seq<char> {
        match self.spec_sign() {
            Sign::Absent => seq![self.spec_notation().spec_letter()],
            Sign::Minus => seq!['-', self.spec_notation().spec_letter()],
            Sign::Plus => seq!['+', self.spec_notation().spec_letter()],
        }
    }

    pub fn new(sign: Sign, notation: Notation) -> (n: Number)
        ensures
            n == Number::of(sign, notation),
            n.spec_sign() == sign,
            n.spec_notation() == notation,
    {
        Number { sign, notation }
    }

    pub fn token(span: Span, sign: Sign, notation: Notation) -> (t: LexToken<Number>)
        ensures
            t.spec_term() == Number::of(sign, notation),
            t.spec_term().spec_sign() == sign,
            t.spec_term().spec_notation() == notation,
            t.spec_span() == span,
    {
        LexToken::new(Number { sign, notation }, span.start, span.end)
    }

    pub fn sign(&self) -> (s: Sign)
        ensures
            s == self.spec_sign(),
    {
        self.sign
    }

    pub fn notation(&self) -> (n: Notation)
        ensures
            n == self.spec_notation(),
    {
        self.notation
    }

    pub fn to_string(&self) -> (s: String)
        ensures
            s@ == self.spec_text(),
    {
        let mut s = String::new();
        match self.sign {
            Sign::Absent => {},
            Sign::Minus => {
                s.push('-');
            },
            Sign::Plus => {
                s.push('+');
            },
        }
        s.push(self.notation.letter());
        assert(s@ =~= self.spec_text());
        s
    }
}

impl LexTerm for Number {
}

/// Which case of letters a notation accepts.
#[derive(Debug, Clone, Copy, PartialEq, Eq, Structural)]
pub enum Case {
    Any,
    Upper,
    Lower,
}

/// Whether `c` is a digit of the notation.
pub open spec fn is_digit_char(notation: Notation, case: Case, c: char) -> bool {
    match notation {
        Notation::Hex => ('0' <= c <= '9') || match case {
            Case::Any => ('A' <= c <= 'F') || ('a' <= c <= 'f'),
            Case::Upper => 'A' <= c <= 'F',
            Case::Lower => 'a' <= c <= 'f',
        },
        Notation::Octal => '0' <= c <= '7',
        Notation::Binary => c == '0' || c == '1',
        _ => '0' <= c <= '9',
    }
}

/// Whether `c` is a digit of the notation.
pub fn is_digit(notation: Notation, case: Case, c: char) -> (b: bool)
    ensures
        b == is_digit_char(notation, case, c),
{
    match notation {
        Notation::Hex => (c >= '0' && c <= '9') || match case {
            Case::Any => (c >= 'A' && c <= 'F') || (c >= 'a' && c <= 'f'),
            Case::Upper => c >= 'A' && c <= 'F',
            Case::Lower => c >= 'a' && c <= 'f',
        },
        Notation::Octal => c >= '0' && c <= '7',
        Notation::Binary => c == '0' || c == '1',
        _ => c >= '0' && c <= '9',
    }
}

/// The sign that a character stands for.
pub open spec fn sign_of(c: char) -> Sign {
    if c == '-' {
        Sign::Minus
    } else if c == '+' {
        Sign::Plus
    } else {
        Sign::Absent
    }
}

/// The sign that stands at `pos`.
pub open spec fn sign_at(data: Seq<u8>, pos: Position) -> Sign {
    match read_at(data, pos) {
        Ok(Some(c)) => sign_of(c),
        _ => Sign::Absent,
    }
}

/// Whether a notation that allows the signs as given accepts `sign`.
pub open spec fn sign_allowed(allow_minus: bool, allow_plus: bool, sign: Sign) -> bool {
    match sign {
        Sign::Absent => true,
        Sign::Minus => allow_minus,
        Sign::Plus => allow_plus,
    }
}

/// What a recogniser would have accepted, as an error reports it.
pub enum Expectation {
    /// The error names nothing.
    Nothing,
    /// The error names this one expectation.
    Single(Expected),
    /// The error names these, in this order.
    Listed(Seq<Expected>),
    /// The error names what `Expected::one_of` makes of these.
    OneOf(Seq<Expected>),
}

/// Whether what an error names is what was wanted.
pub open spec fn meets(named: Option<Expected>, wanted: Expectation) -> bool {
    match wanted {
        Expectation::Nothing => named is None,
        Expectation::Single(e) => named == Some(e),
        Expectation::Listed(s) => named matches Some(Expected::OneOf(v)) && v@ == s,
        Expectation::OneOf(s) => named matches Some(e) && crate::io::error::is_one_of(e, s),
    }
}

/// What the recogniser makes of the input at a position.
pub enum Recognised {
    /// A number literal; the reader stands at its end.
    Token { sign: Sign, notation: Notation, span: Span },
    /// The reader failed; it stands at `at`.
    Io { error: IoErrorDetail, at: Position },
    /// The input ended at `at` where more was expected.
    Eof { at: Position, expected: Expectation, task: Seq<char> },
    /// The character `found` stands at `at` where something else was expected.
    Input { at: Position, found: char, expected: Expectation, task: Seq<char> },
}

/// Whether a result of the recogniser, with the position that it left the
/// reader at, is the given outcome.
pub open spec fn is_outcome(r: ParseResult<LexToken<Number>>, left_at: Position, outcome: Recognised) -> bool {
    match outcome {
        Recognised::Token { sign, notation, span } => {
            &&& r matches Ok(t)
            &&& t.spec_term().spec_sign() == sign
            &&& t.spec_term().spec_notation() == notation
            &&& t.spec_span() == span
            &&& left_at == span.end
        },
        Recognised::Io { error, at } => r == Err::<LexToken<Number>, ParseErrorDetail>(ParseErrorDetail::Io(error))
            && left_at == at,
        Recognised::Eof { at, expected, task } => {
            &&& r matches Err(ParseErrorDetail::UnexpectedEof { pos, expected: named, task: t })
            &&& pos == at
            &&& meets(named, expected)
            &&& t@ == task
            &&& left_at == at
        },
        Recognised::Input { at, found, expected, task } => {
            &&& r matches Err(ParseErrorDetail::UnexpectedInput { pos, found: f, expected: named, task: t })
            &&& pos == at
            &&& f == Some(Input::Char(found))
            &&& meets(named, expected)
            &&& t@ == task
            &&& left_at == at
        },
    }
}

/// The failure that reports what stands at `at`.
pub open spec fn failure_at(data: Seq<u8>, at: Position, expected: Expectation, task: Seq<char>) -> Recognised {
    match read_at(data, at) {
        Err(error) => Recognised::Io { error, at },
        Ok(None) => Recognised::Eof { at, expected, task },
        Ok(Some(found)) => Recognised::Input { at, found, expected, task },
    }
}

/// The rules of a notation that is written with a prefix.
pub struct Rules {
    pub notation: Notation,
    pub enabled: bool,
    pub allow_minus: bool,
    pub allow_plus: bool,
    pub allow_underscores: bool,
    /// The bytes that introduce the notation.
    pub prefix: Seq<u8>,
    pub case: Case,
}

/// Whether the prefix of the notation stands at `p` or, where it has none,
/// a digit of the notation.
pub open spec fn at_prefix_or_digit(rules: Rules, data: Seq<u8>, p: Position) -> IoResult<bool> {
    if rules.prefix.len() == 0 {
        match read_at(data, p) {
            Ok(Some(c)) => Ok(is_digit_char(rules.notation, rules.case, c)),
            Ok(None) => Ok(false),
            Err(e) => Err(e),
        }
    } else {
        Ok(bytes_at(data, p.offset as int, rules.prefix))
    }
}

/// Whether a number of the notation begins at `pos`: the notation is
/// enabled, and after a sign that it allows, if one stands there, its
/// prefix or one of its digits follows.
pub open spec fn starts(rules: Rules, data: Seq<u8>, pos: Position) -> IoResult<bool> {
    if !rules.enabled {
        Ok(false)
    } else {
        match read_at(data, pos) {
            Err(e) => Err(e),
            Ok(None) => Ok(false),
            Ok(Some(c)) => if (c == '-' && rules.allow_minus) || (c == '+' && rules.allow_plus) {
                let p = position_after(data, pos);
                match read_at(data, p) {
                    Err(e) => Err(e),
                    Ok(_) => at_prefix_or_digit(rules, data, p),
                }
            } else {
                at_prefix_or_digit(rules, data, pos)
            },
        }
    }
}

/// Where the reading of the digits of a number of the notation ends that
/// begins at `pos`, and whether it ends for want of a digit. Where the
/// notation allows underscores, one may stand after a digit if a digit
/// follows it directly: an underscore after a digit that is followed by
/// anything else ends the reading, at the place after the underscore, for
/// want of a digit. The reading also ends, for no want, before whatever else
/// is no digit.
pub open spec fn simple_scan(rules: Rules, data: Seq<u8>, pos: Position, digit_seen: bool) -> (Position, bool)
    decreases data.len() - pos.offset,
    when data.len() <= usize::MAX
{
    match decode_at(data, pos.offset as int) {
        Decoded::Scalar(c, len) => {
            proof {
                lemma_scalar_shape(data, pos.offset as int);
            }
            if is_digit_char(rules.notation, rules.case, c) {
                simple_scan(rules, data, advance(pos, c, len), true)
            } else if c == '_' && rules.allow_underscores && digit_seen {
                let after = advance(pos, c, len);
                match decode_at(data, after.offset as int) {
                    Decoded::Scalar(d, digit_len) => {
                        proof {
                            lemma_scalar_shape(data, after.offset as int);
                        }
                        if is_digit_char(rules.notation, rules.case, d) {
                            simple_scan(rules, data, advance(after, d, digit_len), true)
                        } else {
                            (after, true)
                        }
                    },
                    _ => (after, true),
                }
            } else {
                (pos, false)
            }
        },
        _ => (pos, false),
    }
}

/// The digits that an error names as expected for the notation.
pub open spec fn expected_digits(notation: Notation, case: Case) -> Expectation {
    match notation {
        Notation::Hex => match case {
            Case::Any => Expectation::Listed(
                seq![Expected::CharRange('0', '9'), Expected::CharRange('A', 'F'), Expected::CharRange('a', 'f')],
            ),
            Case::Lower => Expectation::Listed(seq![Expected::CharRange('0', '9'), Expected::CharRange('a', 'f')]),
            Case::Upper => Expectation::Listed(seq![Expected::CharRange('0', '9'), Expected::CharRange('A', 'F')]),
        },
        Notation::Octal => Expectation::Single(Expected::CharRange('0', '7')),
        Notation::Binary => Expectation::Single(Expected::CharRange('0', '1')),
        _ => Expectation::Single(Expected::CharRange('0', '9')),
    }
}

/// The task that an error names for the notation.
pub open spec fn task_of(notation: Notation) -> Seq<char> {
    match notation {
        Notation::Hex => "parsing a hexadecimal number literal"@,
        Notation::Octal => "parsing an octal number literal"@,
        Notation::Binary => "parsing a binary number literal"@,
        _ => "parsing a decimal number literal"@,
    }
}

/// The position after the sign that stands at `first`, if one does.
pub open spec fn after_sign(data: Seq<u8>, first: Position, sign: Sign) -> Position {
    if sign is Absent {
        first
    } else {
        position_after(data, first)
    }
}

/// What the recogniser makes of a number in a notation with a prefix: after
/// the sign, if the notation allows it, and the prefix, one digit at least
/// is read. Where the reading ends for want of a digit, after an
/// underscore, there is no number: the failure names the place after that
/// underscore, and what stands there.
#[verifier::opaque]
pub open spec fn simple_outcome(rules: Rules, sign: Sign, data: Seq<u8>, first: Position) -> Recognised {
    if !sign_allowed(rules.allow_minus, rules.allow_plus, sign) {
        failure_at(data, first, expected_digits(rules.notation, rules.case), task_of(rules.notation))
    } else {
        let p = position_of(data, after_sign(data, first, sign).offset + rules.prefix.len());
        let (end, wanting) = simple_scan(rules, data, p, false);
        if read_at(data, end) is Ok && !wanting && end.offset > p.offset {
            Recognised::Token { sign, notation: rules.notation, span: Span { start: first, end } }
        } else {
            failure_at(data, end, expected_digits(rules.notation, rules.case), task_of(rules.notation))
        }
    }
}

/// Whether `b` may stand among the digits of a number in the notation.
pub open spec fn is_numeral_byte(notation: Notation, b: u8) -> bool {
    b == 0x5F || match notation {
        Notation::Hex => (0x30 <= b <= 0x39) || (0x41 <= b <= 0x46) || (0x61 <= b <= 0x66),
        Notation::Octal => 0x30 <= b <= 0x37,
        Notation::Binary => b == 0x30 || b == 0x31,
        Notation::Decimal => 0x30 <= b <= 0x39,
        _ => (0x30 <= b <= 0x39) || b == 0x2E || b == 0x65 || b == 0x45 || b == 0x2B || b == 0x2D,
    }
}

/// Whether the bytes from `from` to `to` may all stand among the digits of
/// a number in the notation.
pub open spec fn is_numeral(data: Seq<u8>, from: int, to: int, notation: Notation) -> bool {
    &&& 0 <= from <= to <= data.len()
    &&& forall|k: int| from <= k < to ==> is_numeral_byte(notation, #[trigger] data[k])
}

/// The byte of a sign.
pub open spec fn sign_byte(sign: Sign) -> u8 {
    match sign {
        Sign::Minus => 0x2D,
        _ => 0x2B,
    }
}

/// Whether the span holds a number as the recogniser yields it: the sign,
/// where there is one, a prefix of `prefix_len` bytes, and then nothing but
/// what may stand among the digits of the notation.
pub open spec fn is_token(data: Seq<u8>, span: Span, sign: Sign, notation: Notation, prefix_len: int) -> bool {
    &&& 0 <= prefix_len
    &&& span.start.offset + sign.spec_len() + prefix_len <= span.end.offset <= data.len()
    &&& sign !is Absent ==> data[span.start.offset as int] == sign_byte(sign)
    &&& is_numeral(data, span.start.offset + sign.spec_len() + prefix_len, span.end.offset as int, notation)
}

/// The rules of a notation that is written with a prefix, as the
/// recogniser takes them.
pub struct NotationRules<'a> {
    pub notation: Notation,
    pub enabled: bool,
    pub allow_minus: bool,
    pub allow_plus: bool,
    pub allow_underscores: bool,
    pub prefix: &'a str,
    pub case: Case,
}

impl<'a> View for NotationRules<'a> {
    type V = Rules;

    open spec fn view(&self) -> Rules {
        Rules {
            notation: self.notation,
            enabled: self.enabled,
            allow_minus: self.allow_minus,
            allow_plus: self.allow_plus,
            allow_underscores: self.allow_underscores,
            prefix: self.prefix.spec_bytes(),
            case: self.case,
        }
    }
}

/// What an error names as expected for the digits of the notation.
fn expected_digit(notation: Notation, case: Case) -> (e: Expected)
    ensures
        meets(Some(e), expected_digits(notation, case)),
{
    match notation {
        Notation::Hex => {
            let mut v: Vec<Expected> = Vec::new();
            v.push(Expected::CharRange('0', '9'));
            match case {
                Case::Any => {
                    v.push(Expected::CharRange('A', 'F'));
                    v.push(Expected::CharRange('a', 'f'));
                    assert(v@ =~= seq![
                        Expected::CharRange('0', '9'),
                        Expected::CharRange('A', 'F'),
                        Expected::CharRange('a', 'f'),
                    ]);
                },
                Case::Lower => {
                    v.push(Expected::CharRange('a', 'f'));
                    assert(v@ =~= seq![Expected::CharRange('0', '9'), Expected::CharRange('a', 'f')]);
                },
                Case::Upper => {
                    v.push(Expected::CharRange('A', 'F'));
                    assert(v@ =~= seq![Expected::CharRange('0', '9'), Expected::CharRange('A', 'F')]);
                },
            }
            Expected::OneOf(v)
        },
        Notation::Octal => Expected::CharRange('0', '7'),
        Notation::Binary => Expected::CharRange('0', '1'),
        _ => Expected::CharRange('0', '9'),
    }
}

/// The task that an error names for the notation.
fn task_name(notation: Notation) -> (s: &'static str)
    ensures
        s@ == task_of(notation),
{
    match notation {
        Notation::Hex => "parsing a hexadecimal number literal",
        Notation::Octal => "parsing an octal number literal",
        Notation::Binary => "parsing a binary number literal",
        _ => "parsing a decimal number literal",
    }
}

/// The error that reports what stands at the position of the reader.
fn failure<R: CharReader>(r: &mut R, expected: Option<Expected>, task: &str, Ghost(wanted): Ghost<Expectation>) -> (e:
    ParseErrorDetail)
    requires
        old(r).wf(),
        meets(expected, wanted),
    ensures
        final(r).wf(),
        final(r).data() == old(r).data(),
        final(r).spec_path() == old(r).spec_path(),
        final(r).pos() == old(r).pos(),
        is_outcome(
            Err::<LexToken<Number>, ParseErrorDetail>(e),
            old(r).pos(),
            failure_at(old(r).data(), old(r).pos(), wanted, task@),
        ),
{
    let pos = r.position();
    match r.peek_char(0) {
        Err(e) => ParseErrorDetail::Io(e),
        Ok(Some(c)) => ParseErrorDetail::UnexpectedInput {
            pos,
            found: Some(Input::Char(c)),
            expected,
            task: task.to_owned(),
        },
        Ok(None) => ParseErrorDetail::UnexpectedEof { pos, expected, task: task.to_owned() },
    }
}

/// Whether the prefix of the notation stands at the position of the reader
/// or, where it has none, a digit of the notation.
fn prefix_or_digit<R: CharReader>(rules: &NotationRules, r: &mut R) -> (res: IoResult<bool>)
    requires
        old(r).wf(),
    ensures
        final(r).wf(),
        final(r).data() == old(r).data(),
        final(r).spec_path() == old(r).spec_path(),
        final(r).pos() == old(r).pos(),
        res == at_prefix_or_digit(rules@, old(r).data(), old(r).pos()),
{
    if rules.prefix.as_bytes().len() == 0 {
        match r.peek_char(0) {
            Err(e) => Err(e),
            Ok(None) => Ok(false),
            Ok(Some(c)) => Ok(is_digit(rules.notation, rules.case, c)),
        }
    } else {
        r.match_str(rules.prefix)
    }
}

/// Whether a number of the notation begins at the position of the reader,
/// which does not move.
pub fn is_at_start<R: CharReader>(rules: &NotationRules, r: &mut R) -> (res: IoResult<bool>)
    requires
        old(r).wf(),
    ensures
        final(r).wf(),
        final(r).data() == old(r).data(),
        final(r).spec_path() == old(r).spec_path(),
        final(r).pos() == old(r).pos(),
        res == starts(rules@, old(r).data(), old(r).pos()),
{
    if !rules.enabled {
        return Ok(false);
    }
    let c = match r.peek_char(0) {
        Err(e) => {
            return Err(e);
        },
        Ok(None) => {
            return Ok(false);
        },
        Ok(Some(c)) => c,
    };
    if (c == '-' && rules.allow_minus) || (c == '+' && rules.allow_plus) {
        let p = r.position();
        proof {
            r.lemma_char_wf();
            reveal_with_fuel(skip_outcome, 2);
        }
        proof {
            R::lemma_boundary_seekable(r.data(), p);
        }
        match r.skip_chars(1) {
            Err(e) => {
                let _ = r.seek(p);
                return Err(e);
            },
            Ok(()) => {},
        }
        let res = prefix_or_digit(rules, r);
        let _ = r.seek(p);
        res
    } else {
        prefix_or_digit(rules, r)
    }
}

/// Moves the reader past `n` bytes of well-formed UTF-8.
fn skip_matched<R: CharReader>(r: &mut R, n: usize) -> (res: IoResult<()>)
    requires
        old(r).wf(),
        old(r).pos().offset + n <= old(r).data().len(),
        valid_utf8(old(r).data().subrange(old(r).pos().offset as int, old(r).pos().offset + n)),
    ensures
        final(r).wf(),
        final(r).data() == old(r).data(),
        final(r).spec_path() == old(r).spec_path(),
        final(r).pos() == position_of(old(r).data(), old(r).pos().offset + n),
        res matches Err(e) ==> read_at(old(r).data(), final(r).pos()) == Err::<Option<char>, IoErrorDetail>(e),
{
    let ghost data = r.data();
    let start = r.position();
    proof {
        r.lemma_char_wf();
        lemma_position_of(data, r.pos());
    }
    let e: usize = start.offset + n;
    loop
        invariant
            r.wf(),
            r.data() == data,
            data == old(r).data(),
            r.spec_path() == old(r).spec_path(),
            e == old(r).pos().offset + n,
            r.pos().offset <= e <= data.len(),
            valid_utf8(data.subrange(r.pos().offset as int, e as int)),
            r.pos() == position_of(data, r.pos().offset as int),
        decreases e - r.pos().offset,
    {
        let here = r.position();
        if here.offset >= e {
            return Ok(());
        }
        proof {
            r.lemma_char_wf();
            lemma_region_first(data, here.offset as int, e as int);
            lemma_advance_valid(data, here);
        }
        let _ = r.peek_char(0);
        match r.next_char() {
            Err(err) => {
                proof {
                    r.lemma_char_wf();
                    let next = r.pos().offset as int;
                    if next < e {
                        lemma_region_first(data, next, e as int);
                    }
                    lemma_position_of(data, r.pos());
                }
                return Err(err);
            },
            Ok(_) => {},
        }
        proof {
            r.lemma_char_wf();
            lemma_position_of(data, r.pos());
        }
    }
}

/// A digit of the notation is an ASCII character that may stand among the
/// digits of a number in it, as is the underscore.
pub proof fn lemma_digit_byte(notation: Notation, case: Case, c: char)
    requires
        is_digit_char(notation, case, c) || c == '_',
    ensures
        (c as u32) < 0x80,
        is_numeral_byte(notation, c as u8),
{
}

/// Recognises a number in a notation that is written with a prefix.
fn parse_simple_num<R: CharReader>(rules: &NotationRules, sign: Sign, r: &mut R) -> (res: ParseResult<
    LexToken<Number>,
>)
    requires
        old(r).wf(),
        sign == sign_at(old(r).data(), old(r).pos()),
        sign_allowed(rules.allow_minus, rules.allow_plus, sign) ==> bytes_at(
            old(r).data(),
            after_sign(old(r).data(), old(r).pos(), sign).offset as int,
            rules@.prefix,
        ),
    ensures
        final(r).wf(),
        final(r).data() == old(r).data(),
        final(r).spec_path() == old(r).spec_path(),
        is_outcome(res, final(r).pos(), simple_outcome(rules@, sign, old(r).data(), old(r).pos())),
        res matches Ok(t) ==> is_token(
            old(r).data(),
            t.spec_span(),
            sign,
            rules.notation,
            rules@.prefix.len() as int,
        ),
{
    reveal(simple_outcome);
    let ghost data = r.data();
    let first = r.position();
    let allowed = match sign {
        Sign::Absent => true,
        Sign::Minus => rules.allow_minus,
        Sign::Plus => rules.allow_plus,
    };
    if !allowed {
        let expected = expected_digit(rules.notation, rules.case);
        let e = failure(
            r,
            Some(expected),
            task_name(rules.notation),
            Ghost(expected_digits(rules.notation, rules.case)),
        );
        return Err(e);
    }
    proof {
        r.lemma_char_wf();
        encode_utf8_valid_utf8(rules.prefix@);
        if sign !is Absent {
            lemma_advance_valid(data, first);
            lemma_ascii_scalar(data, first.offset as int);
        }
    }
    match sign {
        Sign::Absent => {},
        _ => {
            let _ = r.peek_char(0);
            match r.next_char() {
                Err(e) => {
                    proof {
                        r.lemma_char_wf();
                        lemma_position_of(data, r.pos());
                        if rules@.prefix.len() > 0 {
                            lemma_region_first(data, r.pos().offset as int, r.pos().offset + rules@.prefix.len());
                        }
                    }
                    return Err(ParseErrorDetail::Io(e));
                },
                Ok(_) => {},
            }
        },
    }
    match skip_matched(r, rules.prefix.as_bytes().len()) {
        Err(e) => {
            return Err(ParseErrorDetail::Io(e));
        },
        Ok(()) => {},
    }
    let p = r.position();
    let mut digit = false;
    loop
        invariant
            r.wf(),
            r.data() == data,
            data == old(r).data(),
            r.spec_path() == old(r).spec_path(),
            first == old(r).pos(),
            valid_position(data, first),
            sign == sign_at(data, first),
            sign !is Absent ==> data[first.offset as int] == sign_byte(sign),
            sign_allowed(rules.allow_minus, rules.allow_plus, sign),
            p == position_of(data, after_sign(data, first, sign).offset + rules@.prefix.len()),
            p.offset == first.offset + sign.spec_len() + rules@.prefix.len(),
            p.offset <= r.pos().offset,
            digit == (r.pos().offset > p.offset),
            simple_scan(rules@, data, p, false) == simple_scan(rules@, data, r.pos(), digit),
            is_numeral(data, p.offset as int, r.pos().offset as int, rules.notation),
        ensures
            simple_scan(rules@, data, p, false) == (r.pos(), false),
            read_at(data, r.pos()) is Ok,
        decreases data.len() - r.pos().offset,
    {
        let ghost here = r.pos();
        proof {
            reveal(simple_outcome);
            r.lemma_char_wf();
        }
        match r.peek_char(0) {
            Err(e) => {
                return Err(ParseErrorDetail::Io(e));
            },
            Ok(None) => {
                break ;
            },
            Ok(Some(c)) => {
                if is_digit(rules.notation, rules.case, c) {
                    digit = true;
                    proof {
                        lemma_advance_valid(data, here);
                        lemma_scalar_shape(data, here.offset as int);
                        lemma_ascii_scalar(data, here.offset as int);
                        lemma_digit_byte(rules.notation, rules.case, c);
                    }
                } else if c == '_' && rules.allow_underscores && digit {
                    proof {
                        lemma_advance_valid(data, here);
                        lemma_scalar_shape(data, here.offset as int);
                        lemma_ascii_scalar(data, here.offset as int);
                        lemma_digit_byte(rules.notation, rules.case, c);
                    }
                    match r.next_char() {
                        Err(e) => {
                            return Err(ParseErrorDetail::Io(e));
                        },
                        Ok(_) => {},
                    }
                    let ghost after = r.pos();
                    proof {
                        r.lemma_char_wf();
                    }
                    let follows = match r.peek_char(0) {
                        Ok(Some(d)) => is_digit(rules.notation, rules.case, d),
                        _ => false,
                    };
                    if !follows {
                        let expected = expected_digit(rules.notation, rules.case);
                        return Err(
                            failure(
                                r,
                                Some(expected),
                                task_name(rules.notation),
                                Ghost(expected_digits(rules.notation, rules.case)),
                            ),
                        );
                    }
                    proof {
                        let d = decode_at(data, after.offset as int)->Scalar_0;
                        lemma_advance_valid(data, after);
                        lemma_scalar_shape(data, after.offset as int);
                        lemma_ascii_scalar(data, after.offset as int);
                        lemma_digit_byte(rules.notation, rules.case, d);
                    }
                } else {
                    break ;
                }
                match r.next_char() {
                    Err(e) => {
                        assert(simple_scan(rules@, data, r.pos(), digit) == (r.pos(), false));
                        return Err(ParseErrorDetail::Io(e));
                    },
                    Ok(_) => {},
                }
            },
        }
    }
    let end = r.position();
    if end.offset > p.offset {
        proof {
            r.lemma_wf();
        }
        Ok(LexToken::new(Number::new(sign, rules.notation), first, end))
    } else {
        let expected = expected_digit(rules.notation, rules.case);
        Err(failure(r, Some(expected), task_name(rules.notation), Ghost(expected_digits(rules.notation, rules.case))))
    }
}

/// The rules of decimal numbers: whole numbers, numbers with a fraction,
/// and numbers with an exponent.
#[derive(Debug, Clone, Copy)]
pub struct DecimalConfig {
    pub enabled: bool,
    pub allow_minus: bool,
    pub allow_plus: bool,
    pub allow_underscores: bool,
    pub allow_float: bool,
    pub allow_exponent: bool,
    /// The case in which the exponent marker is accepted.
    pub case: Case,
}

/// The kind of the last significant character that the recogniser of
/// decimal numbers has read.
#[derive(Debug, Clone, Copy, PartialEq, Eq, Structural)]
pub enum Last {
    /// Nothing yet.
    Start,
    /// A digit.
    Digit,
    /// The dot before the fraction.
    Dot,
    /// The exponent marker.
    Exp,
    /// The sign of the exponent.
    ExpSign,
}

/// The state of the recogniser of decimal numbers.
#[derive(Debug, Clone, Copy)]
pub struct DecimalState {
    pub last: Last,
    /// The notation that the characters read so far make up.
    pub notation: Option<Notation>,
}

/// The state after `c`, or nothing where `c` cannot go on the number.
pub open spec fn decimal_step(cfg: DecimalConfig, st: DecimalState, c: char) -> Option<DecimalState> {
    if '0' <= c <= '9' {
        Some(
            DecimalState {
                last: Last::Digit,
                notation: match st.last {
                    Last::Start => Some(Notation::Decimal),
                    Last::Dot => Some(Notation::Float),
                    Last::Exp | Last::ExpSign => Some(Notation::Exponent),
                    Last::Digit => st.notation,
                },
            },
        )
    } else if c == '_' && cfg.allow_underscores && (st.last is Digit || st.last is Exp || st.last is ExpSign) {
        Some(st)
    } else if c == '.' && cfg.allow_float && st.last is Digit && st.notation == Some(Notation::Decimal) {
        Some(DecimalState { last: Last::Dot, notation: st.notation })
    } else if ((c == 'e' && !(cfg.case is Upper)) || (c == 'E' && !(cfg.case is Lower))) && cfg.allow_exponent
        && st.last is Digit && st.notation != Some(Notation::Exponent) {
        Some(DecimalState { last: Last::Exp, notation: st.notation })
    } else if (c == '-' || c == '+') && st.last is Exp {
        Some(DecimalState { last: Last::ExpSign, notation: st.notation })
    } else {
        None
    }
}

/// The state in which the recogniser of decimal numbers begins.
pub open spec fn decimal_start() -> DecimalState {
    DecimalState { last: Last::Start, notation: None }
}

/// The position at which the recogniser of decimal numbers stops that
/// begins at `pos` in state `st`, and the state that it stops in.
pub open spec fn decimal_scan(cfg: DecimalConfig, data: Seq<u8>, pos: Position, st: DecimalState) -> (
    Position,
    DecimalState,
)
    decreases data.len() - pos.offset,
    when data.len() <= usize::MAX
{
    match decode_at(data, pos.offset as int) {
        Decoded::Scalar(c, len) => {
            proof {
                lemma_scalar_shape(data, pos.offset as int);
            }
            match decimal_step(cfg, st, c) {
                Some(next) => decimal_scan(cfg, data, advance(pos, c, len), next),
                None => (pos, st),
            }
        },
        _ => (pos, st),
    }
}

/// What an error names as expected after a character of the given kind.
pub open spec fn decimal_expected(cfg: DecimalConfig, last: Last) -> Expectation {
    match last {
        Last::Start | Last::Dot => Expectation::OneOf(
            (if cfg.allow_minus {
                seq![Expected::Char('-')]
            } else {
                Seq::<Expected>::empty()
            }) + (if cfg.allow_plus {
                seq![Expected::Char('+')]
            } else {
                Seq::<Expected>::empty()
            }) + seq![Expected::CharRange('0', '9')],
        ),
        Last::Exp => if cfg.allow_underscores {
            Expectation::OneOf(
                seq![Expected::CharRange('0', '9'), Expected::Char('_'), Expected::Char('-'), Expected::Char('+')],
            )
        } else {
            Expectation::OneOf(seq![Expected::CharRange('0', '9'), Expected::Char('-'), Expected::Char('+')])
        },
        Last::ExpSign => if cfg.allow_underscores {
            Expectation::OneOf(seq![Expected::CharRange('0', '9'), Expected::Char('_')])
        } else {
            Expectation::Single(Expected::CharRange('0', '9'))
        },
        Last::Digit => Expectation::Single(Expected::CharRange('0', '9')),
    }
}

/// The position one column and one byte before `p`.
pub open spec fn retract(p: Position) -> Position {
    Position { offset: (p.offset - 1) as usize, line: p.line, column: (p.column - 1) as u32 }
}

/// What the recogniser makes of a decimal number. Where the number ends
/// with the dot of a fraction that has no digits, the dot does not belong to
/// it: the token is the whole number before the dot.
#[verifier::opaque]
pub open spec fn decimal_outcome(cfg: DecimalConfig, sign: Sign, data: Seq<u8>, first: Position) -> Recognised {
    if !sign_allowed(cfg.allow_minus, cfg.allow_plus, sign) {
        failure_at(data, first, decimal_expected(cfg, Last::Start), task_of(Notation::Decimal))
    } else {
        let (stop, st) = decimal_scan(cfg, data, after_sign(data, first, sign), decimal_start());
        if read_at(data, stop) is Ok && st.notation is Some && (st.last is Digit || st.last is Dot) {
            Recognised::Token {
                sign,
                notation: st.notation->0,
                span: Span {
                    start: first,
                    end: if st.last is Dot {
                        retract(stop)
                    } else {
                        stop
                    },
                },
            }
        } else {
            failure_at(data, stop, decimal_expected(cfg, st.last), task_of(Notation::Decimal))
        }
    }
}

/// Whether a decimal number begins at `pos`: a sign that the rules allow,
/// or a digit.
pub open spec fn decimal_starts(cfg: DecimalConfig, data: Seq<u8>, pos: Position) -> IoResult<bool> {
    if !cfg.enabled {
        Ok(false)
    } else {
        match read_at(data, pos) {
            Err(e) => Err(e),
            Ok(None) => Ok(false),
            Ok(Some(c)) => Ok((c == '-' && cfg.allow_minus) || (c == '+' && cfg.allow_plus) || ('0' <= c <= '9')),
        }
    }
}

impl DecimalConfig {
    /// The rules that accept every form of decimal number.
    pub fn new() -> (c: DecimalConfig)
        ensures
            c.enabled && c.allow_minus && c.allow_plus && c.allow_underscores && c.allow_float && c.allow_exponent,
            c.case is Any,
    {
        DecimalConfig {
            enabled: true,
            allow_minus: true,
            allow_plus: true,
            allow_underscores: true,
            allow_float: true,
            allow_exponent: true,
            case: Case::Any,
        }
    }

    /// Whether a decimal number begins at the position of the reader, which
    /// does not move: a sign that the rules allow, or a digit.
    pub fn is_at_start<R: CharReader>(&self, r: &mut R) -> (res: IoResult<bool>)
        requires
            old(r).wf(),
        ensures
            final(r).wf(),
            final(r).data() == old(r).data(),
            final(r).spec_path() == old(r).spec_path(),
            final(r).pos() == old(r).pos(),
            res == decimal_starts(*self, old(r).data(), old(r).pos()),
    {
        if !self.enabled {
            return Ok(false);
        }
        match r.peek_char(0) {
            Err(e) => Err(e),
            Ok(None) => Ok(false),
            Ok(Some(c)) => Ok((c == '-' && self.allow_minus) || (c == '+' && self.allow_plus) || self.is_digit(c)),
        }
    }

    pub fn is_digit(&self, c: char) -> (b: bool)
        ensures
            b == ('0' <= c <= '9'),
    {
        c >= '0' && c <= '9'
    }

    /// The state after `c`, or nothing where `c` cannot go on the number.
    fn step(&self, st: DecimalState, c: char) -> (next: Option<DecimalState>)
        ensures
            next == decimal_step(*self, st, c),
    {
        if self.is_digit(c) {
            let notation = match st.last {
                Last::Start => Some(Notation::Decimal),
                Last::Dot => Some(Notation::Float),
                Last::Exp | Last::ExpSign => Some(Notation::Exponent),
                Last::Digit => st.notation,
            };
            Some(DecimalState { last: Last::Digit, notation })
        } else if c == '_' && self.allow_underscores && (match st.last {
            Last::Digit | Last::Exp | Last::ExpSign => true,
            _ => false,
        }) {
            Some(st)
        } else if c == '.' && self.allow_float && (match st.last {
            Last::Digit => true,
            _ => false,
        }) && (match st.notation {
            Some(Notation::Decimal) => true,
            _ => false,
        }) {
            Some(DecimalState { last: Last::Dot, notation: st.notation })
        } else if ((c == 'e' && !(match self.case {
            Case::Upper => true,
            _ => false,
        })) || (c == 'E' && !(match self.case {
            Case::Lower => true,
            _ => false,
        }))) && self.allow_exponent && (match st.last {
            Last::Digit => true,
            _ => false,
        }) && !(match st.notation {
            Some(Notation::Exponent) => true,
            _ => false,
        }) {
            Some(DecimalState { last: Last::Exp, notation: st.notation })
        } else if (c == '-' || c == '+') && (match st.last {
            Last::Exp => true,
            _ => false,
        }) {
            Some(DecimalState { last: Last::ExpSign, notation: st.notation })
        } else {
            None
        }
    }

    /// What an error names as expected after a character of the given kind.
    fn expected(&self, last: Last) -> (e: Expected)
        ensures
            meets(Some(e), decimal_expected(*self, last)),
    {
        match last {
            Last::Start | Last::Dot => {
                let mut v: Vec<Expected> = Vec::new();
                if self.allow_minus {
                    v.push(Expected::Char('-'));
                }
                if self.allow_plus {
                    v.push(Expected::Char('+'));
                }
                v.push(Expected::CharRange('0', '9'));
                assert(v@ =~= (if self.allow_minus {
                    seq![Expected::Char('-')]
                } else {
                    Seq::<Expected>::empty()
                }) + (if self.allow_plus {
                    seq![Expected::Char('+')]
                } else {
                    Seq::<Expected>::empty()
                }) + seq![Expected::CharRange('0', '9')]);
                Expected::one_of(v)
            },
            Last::Exp => {
                let mut v: Vec<Expected> = Vec::new();
                v.push(Expected::CharRange('0', '9'));
                if self.allow_underscores {
                    v.push(Expected::Char('_'));
                }
                v.push(Expected::Char('-'));
                v.push(Expected::Char('+'));
                assert(self.allow_underscores ==> v@ =~= seq![
                    Expected::CharRange('0', '9'),
                    Expected::Char('_'),
                    Expected::Char('-'),
                    Expected::Char('+'),
                ]);
                assert(!self.allow_underscores ==> v@ =~= seq![
                    Expected::CharRange('0', '9'),
                    Expected::Char('-'),
                    Expected::Char('+'),
                ]);
                Expected::one_of(v)
            },
            Last::ExpSign => {
                if self.allow_underscores {
                    let mut v: Vec<Expected> = Vec::new();
                    v.push(Expected::CharRange('0', '9'));
                    v.push(Expected::Char('_'));
                    assert(v@ =~= seq![Expected::CharRange('0', '9'), Expected::Char('_')]);
                    Expected::one_of(v)
                } else {
                    Expected::CharRange('0', '9')
                }
            },
            Last::Digit => Expected::CharRange('0', '9'),
        }
    }
}

/// A character that goes on a decimal number is an ASCII character that may
/// stand in a number with a fraction or an exponent, and a digit or an
/// underscore as long as the number is a whole one.
pub proof fn lemma_decimal_byte(cfg: DecimalConfig, st: DecimalState, c: char)
    requires
        decimal_step(cfg, st, c) is Some,
    ensures
        (c as u32) < 0x80,
        is_numeral_byte(Notation::Float, c as u8),
        is_numeral_byte(Notation::Exponent, c as u8),
        decimal_step(cfg, st, c)->0.last is Digit && decimal_step(cfg, st, c)->0.notation == Some(Notation::Decimal)
            ==> is_numeral_byte(Notation::Decimal, c as u8) && (st.last is Start || (st.last is Digit && st.notation
            == Some(Notation::Decimal))),
{
}

/// Whether the recogniser of decimal numbers can be in the state after it
/// has read the bytes from `from` to `to`, the last of them at `prev`.
pub open spec fn decimal_inv(data: Seq<u8>, from: int, at: Position, prev: Position, st: DecimalState) -> bool {
    &&& st.last is Start <==> at.offset == from
    &&& st.last is Start <==> st.notation is None
    &&& st.last is Dot ==> st.notation == Some(Notation::Decimal)
    &&& st.last is Dot ==> valid_position(data, prev) && at == advance(prev, '.', 1) && prev.column < u32::MAX
        && prev.offset < usize::MAX && is_numeral(data, from, prev.offset as int, Notation::Decimal)
    &&& st.notation matches Some(n) ==> (n is Decimal || n is Float || n is Exponent)
    &&& st.notation == Some(Notation::Decimal) && st.last is Digit ==> is_numeral(
        data,
        from,
        at.offset as int,
        Notation::Decimal,
    )
    &&& is_numeral(data, from, at.offset as int, Notation::Float)
    &&& is_numeral(data, from, at.offset as int, Notation::Exponent)
}

/// Recognises a decimal number.
fn parse_decimal<R: CharReader>(cfg: &DecimalConfig, sign: Sign, r: &mut R) -> (res: ParseResult<LexToken<Number>>)
    requires
        old(r).wf(),
        sign == sign_at(old(r).data(), old(r).pos()),
    ensures
        final(r).wf(),
        final(r).data() == old(r).data(),
        final(r).spec_path() == old(r).spec_path(),
        is_outcome(res, final(r).pos(), decimal_outcome(*cfg, sign, old(r).data(), old(r).pos())),
        res matches Ok(t) ==> is_token(old(r).data(), t.spec_span(), sign, t.spec_term().spec_notation(), 0) && (
        t.spec_term().spec_notation() is Decimal || t.spec_term().spec_notation() is Float
            || t.spec_term().spec_notation() is Exponent) && t.spec_term().spec_sign() == sign,
{
    reveal(decimal_outcome);
    let ghost data = r.data();
    let first = r.position();
    let allowed = match sign {
        Sign::Absent => true,
        Sign::Minus => cfg.allow_minus,
        Sign::Plus => cfg.allow_plus,
    };
    if !allowed {
        let expected = cfg.expected(Last::Start);
        let e = failure(r, Some(expected), task_name(Notation::Decimal), Ghost(decimal_expected(*cfg, Last::Start)));
        return Err(e);
    }
    proof {
        r.lemma_char_wf();
        if sign !is Absent {
            lemma_advance_valid(data, first);
            lemma_ascii_scalar(data, first.offset as int);
        }
    }
    match sign {
        Sign::Absent => {},
        _ => {
            let _ = r.peek_char(0);
            match r.next_char() {
                Err(e) => {
                    return Err(ParseErrorDetail::Io(e));
                },
                Ok(_) => {},
            }
        },
    }
    let ghost from = r.pos();
    let ghost mut prev = r.pos();
    let mut st = DecimalState { last: Last::Start, notation: None };
    loop
        invariant
            r.wf(),
            r.data() == data,
            data == old(r).data(),
            r.spec_path() == old(r).spec_path(),
            first == old(r).pos(),
            sign !is Absent ==> data[first.offset as int] == sign_byte(sign),
            sign_allowed(cfg.allow_minus, cfg.allow_plus, sign),
            from == after_sign(data, first, sign),
            from.offset == first.offset + sign.spec_len(),
            from.offset <= r.pos().offset,
            decimal_scan(*cfg, data, from, decimal_start()) == decimal_scan(*cfg, data, r.pos(), st),
            decimal_inv(data, from.offset as int, r.pos(), prev, st),
        ensures
            decimal_scan(*cfg, data, from, decimal_start()) == (r.pos(), st),
            read_at(data, r.pos()) is Ok,
        decreases data.len() - r.pos().offset,
    {
        let ghost here = r.pos();
        proof {
            reveal(decimal_outcome);
            r.lemma_char_wf();
        }
        match r.peek_char(0) {
            Err(e) => {
                return Err(ParseErrorDetail::Io(e));
            },
            Ok(None) => {
                break ;
            },
            Ok(Some(c)) => {
                match cfg.step(st, c) {
                    None => {
                        break ;
                    },
                    Some(next) => {
                        proof {
                            lemma_advance_valid(data, here);
                            lemma_scalar_shape(data, here.offset as int);
                            lemma_ascii_scalar(data, here.offset as int);
                            lemma_decimal_byte(*cfg, st, c);
                            prev = here;
                        }
                        st = next;
                    },
                }
                match r.next_char() {
                    Err(e) => {
                        assert(decimal_scan(*cfg, data, r.pos(), st) == (r.pos(), st));
                        return Err(ParseErrorDetail::Io(e));
                    },
                    Ok(_) => {},
                }
            },
        }
    }
    let stop = r.position();
    proof {
        r.lemma_wf();
    }
    match st.notation {
        Some(notation) => {
            match st.last {
                Last::Digit => {
                    return Ok(LexToken::new(Number::new(sign, notation), first, stop));
                },
                Last::Dot => {
                    let p = Position { offset: stop.offset - 1, line: stop.line, column: stop.column - 1 };
                    assert(p == prev);
                    proof {
                        R::lemma_boundary_seekable(data, p);
                    }
                    let _ = r.seek(p);
                    return Ok(LexToken::new(Number::new(sign, notation), first, p));
                },
                _ => {},
            }
        },
        None => {},
    }
    let expected = cfg.expected(st.last);
    Err(failure(r, Some(expected), task_name(Notation::Decimal), Ghost(decimal_expected(*cfg, st.last))))
}

/// The rules of hexadecimal numbers.
#[derive(Debug)]
pub struct HexConfig {
    pub enabled: bool,
    pub allow_minus: bool,
    pub allow_plus: bool,
    pub allow_underscores: bool,
    /// The text that introduces the notation.
    pub prefix: String,
    /// The case in which the letters among the digits are accepted.
    pub case: Case,
}

impl HexConfig {
    /// The rules as the recogniser reads them.
    pub open spec fn rules(&self) -> Rules {
        Rules {
            notation: Notation::Hex,
            enabled: self.enabled,
            allow_minus: self.allow_minus,
            allow_plus: self.allow_plus,
            allow_underscores: self.allow_underscores,
            prefix: encode_utf8(self.prefix@),
            case: self.case,
        }
    }

    /// The rules that accept signs and underscores, with the prefix `0x`.
    pub fn new() -> (c: HexConfig)
        ensures
            c.enabled && c.allow_minus && c.allow_plus && c.allow_underscores,
            c.prefix@ == "0x"@,
            c.case is Any,
    {
        HexConfig {
            enabled: true,
            allow_minus: true,
            allow_plus: true,
            allow_underscores: true,
            prefix: "0x".to_owned(),
            case: Case::Any,
        }
    }

    /// The rules as the recogniser takes them.
    pub fn as_rules(&self) -> (rules: NotationRules<'_>)
        ensures
            rules@ == self.rules(),
    {
        NotationRules {
            notation: Notation::Hex,
            enabled: self.enabled,
            allow_minus: self.allow_minus,
            allow_plus: self.allow_plus,
            allow_underscores: self.allow_underscores,
            prefix: self.prefix.as_str(),
            case: self.case,
        }
    }

    /// Whether a number of the notation begins at the position of the
    /// reader, which does not move.
    pub fn is_at_start<R: CharReader>(&self, r: &mut R) -> (res: IoResult<bool>)
        requires
            old(r).wf(),
        ensures
            final(r).wf(),
            final(r).data() == old(r).data(),
            final(r).spec_path() == old(r).spec_path(),
            final(r).pos() == old(r).pos(),
            res == starts(self.rules(), old(r).data(), old(r).pos()),
    {
        let rules = self.as_rules();
        is_at_start(&rules, r)
    }

    pub fn is_digit(&self, c: char) -> (b: bool)
        ensures
            b == is_digit_char(Notation::Hex, self.case, c),
    {
        is_digit(Notation::Hex, self.case, c)
    }
}

/// The rules of octal numbers.
#[derive(Debug)]
pub struct OctalConfig {
    pub enabled: bool,
    pub allow_minus: bool,
    pub allow_plus: bool,
    pub allow_underscores: bool,
    /// The text that introduces the notation.
    pub prefix: String,
}

impl OctalConfig {
    /// The rules as the recogniser reads them.
    pub open spec fn rules(&self) -> Rules {
        Rules {
            notation: Notation::Octal,
            enabled: self.enabled,
            allow_minus: self.allow_minus,
            allow_plus: self.allow_plus,
            allow_underscores: self.allow_underscores,
            prefix: encode_utf8(self.prefix@),
            case: Case::Any,
        }
    }

    /// The rules that accept signs and underscores, with the prefix `0o`.
    pub fn new() -> (c: OctalConfig)
        ensures
            c.enabled && c.allow_minus && c.allow_plus && c.allow_underscores,
            c.prefix@ == "0o"@,
    {
        OctalConfig {
            enabled: true,
            allow_minus: true,
            allow_plus: true,
            allow_underscores: true,
            prefix: "0o".to_owned(),
        }
    }

    /// The rules as the recogniser takes them.
    pub fn as_rules(&self) -> (rules: NotationRules<'_>)
        ensures
            rules@ == self.rules(),
    {
        NotationRules {
            notation: Notation::Octal,
            enabled: self.enabled,
            allow_minus: self.allow_minus,
            allow_plus: self.allow_plus,
            allow_underscores: self.allow_underscores,
            prefix: self.prefix.as_str(),
            case: Case::Any,
        }
    }

    /// Whether a number of the notation begins at the position of the
    /// reader, which does not move.
    pub fn is_at_start<R: CharReader>(&self, r: &mut R) -> (res: IoResult<bool>)
        requires
            old(r).wf(),
        ensures
            final(r).wf(),
            final(r).data() == old(r).data(),
            final(r).spec_path() == old(r).spec_path(),
            final(r).pos() == old(r).pos(),
            res == starts(self.rules(), old(r).data(), old(r).pos()),
    {
        let rules = self.as_rules();
        is_at_start(&rules, r)
    }

    pub fn is_digit(&self, c: char) -> (b: bool)
        ensures
            b == is_digit_char(Notation::Octal, Case::Any, c),
    {
        is_digit(Notation::Octal, Case::Any, c)
    }
}

/// The rules of binary numbers.
#[derive(Debug)]
pub struct BinaryConfig {
    pub enabled: bool,
    pub allow_minus: bool,
    pub allow_plus: bool,
    pub allow_underscores: bool,
    /// The text that introduces the notation.
    pub prefix: String,
}

impl BinaryConfig {
    /// The rules as the recogniser reads them.
    pub open spec fn rules(&self) -> Rules {
        Rules {
            notation: Notation::Binary,
            enabled: self.enabled,
            allow_minus: self.allow_minus,
            allow_plus: self.allow_plus,
            allow_underscores: self.allow_underscores,
            prefix: encode_utf8(self.prefix@),
            case: Case::Any,
        }
    }

    /// The rules that accept signs and underscores, with the prefix `0b`.
    pub fn new() -> (c: BinaryConfig)
        ensures
            c.enabled && c.allow_minus && c.allow_plus && c.allow_underscores,
            c.prefix@ == "0b"@,
    {
        BinaryConfig {
            enabled: true,
            allow_minus: true,
            allow_plus: true,
            allow_underscores: true,
            prefix: "0b".to_owned(),
        }
    }

    /// The rules as the recogniser takes them.
    pub fn as_rules(&self) -> (rules: NotationRules<'_>)
        ensures
            rules@ == self.rules(),
    {
        NotationRules {
            notation: Notation::Binary,
            enabled: self.enabled,
            allow_minus: self.allow_minus,
            allow_plus: self.allow_plus,
            allow_underscores: self.allow_underscores,
            prefix: self.prefix.as_str(),
            case: Case::Any,
        }
    }

    /// Whether a number of the notation begins at the position of the
    /// reader, which does not move.
    pub fn is_at_start<R: CharReader>(&self, r: &mut R) -> (res: IoResult<bool>)
        requires
            old(r).wf(),
        ensures
            final(r).wf(),
            final(r).data() == old(r).data(),
            final(r).spec_path() == old(r).spec_path(),
            final(r).pos() == old(r).pos(),
            res == starts(self.rules(), old(r).data(), old(r).pos()),
    {
        let rules = self.as_rules();
        is_at_start(&rules, r)
    }

    pub fn is_digit(&self, c: char) -> (b: bool)
        ensures
            b == is_digit_char(Notation::Binary, Case::Any, c),
    {
        is_digit(Notation::Binary, Case::Any, c)
    }
}

/// Recognises a number in the notation if one begins at the position of the
/// reader, and does nothing else.
fn parse_if_starts<R: CharReader>(rules: &NotationRules, sign: Sign, r: &mut R) -> (res: Option<
    ParseResult<LexToken<Number>>,
>)
    requires
        old(r).wf(),
        sign == sign_at(old(r).data(), old(r).pos()),
    ensures
        final(r).wf(),
        final(r).data() == old(r).data(),
        final(r).spec_path() == old(r).spec_path(),
        match starts(rules@, old(r).data(), old(r).pos()) {
            Err(e) => res == Some(Err::<LexToken<Number>, ParseErrorDetail>(ParseErrorDetail::Io(e)))
                && final(r).pos() == old(r).pos(),
            Ok(false) => res is None && final(r).pos() == old(r).pos(),
            Ok(true) => {
                &&& res matches Some(x)
                &&& is_outcome(x, final(r).pos(), simple_outcome(rules@, sign, old(r).data(), old(r).pos()))
                &&& x matches Ok(t) ==> is_token(
                    old(r).data(),
                    t.spec_span(),
                    sign,
                    rules.notation,
                    rules@.prefix.len() as int,
                ) && t.spec_term().spec_sign() == sign && t.spec_term().spec_notation() == rules.notation
            },
        },
{
    reveal(simple_outcome);
    let ghost data = r.data();
    let ghost pos = r.pos();
    match is_at_start(rules, r) {
        Err(e) => Some(Err(ParseErrorDetail::Io(e))),
        Ok(false) => None,
        Ok(true) => {
            proof {
                r.lemma_char_wf();
                if sign !is Absent {
                    lemma_advance_valid(data, pos);
                }
                let at = after_sign(data, pos, sign).offset as int;
                if rules@.prefix.len() == 0 {
                    assert(data.subrange(at, at) =~= rules@.prefix);
                }
            }
            Some(parse_simple_num(rules, sign, r))
        },
    }
}

/// The task that an error names where no notation was recognised.
pub open spec fn number_task() -> Seq<char> {
    "parsing a number literal"@
}

/// The recogniser and converter of number literals, with the rules of each
/// notation.
#[derive(Debug)]
pub struct NumberParser {
    pub decimal: DecimalConfig,
    pub hex: HexConfig,
    pub octal: OctalConfig,
    pub binary: BinaryConfig,
}

/// The first failure among the answers, else whether one of them is yes.
pub open spec fn any_starts(a: IoResult<bool>, b: IoResult<bool>, c: IoResult<bool>, d: IoResult<bool>) -> IoResult<
    bool,
> {
    match a {
        Err(e) => Err(e),
        Ok(true) => Ok(true),
        Ok(false) => match b {
            Err(e) => Err(e),
            Ok(true) => Ok(true),
            Ok(false) => match c {
                Err(e) => Err(e),
                Ok(true) => Ok(true),
                Ok(false) => d,
            },
        },
    }
}

impl NumberParser {
    /// What the recogniser makes of the input at `pos`. The notations are
    /// tried in the order hexadecimal, octal, binary, decimal; the first
    /// that begins at `pos` is the one that the number is read in.
    pub open spec fn recognise(&self, data: Seq<u8>, pos: Position) -> Recognised {
        match read_at(data, pos) {
            Err(error) => Recognised::Io { error, at: pos },
            Ok(None) => Recognised::Eof { at: pos, expected: Expectation::Nothing, task: number_task() },
            Ok(Some(c)) => match starts(self.hex.rules(), data, pos) {
                Err(error) => Recognised::Io { error, at: pos },
                Ok(true) => simple_outcome(self.hex.rules(), sign_of(c), data, pos),
                Ok(false) => match starts(self.octal.rules(), data, pos) {
                    Err(error) => Recognised::Io { error, at: pos },
                    Ok(true) => simple_outcome(self.octal.rules(), sign_of(c), data, pos),
                    Ok(false) => match starts(self.binary.rules(), data, pos) {
                        Err(error) => Recognised::Io { error, at: pos },
                        Ok(true) => simple_outcome(self.binary.rules(), sign_of(c), data, pos),
                        Ok(false) => match decimal_starts(self.decimal, data, pos) {
                            Err(error) => Recognised::Io { error, at: pos },
                            Ok(true) => decimal_outcome(self.decimal, sign_of(c), data, pos),
                            Ok(false) => Recognised::Input {
                                at: pos,
                                found: c,
                                expected: Expectation::Nothing,
                                task: number_task(),
                            },
                        },
                    },
                },
            },
        }
    }

    /// The number of bytes of the prefix of a notation.
    pub open spec fn prefix_len(&self, notation: Notation) -> int {
        match notation {
            Notation::Hex => encode_utf8(self.hex.prefix@).len() as int,
            Notation::Octal => encode_utf8(self.octal.prefix@).len() as int,
            Notation::Binary => encode_utf8(self.binary.prefix@).len() as int,
            _ => 0,
        }
    }

    /// A parser that accepts every notation, with signs and underscores.
    pub fn new() -> (np: NumberParser)
        ensures
            np.decimal.enabled && np.decimal.allow_minus && np.decimal.allow_plus && np.decimal.allow_underscores
                && np.decimal.allow_float && np.decimal.allow_exponent && np.decimal.case is Any,
            np.hex.enabled && np.hex.allow_minus && np.hex.allow_plus && np.hex.allow_underscores && np.hex.case
                is Any && np.hex.prefix@ == "0x"@,
            np.octal.enabled && np.octal.allow_minus && np.octal.allow_plus && np.octal.allow_underscores
                && np.octal.prefix@ == "0o"@,
            np.binary.enabled && np.binary.allow_minus && np.binary.allow_plus && np.binary.allow_underscores
                && np.binary.prefix@ == "0b"@,
    {
        NumberParser {
            decimal: DecimalConfig::new(),
            hex: HexConfig::new(),
            octal: OctalConfig::new(),
            binary: BinaryConfig::new(),
        }
    }

    /// Whether a number in one of the notations begins at the position of
    /// the reader, which does not move.
    pub fn is_at_start<R: CharReader>(&self, r: &mut R) -> (res: IoResult<bool>)
        requires
            old(r).wf(),
        ensures
            final(r).wf(),
            final(r).data() == old(r).data(),
            final(r).spec_path() == old(r).spec_path(),
            final(r).pos() == old(r).pos(),
            res == any_starts(
                starts(self.hex.rules(), old(r).data(), old(r).pos()),
                starts(self.octal.rules(), old(r).data(), old(r).pos()),
                starts(self.binary.rules(), old(r).data(), old(r).pos()),
                decimal_starts(self.decimal, old(r).data(), old(r).pos()),
            ),
    {
        match self.hex.is_at_start(r) {
            Err(e) => {
                return Err(e);
            },
            Ok(true) => {
                return Ok(true);
            },
            Ok(false) => {},
        }
        match self.octal.is_at_start(r) {
            Err(e) => {
                return Err(e);
            },
            Ok(true) => {
                return Ok(true);
            },
            Ok(false) => {},
        }
        match self.binary.is_at_start(r) {
            Err(e) => {
                return Err(e);
            },
            Ok(true) => {
                return Ok(true);
            },
            Ok(false) => {},
        }
        self.decimal.is_at_start(r)
    }

    /// Recognises a hexadecimal number whose sign, if it has one, stands at
    /// the position of the reader, and whose prefix follows.
    pub fn parse_hex<R: CharReader>(&self, sign: Sign, r: &mut R) -> (res: ParseResult<LexToken<Number>>)
        requires
            old(r).wf(),
            sign == sign_at(old(r).data(), old(r).pos()),
            sign_allowed(self.hex.allow_minus, self.hex.allow_plus, sign) ==> bytes_at(
                old(r).data(),
                after_sign(old(r).data(), old(r).pos(), sign).offset as int,
                self.hex.rules().prefix,
            ),
        ensures
            final(r).wf(),
            final(r).data() == old(r).data(),
            final(r).spec_path() == old(r).spec_path(),
            is_outcome(res, final(r).pos(), simple_outcome(self.hex.rules(), sign, old(r).data(), old(r).pos())),
            res matches Ok(t) ==> is_token(
                old(r).data(),
                t.spec_span(),
                sign,
                Notation::Hex,
                self.prefix_len(Notation::Hex),
            ),
    {
        let rules = self.hex.as_rules();
        parse_simple_num(&rules, sign, r)
    }

    /// Recognises an octal number whose sign, if it has one, stands at the
    /// position of the reader, and whose prefix follows.
    pub fn parse_octal<R: CharReader>(&self, sign: Sign, r: &mut R) -> (res: ParseResult<LexToken<Number>>)
        requires
            old(r).wf(),
            sign == sign_at(old(r).data(), old(r).pos()),
            sign_allowed(self.octal.allow_minus, self.octal.allow_plus, sign) ==> bytes_at(
                old(r).data(),
                after_sign(old(r).data(), old(r).pos(), sign).offset as int,
                self.octal.rules().prefix,
            ),
        ensures
            final(r).wf(),
            final(r).data() == old(r).data(),
            final(r).spec_path() == old(r).spec_path(),
            is_outcome(res, final(r).pos(), simple_outcome(self.octal.rules(), sign, old(r).data(), old(r).pos())),
            res matches Ok(t) ==> is_token(
                old(r).data(),
                t.spec_span(),
                sign,
                Notation::Octal,
                self.prefix_len(Notation::Octal),
            ),
    {
        let rules = self.octal.as_rules();
        parse_simple_num(&rules, sign, r)
    }

    /// Recognises a binary number whose sign, if it has one, stands at the
    /// position of the reader, and whose prefix follows.
    pub fn parse_binary<R: CharReader>(&self, sign: Sign, r: &mut R) -> (res: ParseResult<LexToken<Number>>)
        requires
            old(r).wf(),
            sign == sign_at(old(r).data(), old(r).pos()),
            sign_allowed(self.binary.allow_minus, self.binary.allow_plus, sign) ==> bytes_at(
                old(r).data(),
                after_sign(old(r).data(), old(r).pos(), sign).offset as int,
                self.binary.rules().prefix,
            ),
        ensures
            final(r).wf(),
            final(r).data() == old(r).data(),
            final(r).spec_path() == old(r).spec_path(),
            is_outcome(res, final(r).pos(), simple_outcome(self.binary.rules(), sign, old(r).data(), old(r).pos())),
            res matches Ok(t) ==> is_token(
                old(r).data(),
                t.spec_span(),
                sign,
                Notation::Binary,
                self.prefix_len(Notation::Binary),
            ),
    {
        let rules = self.binary.as_rules();
        parse_simple_num(&rules, sign, r)
    }

    /// Recognises a decimal number whose sign, if it has one, stands at the
    /// position of the reader.
    pub fn parse_decimal<R: CharReader>(&self, sign: Sign, r: &mut R) -> (res: ParseResult<LexToken<Number>>)
        requires
            old(r).wf(),
            sign == sign_at(old(r).data(), old(r).pos()),
        ensures
            final(r).wf(),
            final(r).data() == old(r).data(),
            final(r).spec_path() == old(r).spec_path(),
            is_outcome(res, final(r).pos(), decimal_outcome(self.decimal, sign, old(r).data(), old(r).pos())),
            res matches Ok(t) ==> is_token(old(r).data(), t.spec_span(), sign, t.spec_term().spec_notation(), 0),
    {
        parse_decimal(&self.decimal, sign, r)
    }

    /// Recognises the number literal at the position of the reader, and
    /// leaves the reader at its end.
    pub fn parse_number<R: CharReader>(&self, r: &mut R) -> (res: ParseResult<LexToken<Number>>)
        requires
            old(r).wf(),
        ensures
            final(r).wf(),
            final(r).data() == old(r).data(),
            final(r).spec_path() == old(r).spec_path(),
            is_outcome(res, final(r).pos(), self.recognise(old(r).data(), old(r).pos())),
            res matches Ok(t) ==> is_token(
                old(r).data(),
                t.spec_span(),
                t.spec_term().spec_sign(),
                t.spec_term().spec_notation(),
                self.prefix_len(t.spec_term().spec_notation()),
            ),
    {
        let ghost data = r.data();
        let ghost pos = r.pos();
        let start = r.position();
        let c = match r.peek_char(0) {
            Err(e) => {
                return Err(ParseErrorDetail::Io(e));
            },
            Ok(None) => {
                return Err(
                    ParseErrorDetail::UnexpectedEof {
                        pos: start,
                        expected: None,
                        task: "parsing a number literal".to_owned(),
                    },
                );
            },
            Ok(Some(c)) => c,
        };
        let sign = if c == '-' {
            Sign::Minus
        } else if c == '+' {
            Sign::Plus
        } else {
            Sign::Absent
        };
        let rules = self.hex.as_rules();
        match parse_if_starts(&rules, sign, r) {
            Some(res) => {
                return res;
            },
            None => {},
        }
        let rules = self.octal.as_rules();
        match parse_if_starts(&rules, sign, r) {
            Some(res) => {
                return res;
            },
            None => {},
        }
        let rules = self.binary.as_rules();
        match parse_if_starts(&rules, sign, r) {
            Some(res) => {
                return res;
            },
            None => {},
        }
        match self.decimal.is_at_start(r) {
            Err(e) => {
                return Err(ParseErrorDetail::Io(e));
            },
            Ok(true) => {
                return parse_decimal(&self.decimal, sign, r);
            },
            Ok(false) => {},
        }
        Err(
            ParseErrorDetail::UnexpectedInput {
                pos: start,
                found: Some(Input::Char(c)),
                expected: None,
                task: "parsing a number literal".to_owned(),
            },
        )
    }
}

} // verus!
