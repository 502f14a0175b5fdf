//! The details of errors raised while parsing.

use vstd::prelude::*;
use crate::detail::{Detail, Severity};
pub use crate::io::error::{Expected, Input};
use crate::io::error::IoErrorDetail;
use crate::io::{Position, Span};

verus! {

/// Why a number literal could not be converted.
#[derive(Debug, Clone, Copy, PartialEq, Eq, Structural)]
pub enum NumericalErrorKind {
    /// The value is greater than the target type can hold.
    Overflow,
    /// The value is less than the target type can hold.
    Underflow,
    /// The text is no number.
    Invalid,
}

impl NumericalErrorKind {
    pub open spec fn spec_text(self) -> Seq<char> {
        match self {
            NumericalErrorKind::Overflow => "overflow"@,
            NumericalErrorKind::Underflow => "underflow"@,
            NumericalErrorKind::Invalid => "invalid format error"@,
        }
    }

    /// The words for the kind, as they stand in messages.
    pub fn text(&self) -> (s: &'static str)
        ensures
            s@ == self.spec_text(),
    {
        match *self {
            NumericalErrorKind::Overflow => "overflow",
            NumericalErrorKind::Underflow => "underflow",
            NumericalErrorKind::Invalid => "invalid format error",
        }
    }
}

/// The detail of an error raised while parsing.
#[derive(Debug, Eq, PartialEq, Clone)]
pub enum ParseErrorDetail {
    /// An error of the reader, unchanged.
    Io(IoErrorDetail),
    UnexpectedEof { pos: Position, expected: Option<Expected>, task: String },
    UnexpectedInput { pos: Position, found: Option<Input>, expected: Option<Expected>, task: String },
    Numerical { span: Span, kind: NumericalErrorKind },
}

/// The clause that names what was expected, empty where nothing is named.
pub open spec fn expecting(expected: Option<Expected>) -> Seq<char> {
    match expected {
        Some(e) => ", expecting "@ + e.spec_text(),
        None => Seq::<char>::empty(),
    }
}

/// The words for what was found, `input` where it is not known.
pub open spec fn found_text(found: Option<Input>) -> Seq<char> {
    match found {
        Some(i) => i.spec_text(),
        None => "input"@,
    }
}

fn push_expecting(out: &mut String, expected: &Option<Expected>)
    ensures
        final(out)@ == old(out)@ + expecting(*expected),
{
    match expected {
        Some(e) => {
            out.push_str(", expecting ");
            e.write_to(out);
        },
        None => {},
    }
    assert(out@ =~= old(out)@ + expecting(*expected));
}

impl ParseErrorDetail {
    pub open spec fn code_of(self) -> u32 {
        match self {
            ParseErrorDetail::Io(err) => err.code_of(),
            ParseErrorDetail::UnexpectedEof { .. } => 40,
            ParseErrorDetail::UnexpectedInput { .. } => 41,
            ParseErrorDetail::Numerical { .. } => 42,
        }
    }

    pub open spec fn message_of(self) -> Seq<char> {
        match self {
            ParseErrorDetail::Io(err) => err.message_of(),
            ParseErrorDetail::UnexpectedEof { pos, expected, task } => "unexpected <EOF> at "@ + pos.spec_text()
                + " while "@ + task@ + expecting(expected),
            ParseErrorDetail::UnexpectedInput { pos, found, expected, task } => "unexpected "@ + found_text(found)
                + " at "@ + pos.spec_text() + " while "@ + task@ + expecting(expected),
            ParseErrorDetail::Numerical { span, kind } => kind.spec_text() + " while converting number literal at "@
                + span.spec_text(),
        }
    }

    /// Appends the message of the detail to `out`.
    pub fn write_to(&self, out: &mut String)
        ensures
            final(out)@ == old(out)@ + self.message_of(),
    {
        match self {
            ParseErrorDetail::Io(err) => {
                err.write_to(out);
            },
            ParseErrorDetail::UnexpectedEof { pos, expected, task } => {
                out.push_str("unexpected <EOF> at ");
                pos.write_to(out);
                out.push_str(" while ");
                out.push_str(task.as_str());
                push_expecting(out, expected);
            },
            ParseErrorDetail::UnexpectedInput { pos, found, expected, task } => {
                out.push_str("unexpected ");
                match found {
                    Some(i) => {
                        i.write_to(out);
                    },
                    None => {
                        out.push_str("input");
                    },
                }
                out.push_str(" at ");
                pos.write_to(out);
                out.push_str(" while ");
                out.push_str(task.as_str());
                push_expecting(out, expected);
            },
            ParseErrorDetail::Numerical { span, kind } => {
                out.push_str(kind.text());
                out.push_str(" while converting number literal at ");
                span.write_to(out);
            },
        }
        assert(out@ =~= old(out)@ + self.message_of());
    }

    /// The detail that stands for an error of the reader.
    pub fn from_io(err: IoErrorDetail) -> (e: ParseErrorDetail)
        ensures
            e == ParseErrorDetail::Io(err),
    {
        ParseErrorDetail::Io(err)
    }
}

impl Detail for ParseErrorDetail {
    open spec fn spec_severity(&self) -> Severity {
        Severity::Failure
    }

    open spec fn spec_code(&self) -> u32 {
        self.code_of()
    }

    open spec fn spec_message(&self) -> Seq<char> {
        self.message_of()
    }

    fn severity(&self) -> (s: Severity) {
        Severity::Failure
    }

    fn code(&self) -> (c: u32) {
        match self {
            ParseErrorDetail::Io(err) => err.code(),
            ParseErrorDetail::UnexpectedEof { .. } => 40,
            ParseErrorDetail::UnexpectedInput { .. } => 41,
            ParseErrorDetail::Numerical { .. } => 42,
        }
    }

    fn message(&self) -> (m: String) {
        let mut m = String::new();
        self.write_to(&mut m);
        assert(m@ =~= self.message_of());
        m
    }
}

} // verus!
