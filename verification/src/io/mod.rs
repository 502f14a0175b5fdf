//! Source positions and spans, and tokens that carry them.

use vstd::prelude::*;

pub mod bytes;
pub mod decode;
pub mod error;
pub mod fs;
pub mod laws;
pub mod quote;
pub mod reader;

pub use self::error::{ErrorKind, Expected, Input, IoErrorDetail};
pub use self::fs::{FileBuffer, FileType, OpType};
pub use self::quote::Quote;
pub use self::bytes::{ByteReader, MemByteReader};
pub use self::reader::{CharReader, IoResult, MemCharReader, Reader};
use crate::text::{decimal, push_decimal};

verus! {

/// A place in a source buffer: byte offset, line and column, all zero-based.
/// It is printed one-based, as `line:column`.
#[derive(Debug, PartialEq, Eq, Structural, PartialOrd, Ord, Hash, Clone, Copy)]
pub struct Position {
    pub offset: usize,
    pub line: u32,
    pub column: u32,
}

impl Position {
    /// The text of the position: one-based line and column, joined by a colon.
    pub open spec fn spec_text(self) -> Seq<char> {
        decimal((self.line + 1) as nat) + seq![':'] + decimal((self.column + 1) as nat)
    }

    pub fn new() -> (p: Position)
        ensures
            p == (Position { offset: 0, line: 0, column: 0 }),
    {
        Position { offset: 0, line: 0, column: 0 }
    }

    pub fn with(offset: usize, line: u32, column: u32) -> (p: Position)
        ensures
            p == (Position { offset, line, column }),
    {
        Position { offset, line, column }
    }

    pub fn inc_column(&mut self)
        requires
            old(self).column < u32::MAX,
        ensures
            *final(self) == (Position { column: (old(self).column + 1) as u32, ..*old(self) }),
    {
        self.column += 1;
    }

    pub fn inc_line(&mut self)
        requires
            old(self).line < u32::MAX,
        ensures
            *final(self) == (Position { line: (old(self).line + 1) as u32, column: 0, ..*old(self) }),
    {
        self.line += 1;
        self.column = 0;
    }

    /// Appends the text of the position to `out`.
    pub fn write_to(&self, out: &mut String)
        ensures
            final(out)@ == old(out)@ + self.spec_text(),
    {
        push_decimal(out, self.line as u128 + 1);
        out.push(':');
        push_decimal(out, self.column as u128 + 1);
        assert(out@ =~= old(out)@ + self.spec_text());
    }

    pub fn to_string(&self) -> (s: String)
        ensures
            s@ == self.spec_text(),
    {
        let mut s = String::new();
        self.write_to(&mut s);
        assert(s@ =~= self.spec_text());
        s
    }
}

impl Default for Position {
    fn default() -> (p: Position)
        ensures
            p == (Position { offset: 0, line: 0, column: 0 }),
    {
        Position::new()
    }
}

/// A half-open region `[start, end)` of a source buffer.
#[derive(Debug, PartialEq, Eq, Structural, PartialOrd, Ord, Hash, Clone, Copy)]
pub struct Span {
    pub start: Position,
    pub end: Position,
}

impl Span {
    /// The text of the span: `start-end` where it covers several lines, else
    /// the one-based line, a colon, and the two one-based columns joined by a hyphen.
    pub open spec fn spec_text(self) -> Seq<char> {
        if self.start.line != self.end.line {
            self.start.spec_text() + seq!['-'] + self.end.spec_text()
        } else {
            self.start.spec_text() + seq!['-'] + decimal((self.end.column + 1) as nat)
        }
    }

    pub fn new() -> (s: Span)
        ensures
            s.start == (Position { offset: 0, line: 0, column: 0 }),
            s.end == (Position { offset: 0, line: 0, column: 0 }),
    {
        Span { start: Position::new(), end: Position::new() }
    }

    pub fn with(
        start_offset: usize,
        start_line: u32,
        start_column: u32,
        end_offset: usize,
        end_line: u32,
        end_column: u32,
    ) -> (s: Span)
        ensures
            s.start == (Position { offset: start_offset, line: start_line, column: start_column }),
            s.end == (Position { offset: end_offset, line: end_line, column: end_column }),
    {
        let start = Position::with(start_offset, start_line, start_column);
        let end = Position::with(end_offset, end_line, end_column);
        Self::with_pos(start, end)
    }

    pub fn with_pos(start: Position, end: Position) -> (s: Span)
        ensures
            s == (Span { start, end }),
    {
        Span { start, end }
    }

    /// Appends the text of the span to `out`.
    pub fn write_to(&self, out: &mut String)
        ensures
            final(out)@ == old(out)@ + self.spec_text(),
    {
        self.start.write_to(out);
        out.push('-');
        if self.start.line != self.end.line {
            self.end.write_to(out);
        } else {
            push_decimal(out, self.end.column as u128 + 1);
        }
        assert(out@ =~= old(out)@ + self.spec_text());
    }

    pub fn to_string(&self) -> (s: String)
        ensures
            s@ == self.spec_text(),
    {
        let mut s = String::new();
        self.write_to(&mut s);
        assert(s@ =~= self.spec_text());
        s
    }
}

impl Default for Span {
    fn default() -> (s: Span)
        ensures
            s.start == (Position { offset: 0, line: 0, column: 0 }),
            s.end == (Position { offset: 0, line: 0, column: 0 }),
    {
        Span::new()
    }
}

/// Marker for the terminals that tokens carry.
pub trait LexTerm: core::fmt::Debug + PartialEq + Eq + Sync + Send + 'static {
}

/// A terminal together with its place in the source.
#[derive(Debug, Clone, Copy)]
pub struct LexToken<T: LexTerm + Clone + Copy> {
    term: T,
    span: Span,
}

impl<T: LexTerm + Clone + Copy> LexToken<T> {
    pub closed spec fn spec_term(self) -> T {
        self.term
    }

    pub closed spec fn spec_span(self) -> Span {
        self.span
    }

    /// The token of the terminal and the span.
    pub closed spec fn of(term: T, span: Span) -> LexToken<T> {
        LexToken { term, span }
    }

    /// A token is fixed by its terminal and its span: it is the token of the
    /// two, and two tokens of the same terminal and span are equal.
    pub proof fn lemma_fixed(self, other: LexToken<T>)
        ensures
            self == LexToken::of(self.spec_term(), self.spec_span()),
            (self == other) == (self.spec_term() == other.spec_term() && self.spec_span() == other.spec_span()),
    {
    }

    pub fn new(term: T, from: Position, to: Position) -> (t: LexToken<T>)
        ensures
            t == LexToken::of(term, Span { start: from, end: to }),
            t.spec_term() == term,
            t.spec_span() == (Span { start: from, end: to }),
    {
        LexToken { term, span: Span { start: from, end: to } }
    }

    pub fn term(&self) -> (t: T)
        ensures
            t == self.spec_term(),
    {
        self.term
    }

    pub fn start(&self) -> (p: Position)
        ensures
            p == self.spec_span().start,
    {
        self.span.start
    }

    pub fn end(&self) -> (p: Position)
        ensures
            p == self.spec_span().end,
    {
        self.span.end
    }

    pub fn span(&self) -> (s: Span)
        ensures
            s == self.spec_span(),
    {
        self.span
    }
}

} // verus!
