//! What a parser met and what it would have accepted, and the details of
//! errors raised while reading.

use vstd::prelude::*;
use crate::detail::{Detail, Severity};
use crate::io::fs::{FileType, OpType};
use crate::io::Position;
use crate::text::{hex_byte, push_hex_byte};

verus! {

/// The text that the standard library's debug formatting gives a character:
/// the character between single quotes, escaped where it is not printable.
pub uninterp spec fn char_debug(c: char) -> Seq<char>;

/// The debug formatting of `c`, as `format!("{:?}", c)` yields it.
#[verifier::external_body]
pub(crate) fn char_debug_text(c: char) -> (s: String)
    ensures
        s@ == char_debug(c),
{
    format!("{:?}", c)
}

/// Appends the debug formatting of `c`.
pub(crate) fn push_char_debug(out: &mut String, c: char)
    ensures
        final(out)@ == old(out)@ + char_debug(c),
{
    let text = char_debug_text(c);
    out.push_str(text.as_str());
}

/// The texts of a list joined by a comma and a space.
pub open spec fn join_comma(items: Seq<Seq<char>>) -> Seq<char>
    decreases items.len(),
{
    if items.len() == 0 {
        Seq::<char>::empty()
    } else if items.len() == 1 {
        items[0]
    } else {
        join_comma(items.drop_last()) + ", "@ + items.last()
    }
}

/// The views of a sequence of strings.
pub open spec fn string_views(items: Seq<String>) -> Seq<Seq<char>> {
    Seq::new(items.len(), |i: int| items[i]@)
}

/// The text that `kg_display::ListDisplay` displays for `items`: each item
/// in turn, a comma and a space between two neighbours.
#[verifier::external_body]
pub(crate) fn list_display(items: &Vec<String>) -> (s: String)
    ensures
        s@ == join_comma(string_views(items@)),
{
    format!("{}", kg_display::ListDisplay(items.as_slice()))
}

/// The input that a parser found where it expected something else.
#[derive(Debug, Eq, PartialEq, PartialOrd, Ord, Clone)]
pub enum Input {
    Byte(u8),
    Char(char),
    Custom(String),
}

impl Input {
    pub open spec fn spec_text(self) -> Seq<char> {
        match self {
            Input::Byte(b) => "byte 0x"@ + hex_byte(b),
            Input::Char(c) => "character "@ + char_debug(c),
            Input::Custom(s) => s@,
        }
    }

    /// Appends the description of the input to `out`.
    pub fn write_to(&self, out: &mut String)
        ensures
            final(out)@ == old(out)@ + self.spec_text(),
    {
        match self {
            Input::Byte(b) => {
                out.push_str("byte 0x");
                push_hex_byte(out, *b);
            },
            Input::Char(c) => {
                out.push_str("character ");
                push_char_debug(out, *c);
            },
            Input::Custom(s) => {
                out.push_str(s.as_str());
            },
        }
        assert(out@ =~= old(out)@ + self.spec_text());
    }

    pub fn to_string(&self) -> (s: String)
        ensures
            s@ == self.spec_text(),
    {
        let mut s = String::new();
        self.write_to(&mut s);
        assert(s@ =~= self.spec_text());
        s
    }
}

/// What a parser would have accepted at the point of failure.
#[derive(Debug, Eq, PartialEq, PartialOrd, Ord)]
pub enum Expected {
    Byte(u8),
    ByteRange(u8, u8),
    Char(char),
    CharRange(char, char),
    Custom(String),
    OneOf(Vec<Expected>),
    Or(Box<Expected>, Box<Expected>),
}

/// The list in the order that the derived ordering of `Expected` gives it.
pub uninterp spec fn sorted_expected(elems: Seq<Expected>) -> Seq<Expected>;

/// Sorts the list with `slice::sort`, by the derived ordering of `Expected`:
/// the outcome depends on the list alone and holds the same items as it.
#[verifier::external_body]
pub(crate) fn sort_expected(elems: &mut Vec<Expected>)
    ensures
        final(elems)@ == sorted_expected(old(elems)@),
        final(elems)@.to_multiset() == old(elems)@.to_multiset(),
{
    elems.sort();
}

/// The texts of the items of a list of expectations.
pub open spec fn expected_texts(elems: Seq<Expected>) -> Seq<Seq<char>>
    decreases elems,
{
    if elems.len() == 0 {
        Seq::<Seq<char>>::empty()
    } else {
        expected_texts(elems.drop_last()).push(elems.last().spec_text())
    }
}

/// Whether `e` is the one expectation that stands for the list: the item
/// itself where the list holds exactly one, else the sorted list.
pub open spec fn is_one_of(e: Expected, elems: Seq<Expected>) -> bool {
    &&& elems.len() == 1 ==> e == elems[0]
    &&& elems.len() != 1 ==> (e matches Expected::OneOf(v) && v@ == sorted_expected(elems) && v@.to_multiset()
        == elems.to_multiset())
}

impl Expected {
    pub open spec fn spec_text(self) -> Seq<char>
        decreases self,
    {
        match self {
            Expected::Byte(b) => "0x"@ + hex_byte(b),
            Expected::ByteRange(a, b) => "[0x"@ + hex_byte(a) + "-0x"@ + hex_byte(b) + "]"@,
            Expected::Char(c) => char_debug(c),
            Expected::CharRange(a, b) => "["@ + char_debug(a) + "-"@ + char_debug(b) + "]"@,
            Expected::Custom(s) => s@,
            Expected::OneOf(elems) => "one of: "@ + join_comma(expected_texts(elems@)),
            Expected::Or(a, b) => a.spec_text() + " or "@ + b.spec_text(),
        }
    }

    /// Whether the two expectations are of the same form and name the same
    /// bytes, characters and texts, part by part.
    pub open spec fn same(self, other: Expected) -> bool
        decreases self,
    {
        match (self, other) {
            (Expected::Byte(a), Expected::Byte(b)) => a == b,
            (Expected::ByteRange(a, b), Expected::ByteRange(c, d)) => a == c && b == d,
            (Expected::Char(a), Expected::Char(b)) => a == b,
            (Expected::CharRange(a, b), Expected::CharRange(c, d)) => a == c && b == d,
            (Expected::Custom(a), Expected::Custom(b)) => a@ == b@,
            (Expected::OneOf(a), Expected::OneOf(b)) => a@.len() == b@.len() && forall|i: int|
                0 <= i < a@.len() ==> (#[trigger] a@[i]).same(b@[i]),
            (Expected::Or(a, b), Expected::Or(c, d)) => a.same(*c) && b.same(*d),
            _ => false,
        }
    }

    /// A copy of the expectation.
    pub fn duplicate(&self) -> (e: Expected)
        ensures
            self.same(e),
            e.spec_text() == self.spec_text(),
        decreases self,
    {
        match self {
            Expected::Byte(b) => Expected::Byte(*b),
            Expected::ByteRange(a, b) => Expected::ByteRange(*a, *b),
            Expected::Char(c) => Expected::Char(*c),
            Expected::CharRange(a, b) => Expected::CharRange(*a, *b),
            Expected::Custom(s) => Expected::Custom(s.clone()),
            Expected::OneOf(elems) => {
                let mut copy: Vec<Expected> = Vec::new();
                let mut i: usize = 0;
                proof {
                    vstd::std_specs::vec::axiom_vec_decreases_to_view(*elems);
                }
                while i < elems.len()
                    invariant
                        i <= elems.len(),
                        decreases_to!(*self => elems@),
                        copy@.len() == i,
                        forall|k: int| 0 <= k < i ==> (#[trigger] elems@[k]).same(copy@[k]),
                        expected_texts(copy@) == expected_texts(elems@.subrange(0, i as int)),
                    decreases elems.len() - i,
                {
                    let ghost before = copy@;
                    proof {
                        assert(decreases_to!(elems@ => elems@[i as int]));
                    }
                    let e = elems[i].duplicate();
                    copy.push(e);
                    proof {
                        let next = elems@.subrange(0, i + 1);
                        assert(next.drop_last() =~= elems@.subrange(0, i as int));
                        assert(copy@.drop_last() =~= before);
                    }
                    i = i + 1;
                }
                assert(elems@.subrange(0, i as int) =~= elems@);
                Expected::OneOf(copy)
            },
            Expected::Or(a, b) => Expected::Or(Box::new(a.duplicate()), Box::new(b.duplicate())),
        }
    }

    /// One expectation out of a list: the item itself where the list holds
    /// exactly one, else the sorted list.
    pub fn one_of(elems: Vec<Expected>) -> (e: Expected)
        ensures
            is_one_of(e, elems@),
    {
        let mut elems = elems;
        if elems.len() == 1 {
            match elems.pop() {
                Some(e) => e,
                None => Expected::OneOf(elems),
            }
        } else {
            sort_expected(&mut elems);
            Expected::OneOf(elems)
        }
    }

    /// Appends the description of the expectation to `out`.
    pub fn write_to(&self, out: &mut String)
        ensures
            final(out)@ == old(out)@ + self.spec_text(),
        decreases self,
    {
        match self {
            Expected::Byte(b) => {
                out.push_str("0x");
                push_hex_byte(out, *b);
            },
            Expected::ByteRange(a, b) => {
                out.push_str("[0x");
                push_hex_byte(out, *a);
                out.push_str("-0x");
                push_hex_byte(out, *b);
                out.push_str("]");
            },
            Expected::Char(c) => {
                push_char_debug(out, *c);
            },
            Expected::CharRange(a, b) => {
                out.push_str("[");
                push_char_debug(out, *a);
                out.push_str("-");
                push_char_debug(out, *b);
                out.push_str("]");
            },
            Expected::Custom(s) => {
                out.push_str(s.as_str());
            },
            Expected::OneOf(elems) => {
                out.push_str("one of: ");
                let mut texts: Vec<String> = Vec::new();
                let mut i: usize = 0;
                proof {
                    vstd::std_specs::vec::axiom_vec_decreases_to_view(*elems);
                }
                while i < elems.len()
                    invariant
                        i <= elems.len(),
                        decreases_to!(*self => elems@),
                        string_views(texts@) == expected_texts(elems@.subrange(0, i as int)),
                    decreases elems.len() - i,
                {
                    let mut t = String::new();
                    proof {
                        assert(decreases_to!(elems@ => elems@[i as int]));
                    }
                    elems[i].write_to(&mut t);
                    texts.push(t);
                    proof {
                        let prev = elems@.subrange(0, i as int);
                        let next = elems@.subrange(0, i + 1);
                        assert(next.drop_last() =~= prev);
                        assert(next.last() == elems@[i as int]);
                        assert(string_views(texts@) =~= expected_texts(next));
                    }
                    i = i + 1;
                }
                assert(elems@.subrange(0, i as int) =~= elems@);
                let joined = list_display(&texts);
                out.push_str(joined.as_str());
            },
            Expected::Or(a, b) => {
                a.write_to(out);
                out.push_str(" or ");
                b.write_to(out);
            },
        }
        assert(out@ =~= old(out)@ + self.spec_text());
    }

    pub fn to_string(&self) -> (s: String)
        ensures
            s@ == self.spec_text(),
    {
        let mut s = String::new();
        self.write_to(&mut s);
        assert(s@ =~= self.spec_text());
        s
    }
}

impl Clone for Expected {
    fn clone(&self) -> (e: Expected)
        ensures
            self.same(e),
            e.spec_text() == self.spec_text(),
    {
        self.duplicate()
    }
}

/// The kind of an I/O error, after the kinds that the operating system reports.
#[derive(Debug, Clone, Copy, PartialEq, Eq, Structural, Hash)]
pub enum ErrorKind {
    NotFound,
    PermissionDenied,
    ConnectionRefused,
    ConnectionReset,
    ConnectionAborted,
    NotConnected,
    AddrInUse,
    AddrNotAvailable,
    BrokenPipe,
    AlreadyExists,
    WouldBlock,
    InvalidInput,
    InvalidData,
    TimedOut,
    WriteZero,
    Interrupted,
    Other,
    UnexpectedEof,
}

impl ErrorKind {
    /// The place of the kind in the list of kinds, `NotFound` being 0.
    pub open spec fn spec_index(self) -> u32 {
        match self {
            ErrorKind::NotFound => 0,
            ErrorKind::PermissionDenied => 1,
            ErrorKind::ConnectionRefused => 2,
            ErrorKind::ConnectionReset => 3,
            ErrorKind::ConnectionAborted => 4,
            ErrorKind::NotConnected => 5,
            ErrorKind::AddrInUse => 6,
            ErrorKind::AddrNotAvailable => 7,
            ErrorKind::BrokenPipe => 8,
            ErrorKind::AlreadyExists => 9,
            ErrorKind::WouldBlock => 10,
            ErrorKind::InvalidInput => 11,
            ErrorKind::InvalidData => 12,
            ErrorKind::TimedOut => 13,
            ErrorKind::WriteZero => 14,
            ErrorKind::Interrupted => 15,
            ErrorKind::Other => 16,
            ErrorKind::UnexpectedEof => 17,
        }
    }

    pub open spec fn spec_text(self) -> Seq<char> {
        match self {
            ErrorKind::NotFound => "not found"@,
            ErrorKind::PermissionDenied => "permission denied"@,
            ErrorKind::ConnectionRefused => "connection refused"@,
            ErrorKind::ConnectionReset => "connection reset"@,
            ErrorKind::ConnectionAborted => "connection aborted"@,
            ErrorKind::NotConnected => "not connected"@,
            ErrorKind::AddrInUse => "address in use"@,
            ErrorKind::AddrNotAvailable => "address not available"@,
            ErrorKind::BrokenPipe => "broken pipe"@,
            ErrorKind::AlreadyExists => "already exists"@,
            ErrorKind::WouldBlock => "operation would block"@,
            ErrorKind::InvalidInput => "invalid input parameter"@,
            ErrorKind::InvalidData => "invalid data"@,
            ErrorKind::TimedOut => "timed out"@,
            ErrorKind::WriteZero => "write zero"@,
            ErrorKind::Interrupted => "operation interrupted"@,
            ErrorKind::Other => "other os error"@,
            ErrorKind::UnexpectedEof => "unexpected end of file"@,
        }
    }

    pub fn index(&self) -> (n: u32)
        ensures
            n == self.spec_index(),
    {
        match *self {
            ErrorKind::NotFound => 0,
            ErrorKind::PermissionDenied => 1,
            ErrorKind::ConnectionRefused => 2,
            ErrorKind::ConnectionReset => 3,
            ErrorKind::ConnectionAborted => 4,
            ErrorKind::NotConnected => 5,
            ErrorKind::AddrInUse => 6,
            ErrorKind::AddrNotAvailable => 7,
            ErrorKind::BrokenPipe => 8,
            ErrorKind::AlreadyExists => 9,
            ErrorKind::WouldBlock => 10,
            ErrorKind::InvalidInput => 11,
            ErrorKind::InvalidData => 12,
            ErrorKind::TimedOut => 13,
            ErrorKind::WriteZero => 14,
            ErrorKind::Interrupted => 15,
            ErrorKind::Other => 16,
            ErrorKind::UnexpectedEof => 17,
        }
    }

    /// The words for the kind, as they stand in messages.
    pub fn text(&self) -> (s: &'static str)
        ensures
            s@ == self.spec_text(),
    {
        match *self {
            ErrorKind::NotFound => "not found",
            ErrorKind::PermissionDenied => "permission denied",
            ErrorKind::ConnectionRefused => "connection refused",
            ErrorKind::ConnectionReset => "connection reset",
            ErrorKind::ConnectionAborted => "connection aborted",
            ErrorKind::NotConnected => "not connected",
            ErrorKind::AddrInUse => "address in use",
            ErrorKind::AddrNotAvailable => "address not available",
            ErrorKind::BrokenPipe => "broken pipe",
            ErrorKind::AlreadyExists => "already exists",
            ErrorKind::WouldBlock => "operation would block",
            ErrorKind::InvalidInput => "invalid input parameter",
            ErrorKind::InvalidData => "invalid data",
            ErrorKind::TimedOut => "timed out",
            ErrorKind::WriteZero => "write zero",
            ErrorKind::Interrupted => "operation interrupted",
            ErrorKind::Other => "other os error",
            ErrorKind::UnexpectedEof => "unexpected end of file",
        }
    }
}

/// The detail of an error raised while reading: by the operating system, by
/// the UTF-8 decoding, or by input that was not expected.
#[derive(Debug, Eq, PartialEq, Clone)]
pub enum IoErrorDetail {
    Io { kind: ErrorKind, message: String },
    IoPath { kind: ErrorKind, op_type: OpType, file_type: FileType, path: String },
    CurrentDirGet { kind: ErrorKind },
    CurrentDirSet { kind: ErrorKind, path: String },
    Utf8InvalidEncoding { pos: Position, len: usize },
    UnexpectedEof { pos: Position, expected: Option<Box<Expected>>, task: String },
    UnexpectedInput { pos: Position, found: Input, expected: Option<Box<Expected>>, task: String },
    Fmt,
}

/// The clause that names what was expected, empty where nothing is named.
pub open spec fn expecting_clause(expected: Option<Box<Expected>>) -> Seq<char> {
    match expected {
        Some(e) => ", expecting "@ + e.spec_text(),
        None => Seq::<char>::empty(),
    }
}

fn push_expecting_clause(out: &mut String, expected: &Option<Box<Expected>>)
    ensures
        final(out)@ == old(out)@ + expecting_clause(*expected),
{
    match expected {
        Some(e) => {
            out.push_str(", expecting ");
            e.write_to(out);
        },
        None => {},
    }
    assert(out@ =~= old(out)@ + expecting_clause(*expected));
}

impl IoErrorDetail {
    pub open spec fn spec_kind(self) -> ErrorKind {
        match self {
            IoErrorDetail::Io { kind, .. } => kind,
            IoErrorDetail::IoPath { kind, .. } => kind,
            IoErrorDetail::CurrentDirGet { kind } => kind,
            IoErrorDetail::CurrentDirSet { kind, .. } => kind,
            IoErrorDetail::Utf8InvalidEncoding { .. } => ErrorKind::InvalidData,
            IoErrorDetail::UnexpectedEof { .. } => ErrorKind::UnexpectedEof,
            IoErrorDetail::UnexpectedInput { .. } => ErrorKind::InvalidData,
            IoErrorDetail::Fmt => ErrorKind::Other,
        }
    }

    pub open spec fn code_of(self) -> u32 {
        match self {
            IoErrorDetail::Io { kind, .. } => (1 + kind.spec_index()) as u32,
            IoErrorDetail::IoPath { kind, .. } => (1 + kind.spec_index()) as u32,
            IoErrorDetail::CurrentDirGet { kind } => (1 + kind.spec_index()) as u32,
            IoErrorDetail::CurrentDirSet { kind, .. } => (1 + kind.spec_index()) as u32,
            IoErrorDetail::Utf8InvalidEncoding { .. } => 21,
            IoErrorDetail::UnexpectedEof { .. } => 22,
            IoErrorDetail::UnexpectedInput { .. } => 23,
            IoErrorDetail::Fmt => 99,
        }
    }

    pub open spec fn message_of(self) -> Seq<char> {
        match self {
            IoErrorDetail::Io { kind, message } => if message@.len() == 0 {
                kind.spec_text()
            } else {
                kind.spec_text() + ": "@ + message@
            },
            IoErrorDetail::IoPath { kind, op_type, file_type, path } => "cannot "@ + op_type.spec_text() + " "@
                + file_type.spec_text() + " '"@ + path@ + "': "@ + kind.spec_text(),
            IoErrorDetail::CurrentDirGet { kind } => "cannot get current dir: "@ + kind.spec_text(),
            IoErrorDetail::CurrentDirSet { kind, path } => "cannot set current dir to "@ + path@ + ": "@
                + kind.spec_text(),
            IoErrorDetail::Utf8InvalidEncoding { pos, len } => "invalid utf-8 encoding at "@ + pos.spec_text()
                + " (offset "@ + crate::text::decimal(pos.offset as nat) + ")"@,
            IoErrorDetail::UnexpectedEof { pos, expected, task } => "unexpected end of input at "@
                + pos.spec_text() + " while "@ + task@ + expecting_clause(expected),
            IoErrorDetail::UnexpectedInput { pos, found, expected, task } => "unexpected "@ + found.spec_text()
                + " at "@ + pos.spec_text() + " while "@ + task@ + expecting_clause(expected),
            IoErrorDetail::Fmt => "formatting error"@,
        }
    }

    pub fn kind(&self) -> (k: ErrorKind)
        ensures
            k == self.spec_kind(),
    {
        match self {
            IoErrorDetail::Io { kind, .. } => *kind,
            IoErrorDetail::IoPath { kind, .. } => *kind,
            IoErrorDetail::CurrentDirGet { kind } => *kind,
            IoErrorDetail::CurrentDirSet { kind, .. } => *kind,
            IoErrorDetail::Utf8InvalidEncoding { .. } => ErrorKind::InvalidData,
            IoErrorDetail::UnexpectedEof { .. } => ErrorKind::UnexpectedEof,
            IoErrorDetail::UnexpectedInput { .. } => ErrorKind::InvalidData,
            IoErrorDetail::Fmt => ErrorKind::Other,
        }
    }

    pub fn file_not_found(path: String, op_type: OpType) -> (e: IoErrorDetail)
        ensures
            e == (IoErrorDetail::IoPath { kind: ErrorKind::NotFound, file_type: FileType::File, op_type, path }),
    {
        IoErrorDetail::IoPath { kind: ErrorKind::NotFound, file_type: FileType::File, op_type, path }
    }

    /// Appends the message of the detail to `out`.
    pub fn write_to(&self, out: &mut String)
        ensures
            final(out)@ == old(out)@ + self.message_of(),
    {
        match self {
            IoErrorDetail::Io { kind, message } => {
                out.push_str(kind.text());
                if message.as_str().unicode_len() != 0 {
                    out.push_str(": ");
                    out.push_str(message.as_str());
                }
            },
            IoErrorDetail::IoPath { kind, op_type, file_type, path } => {
                out.push_str("cannot ");
                out.push_str(op_type.text());
                out.push_str(" ");
                out.push_str(file_type.text());
                out.push_str(" '");
                out.push_str(path.as_str());
                out.push_str("': ");
                out.push_str(kind.text());
            },
            IoErrorDetail::CurrentDirGet { kind } => {
                out.push_str("cannot get current dir: ");
                out.push_str(kind.text());
            },
            IoErrorDetail::CurrentDirSet { kind, path } => {
                out.push_str("cannot set current dir to ");
                out.push_str(path.as_str());
                out.push_str(": ");
                out.push_str(kind.text());
            },
            IoErrorDetail::Utf8InvalidEncoding { pos, .. } => {
                out.push_str("invalid utf-8 encoding at ");
                pos.write_to(out);
                out.push_str(" (offset ");
                crate::text::push_decimal(out, pos.offset as u128);
                out.push_str(")");
            },
            IoErrorDetail::UnexpectedEof { pos, expected, task } => {
                out.push_str("unexpected end of input at ");
                pos.write_to(out);
                out.push_str(" while ");
                out.push_str(task.as_str());
                push_expecting_clause(out, expected);
            },
            IoErrorDetail::UnexpectedInput { pos, found, expected, task } => {
                out.push_str("unexpected ");
                found.write_to(out);
                out.push_str(" at ");
                pos.write_to(out);
                out.push_str(" while ");
                out.push_str(task.as_str());
                push_expecting_clause(out, expected);
            },
            IoErrorDetail::Fmt => {
                out.push_str("formatting error");
            },
        }
        assert(out@ =~= old(out)@ + self.message_of());
    }
}

impl Detail for IoErrorDetail {
    open spec fn spec_severity(&self) -> Severity {
        Severity::Failure
    }

    open spec fn spec_code(&self) -> u32 {
        self.code_of()
    }

    open spec fn spec_message(&self) -> Seq<char> {
        self.message_of()
    }

    fn severity(&self) -> (s: Severity) {
        Severity::Failure
    }

    fn code(&self) -> (c: u32) {
        match self {
            IoErrorDetail::Io { kind, .. } => 1 + kind.index(),
            IoErrorDetail::IoPath { kind, .. } => 1 + kind.index(),
            IoErrorDetail::CurrentDirGet { kind } => 1 + kind.index(),
            IoErrorDetail::CurrentDirSet { kind, .. } => 1 + kind.index(),
            IoErrorDetail::Utf8InvalidEncoding { .. } => 21,
            IoErrorDetail::UnexpectedEof { .. } => 22,
            IoErrorDetail::UnexpectedInput { .. } => 23,
            IoErrorDetail::Fmt => 99,
        }
    }

    fn message(&self) -> (m: String) {
        let mut m = String::new();
        self.write_to(&mut m);
        assert(m@ =~= self.message_of());
        m
    }
}

} // verus!
