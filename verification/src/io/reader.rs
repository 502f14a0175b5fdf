//! Readers over in-memory buffers that track the position of what they read.

use vstd::prelude::*;
use vstd::utf8::*;
use vstd::string::StringSliceAdditionalSpecFns;
use crate::io::decode::{
    advance, decode, decode_at, lemma_advance_valid, lemma_position_of, lemma_region_first, position_after,
    position_of, valid_position, Decoded,
};
use crate::io::error::IoErrorDetail;
use crate::io::quote::{is_quote_of, quotable, Quote};
use crate::io::Position;

verus! {

pub type IoResult<T> = Result<T, IoErrorDetail>;

/// `core::str::from_utf8` succeeds exactly on well-formed UTF-8, and then
/// gives the text that those bytes encode.
pub assume_specification<'a>[ core::str::from_utf8 ](v: &'a [u8]) -> (r: Result<&'a str, core::str::Utf8Error>)
    ensures
        r is Ok <==> valid_utf8(v@),
        r matches Ok(s) ==> s.spec_bytes() == v@,
;

/// The error of an attempt to read text from bytes that are not UTF-8.
#[verifier::external_type_specification]
#[verifier::external_body]
pub struct ExUtf8Error(core::str::Utf8Error);

/// The detail of a decoding failure at `pos`, where `len` bytes were attempted.
pub open spec fn encoding_error(pos: Position, len: int) -> IoErrorDetail {
    IoErrorDetail::Utf8InvalidEncoding { pos, len: len as usize }
}

/// The position that the next read decodes at: past the scalar that the
/// reader holds, where it holds one.
pub open spec fn read_position(data: Seq<u8>, pos: Position, pending: bool) -> Position {
    if pending {
        position_after(data, pos)
    } else {
        pos
    }
}

/// What decoding at `pos` gives a reader.
pub open spec fn read_at(data: Seq<u8>, pos: Position) -> IoResult<Option<char>> {
    match decode_at(data, pos.offset as int) {
        Decoded::End => Ok(None),
        Decoded::Scalar(c, _) => Ok(Some(c)),
        Decoded::Invalid(n) => Err(encoding_error(pos, n)),
    }
}

/// The scalar `k` places after the one at `pos`, with its position.
pub open spec fn peek_at(data: Seq<u8>, pos: Position, k: nat) -> IoResult<Option<(char, Position)>>
    decreases k,
{
    match decode_at(data, pos.offset as int) {
        Decoded::End => Ok(None),
        Decoded::Invalid(n) => Err(encoding_error(pos, n)),
        Decoded::Scalar(c, len) => if k == 0 {
            Ok(Some((c, pos)))
        } else {
            peek_at(data, advance(pos, c, len), (k - 1) as nat)
        },
    }
}

/// The first component of a peeked pair, where there is one.
pub open spec fn peeked_char(r: IoResult<Option<(char, Position)>>) -> IoResult<Option<char>> {
    match r {
        Ok(Some((c, _))) => Ok(Some(c)),
        Ok(None) => Ok(None),
        Err(e) => Err(e),
    }
}

/// The outcome of `n` reads in a row, the first failure ending them: the
/// result, and the position and holding state that the reader is left in.
pub open spec fn skip_outcome(data: Seq<u8>, pos: Position, pending: bool, n: nat) -> (
    IoResult<()>,
    Position,
    bool,
)
    decreases n,
{
    if n == 0 {
        (Ok(()), pos, pending)
    } else {
        let p = read_position(data, pos, pending);
        match decode_at(data, p.offset as int) {
            Decoded::Invalid(k) => (Err(encoding_error(p, k)), p, false),
            Decoded::End => skip_outcome(data, p, false, (n - 1) as nat),
            Decoded::Scalar(_, _) => skip_outcome(data, p, true, (n - 1) as nat),
        }
    }
}

/// True when `needle` stands in `data` at offset `o`.
pub open spec fn bytes_at(data: Seq<u8>, o: int, needle: Seq<u8>) -> bool {
    &&& 0 <= o
    &&& o + needle.len() <= data.len()
    &&& data.subrange(o, o + needle.len()) == needle
}

/// What holds of every reader of characters: the buffer is small enough for
/// lines and columns to be counted, the position is that of a scalar
/// boundary, and a scalar that the reader holds stands at the position.
pub open spec fn char_reader_inv(data: Seq<u8>, pos: Position, pending: bool) -> bool {
    &&& data.len() <= u32::MAX
    &&& valid_position(data, pos)
    &&& pending ==> decode_at(data, pos.offset as int) is Scalar
}

/// The common contract of byte and character readers.
pub trait Reader: Sized {
    /// The buffer that the reader reads.
    spec fn data(&self) -> Seq<u8>;

    /// The position of the reader.
    spec fn pos(&self) -> Position;

    /// True when the reader holds decoding state for the scalar at its position.
    spec fn pending(&self) -> bool;

    /// The path that the buffer came from, if it is known.
    spec fn spec_path(&self) -> Option<Seq<char>>;

    /// The invariant of the reader.
    spec fn wf(&self) -> bool;

    proof fn lemma_wf(&self)
        requires
            self.wf(),
        ensures
            self.data().len() <= u32::MAX,
            self.pos().offset <= self.data().len(),
    ;

    fn path(&self) -> (p: Option<&str>)
        ensures
            p is Some == self.spec_path() is Some,
            p matches Some(s) ==> s@ == self.spec_path()->0,
    ;

    fn len(&self) -> (n: Option<usize>)
        requires
            self.wf(),
        ensures
            n == Some(self.data().len() as usize),
    ;

    fn eof(&self) -> (b: bool)
        requires
            self.wf(),
        ensures
            b == (self.pos().offset >= self.data().len()),
    ;

    fn position(&self) -> (p: Position)
        requires
            self.wf(),
        ensures
            p == self.pos(),
    ;

    /// Whether a reader of the buffer can be moved to the position: whether
    /// the position is one that such a reader can be observed at.
    spec fn seekable(data: Seq<u8>, pos: Position) -> bool;

    /// The position of the reader is one that a reader can be moved to.
    proof fn lemma_seekable(&self)
        requires
            self.wf(),
        ensures
            Self::seekable(self.data(), self.pos()),
    ;

    /// The position of a scalar boundary is one that a reader can be moved to.
    proof fn lemma_boundary_seekable(data: Seq<u8>, pos: Position)
        requires
            data.len() <= u32::MAX,
            valid_position(data, pos),
        ensures
            Self::seekable(data, pos),
    ;

    /// Moves the reader to a position that was observed on this buffer. The
    /// reader then holds no scalar; a reader of bytes that is moved into a
    /// scalar is in the state of one that has read the bytes of the scalar
    /// before the position.
    fn seek(&mut self, pos: Position) -> (r: IoResult<()>)
        requires
            old(self).wf(),
            Self::seekable(old(self).data(), pos),
        ensures
            r is Ok,
            final(self).wf(),
            final(self).data() == old(self).data(),
            final(self).spec_path() == old(self).spec_path(),
            final(self).pos() == pos,
            valid_position(old(self).data(), pos) ==> !final(self).pending(),
    ;

    /// The whole buffer as text.
    fn input(&mut self) -> (r: IoResult<&str>)
        requires
            old(self).wf(),
            valid_utf8(old(self).data()),
        ensures
            r matches Ok(s) && s.spec_bytes() == old(self).data() && s@ == decode_utf8(old(self).data()),
            *final(self) == *old(self),
    ;

    /// The text between two byte offsets.
    fn slice(&mut self, start: usize, end: usize) -> (r: IoResult<&str>)
        requires
            old(self).wf(),
            start <= end <= old(self).data().len(),
            valid_utf8(old(self).data().subrange(start as int, end as int)),
        ensures
            r matches Ok(s) && s.spec_bytes() == old(self).data().subrange(start as int, end as int) && s@
                == decode_utf8(old(self).data().subrange(start as int, end as int)),
            *final(self) == *old(self),
    ;

    /// The text between the offsets of two positions.
    fn slice_pos(&mut self, from: Position, to: Position) -> (r: IoResult<&str>)
        requires
            old(self).wf(),
            from.offset <= to.offset <= old(self).data().len(),
            valid_utf8(old(self).data().subrange(from.offset as int, to.offset as int)),
        ensures
            r matches Ok(s) && s.spec_bytes() == old(self).data().subrange(from.offset as int, to.offset as int)
                && s@ == decode_utf8(old(self).data().subrange(from.offset as int, to.offset as int)),
            *final(self) == *old(self),
    {
        self.slice(from.offset, to.offset)
    }

    /// The quote of the span from `from` to `to` of the buffer.
    fn quote(&mut self, from: Position, to: Position, lines_before: u32, lines_after: u32, message: &str) -> (q:
        Quote)
        requires
            old(self).wf(),
            quotable(old(self).data(), from, to, lines_before),
        ensures
            *final(self) == *old(self),
            is_quote_of(q@, old(self).spec_path(), old(self).data(), from, to, lines_before, lines_after, message@),
    ;

    /// Moves the reader back to the start of the buffer.
    fn reset(&mut self) -> (r: IoResult<()>)
        requires
            old(self).wf(),
        ensures
            r is Ok,
            final(self).wf(),
            final(self).data() == old(self).data(),
            final(self).spec_path() == old(self).spec_path(),
            final(self).pos() == (Position { offset: 0, line: 0, column: 0 }),
            !final(self).pending(),
    {
        proof {
            let data = self.data();
            assert(data.subrange(0, 0) =~= Seq::<u8>::empty());
            self.lemma_wf();
            Self::lemma_boundary_seekable(data, Position { offset: 0, line: 0, column: 0 });
        }
        self.seek(Position::new())
    }
}

/// True when two readers read the same buffer from the same path.
pub open spec fn same_source<R: Reader>(a: &R, b: &R) -> bool {
    a.data() == b.data() && a.spec_path() == b.spec_path()
}

/// True when nothing of a reader differs from another but, perhaps, that it
/// now holds the scalar at its position.
pub open spec fn same_place<R: Reader>(after: &R, before: &R) -> bool {
    same_source(after, before) && after.pos() == before.pos()
}

/// Whether the character is white space, as Unicode defines the property.
pub uninterp spec fn is_white_space(c: char) -> bool;

/// `char::is_whitespace` tells whether the character has the Unicode
/// property `White_Space`. Its documentation shows that the space, the line
/// feed and the no-break space have it, and that the character U+8D8A has
/// not.
pub assume_specification[ char::is_whitespace ](c: char) -> (b: bool)
    ensures
        b == is_white_space(c),
        c == ' ' || c == '\n' || c == '\u{A0}' ==> b,
        c == '\u{8D8A}' ==> !b,
;

/// A reader that yields Unicode scalars.
pub trait CharReader: Reader {
    proof fn lemma_char_wf(&self)
        requires
            self.wf(),
        ensures
            char_reader_inv(self.data(), self.pos(), self.pending()),
    ;

    /// Moves past the scalar that the reader holds, if it holds one, and
    /// decodes the next one: the reader then holds it and stands at its start.
    fn next_char(&mut self) -> (r: IoResult<Option<char>>)
        requires
            old(self).wf(),
        ensures
            final(self).wf(),
            same_source(final(self), old(self)),
            final(self).pos() == read_position(old(self).data(), old(self).pos(), old(self).pending()),
            r == read_at(old(self).data(), final(self).pos()),
            final(self).pending() == (r matches Ok(Some(_))),
    ;

    /// The scalar `lookahead` places after the one at the position of the
    /// reader, which does not move.
    fn peek_char(&mut self, lookahead: usize) -> (r: IoResult<Option<char>>)
        requires
            old(self).wf(),
        ensures
            final(self).wf(),
            same_place(final(self), old(self)),
            final(self).pending() == (decode_at(old(self).data(), old(self).pos().offset as int) is Scalar),
            r == peeked_char(peek_at(old(self).data(), old(self).pos(), lookahead as nat)),
    ;

    /// As `peek_char`, with the position of the scalar.
    fn peek_char_pos(&mut self, lookahead: usize) -> (r: IoResult<Option<(char, Position)>>)
        requires
            old(self).wf(),
        ensures
            final(self).wf(),
            same_place(final(self), old(self)),
            final(self).pending() == (decode_at(old(self).data(), old(self).pos().offset as int) is Scalar),
            r == peek_at(old(self).data(), old(self).pos(), lookahead as nat),
    ;

    /// Reads `skip` times, and stops at the first failure.
    fn skip_chars(&mut self, skip: usize) -> (r: IoResult<()>)
        requires
            old(self).wf(),
        ensures
            final(self).wf(),
            same_source(final(self), old(self)),
            (r, final(self).pos(), final(self).pending()) == skip_outcome(
                old(self).data(),
                old(self).pos(),
                old(self).pending(),
                skip as nat,
            ),
    ;

    /// Whether the bytes of `s` stand at the position of the reader.
    fn match_str(&mut self, s: &str) -> (r: IoResult<bool>)
        requires
            old(self).wf(),
        ensures
            *final(self) == *old(self),
            r == Ok::<bool, IoErrorDetail>(bytes_at(old(self).data(), old(self).pos().offset as int, s.spec_bytes())),
    ;

    /// Whether the bytes of `s` stand at the position of the reader and the
    /// scalar after them, or the end of the buffer, satisfies `f`.
    fn match_str_term<F: Fn(Option<char>) -> bool>(&mut self, s: &str, f: &F) -> (r: IoResult<bool>)
        requires
            old(self).wf(),
            forall|c: Option<char>| call_requires(f, (c,)),
        ensures
            *final(self) == *old(self),
            !bytes_at(old(self).data(), old(self).pos().offset as int, s.spec_bytes()) ==> r == Ok::<
                bool,
                IoErrorDetail,
            >(false),
            bytes_at(old(self).data(), old(self).pos().offset as int, s.spec_bytes()) ==> match read_at(
                old(self).data(),
                position_of(old(self).data(), old(self).pos().offset + s.spec_bytes().len()),
            ) {
                Ok(c) => r matches Ok(b) && call_ensures(f, (c,), b),
                Err(e) => r == Err::<bool, IoErrorDetail>(e),
            },
    ;

    /// Whether the scalar at the position of the reader is `c`.
    fn match_char(&mut self, c: char) -> (r: IoResult<bool>)
        requires
            old(self).wf(),
        ensures
            final(self).wf(),
            same_place(final(self), old(self)),
            final(self).pending() == (decode_at(old(self).data(), old(self).pos().offset as int) is Scalar),
            r == match read_at(old(self).data(), old(self).pos()) {
                Ok(Some(k)) => Ok::<bool, IoErrorDetail>(k == c),
                Ok(None) => Ok(false),
                Err(e) => Err(e),
            },
    {
        match self.peek_char(0) {
            Ok(Some(k)) => Ok(c == k),
            Ok(None) => Ok(false),
            Err(e) => Err(e),
        }
    }

    /// Moves past white space.
    fn skip_whitespace(&mut self) -> (r: IoResult<()>)
        requires
            old(self).wf(),
        ensures
            final(self).wf(),
            same_source(final(self), old(self)),
            run_of(old(self).data(), old(self).pos(), final(self).pos(), |c: char| is_white_space(c)),
            stops_at(old(self).data(), final(self).pos(), final(self).pending(), |c: char| !is_white_space(c), r),
    {
        let ghost data = self.data();
        let ghost start = self.pos();
        let ghost accept = |c: char| is_white_space(c);
        proof {
            self.lemma_char_wf();
            lemma_run_empty(data, start, accept);
        }
        loop
            invariant
                self.wf(),
                self.data() == data,
                data == old(self).data(),
                start == old(self).pos(),
                self.spec_path() == old(self).spec_path(),
                run_of(data, start, self.pos(), accept),
                forall|c: char| #[trigger] accept(c) == (is_white_space(c)),
            decreases data.len() - self.pos().offset,
        {
            let ghost before = self.pos();
            match self.peek_char(0) {
                Err(e) => {
                    return Err(e);
                },
                Ok(None) => {
                    return Ok(());
                },
                Ok(Some(c)) => {
                    if c.is_whitespace() {
                        proof {
                            self.lemma_char_wf();
                            lemma_run_extend(data, start, before, accept);
                        }
                        match self.next_char() {
                            Err(e) => {
                                return Err(e);
                            },
                            Ok(_) => {},
                        }
                    } else {
                        return Ok(());
                    }
                },
            }
        }
    }

    /// Moves past white space other than line feeds.
    fn skip_whitespace_nonl(&mut self) -> (r: IoResult<()>)
        requires
            old(self).wf(),
        ensures
            final(self).wf(),
            same_source(final(self), old(self)),
            run_of(old(self).data(), old(self).pos(), final(self).pos(), |c: char| is_white_space(c) && c != '\n'),
            stops_at(
                old(self).data(),
                final(self).pos(),
                final(self).pending(),
                |c: char| !(is_white_space(c) && c != '\n'),
                r,
            ),
    {
        let ghost data = self.data();
        let ghost start = self.pos();
        let ghost accept = |c: char| is_white_space(c) && c != '\n';
        proof {
            self.lemma_char_wf();
            lemma_run_empty(data, start, accept);
        }
        loop
            invariant
                self.wf(),
                self.data() == data,
                data == old(self).data(),
                start == old(self).pos(),
                self.spec_path() == old(self).spec_path(),
                run_of(data, start, self.pos(), accept),
                forall|c: char| #[trigger] accept(c) == (is_white_space(c) && c != '\n'),
            decreases data.len() - self.pos().offset,
        {
            let ghost before = self.pos();
            match self.peek_char(0) {
                Err(e) => {
                    return Err(e);
                },
                Ok(None) => {
                    return Ok(());
                },
                Ok(Some(c)) => {
                    if c.is_whitespace() && c != '\n' {
                        proof {
                            self.lemma_char_wf();
                            lemma_run_extend(data, start, before, accept);
                        }
                        match self.next_char() {
                            Err(e) => {
                                return Err(e);
                            },
                            Ok(_) => {},
                        }
                    } else {
                        return Ok(());
                    }
                },
            }
        }
    }

    /// Moves past the scalars that `f` accepts.
    fn skip_while<F: Fn(char) -> bool>(&mut self, f: &F) -> (r: IoResult<()>)
        requires
            old(self).wf(),
            forall|c: char| call_requires(f, (c,)),
        ensures
            final(self).wf(),
            same_source(final(self), old(self)),
            run_of(old(self).data(), old(self).pos(), final(self).pos(), |c: char| call_ensures(f, (c,), true)),
            stops_at(
                old(self).data(),
                final(self).pos(),
                final(self).pending(),
                |c: char| call_ensures(f, (c,), false),
                r,
            ),
    {
        let ghost data = self.data();
        let ghost start = self.pos();
        let ghost accept = |c: char| call_ensures(f, (c,), true);
        proof {
            self.lemma_char_wf();
            lemma_run_empty(data, start, accept);
        }
        loop
            invariant
                self.wf(),
                self.data() == data,
                data == old(self).data(),
                start == old(self).pos(),
                self.spec_path() == old(self).spec_path(),
                run_of(data, start, self.pos(), accept),
                forall|c: char| #[trigger] accept(c) == (call_ensures(f, (c,), true)),
                forall|c: char| call_requires(f, (c,)),
            decreases data.len() - self.pos().offset,
        {
            let ghost before = self.pos();
            match self.peek_char(0) {
                Err(e) => {
                    return Err(e);
                },
                Ok(None) => {
                    return Ok(());
                },
                Ok(Some(c)) => {
                    if f(c) {
                        proof {
                            self.lemma_char_wf();
                            lemma_run_extend(data, start, before, accept);
                        }
                        match self.next_char() {
                            Err(e) => {
                                return Err(e);
                            },
                            Ok(_) => {},
                        }
                    } else {
                        return Ok(());
                    }
                },
            }
        }
    }

    /// Moves up to the first scalar that `f` accepts.
    fn skip_until<F: Fn(char) -> bool>(&mut self, f: &F) -> (r: IoResult<()>)
        requires
            old(self).wf(),
            forall|c: char| call_requires(f, (c,)),
        ensures
            final(self).wf(),
            same_source(final(self), old(self)),
            run_of(old(self).data(), old(self).pos(), final(self).pos(), |c: char| call_ensures(f, (c,), false)),
            stops_at(
                old(self).data(),
                final(self).pos(),
                final(self).pending(),
                |c: char| call_ensures(f, (c,), true),
                r,
            ),
    {
        let ghost data = self.data();
        let ghost start = self.pos();
        let ghost accept = |c: char| call_ensures(f, (c,), false);
        proof {
            self.lemma_char_wf();
            lemma_run_empty(data, start, accept);
        }
        loop
            invariant
                self.wf(),
                self.data() == data,
                data == old(self).data(),
                start == old(self).pos(),
                self.spec_path() == old(self).spec_path(),
                run_of(data, start, self.pos(), accept),
                forall|c: char| #[trigger] accept(c) == (call_ensures(f, (c,), false)),
                forall|c: char| call_requires(f, (c,)),
            decreases data.len() - self.pos().offset,
        {
            let ghost before = self.pos();
            match self.peek_char(0) {
                Err(e) => {
                    return Err(e);
                },
                Ok(None) => {
                    return Ok(());
                },
                Ok(Some(c)) => {
                    if f(c) {
                        return Ok(());
                    } else {
                        proof {
                            self.lemma_char_wf();
                            lemma_run_extend(data, start, before, accept);
                        }
                        match self.next_char() {
                            Err(e) => {
                                return Err(e);
                            },
                            Ok(_) => {},
                        }
                    }
                },
            }
        }
    }

    /// Moves past the scalars that `f` accepts, and gives them as text.
    fn scan<F: Fn(char) -> bool>(&mut self, f: &F) -> (r: IoResult<&str>)
        requires
            old(self).wf(),
            forall|c: char| call_requires(f, (c,)),
        ensures
            final(self).wf(),
            same_source(final(self), old(self)),
            run_of(old(self).data(), old(self).pos(), final(self).pos(), |c: char| call_ensures(f, (c,), true)),
            match read_at(old(self).data(), final(self).pos()) {
                Ok(Some(c)) => call_ensures(f, (c,), false) && r is Ok && final(self).pending(),
                Ok(None) => r is Ok && !final(self).pending(),
                Err(e) => r == Err::<&str, IoErrorDetail>(e) && !final(self).pending(),
            },
            r matches Ok(s) ==> s@ == decode_utf8(
                old(self).data().subrange(old(self).pos().offset as int, final(self).pos().offset as int),
            ),
    {
        let start = self.position();
        match self.skip_while(f) {
            Err(e) => Err(e),
            Ok(()) => {
                let end = self.position();
                proof {
                    self.lemma_wf();
                }
                self.slice(start.offset, end.offset)
            },
        }
    }
}

/// True when the bytes between the two positions are well-formed UTF-8,
/// every scalar of which satisfies `accept`.
pub open spec fn run_of(data: Seq<u8>, from: Position, to: Position, accept: spec_fn(char) -> bool) -> bool {
    &&& from.offset <= to.offset <= data.len()
    &&& valid_utf8(data.subrange(from.offset as int, to.offset as int))
    &&& forall|i: int|
        0 <= i < decode_utf8(data.subrange(from.offset as int, to.offset as int)).len() ==> accept(
            #[trigger] decode_utf8(data.subrange(from.offset as int, to.offset as int))[i],
        )
}

/// True when a run ended at `to` as it should: before a scalar that
/// satisfies `reject`, which the reader then holds, at the end of the buffer,
/// or with the failure to decode what stands there.
pub open spec fn stops_at(
    data: Seq<u8>,
    to: Position,
    pending: bool,
    reject: spec_fn(char) -> bool,
    r: IoResult<()>,
) -> bool {
    match read_at(data, to) {
        Ok(Some(c)) => r is Ok && reject(c) && pending,
        Ok(None) => r is Ok && !pending,
        Err(e) => r == Err::<(), IoErrorDetail>(e) && !pending,
    }
}

/// The empty run at a position of the buffer.
pub proof fn lemma_run_empty(data: Seq<u8>, at: Position, accept: spec_fn(char) -> bool)
    requires
        at.offset <= data.len(),
    ensures
        run_of(data, at, at, accept),
{
    assert(data.subrange(at.offset as int, at.offset as int) =~= Seq::<u8>::empty());
    reveal_with_fuel(decode_utf8, 1);
    assert(decode_utf8(Seq::<u8>::empty()).len() == 0);
}

/// A run that ends before a scalar that satisfies `accept` goes on past it.
pub proof fn lemma_run_extend(data: Seq<u8>, from: Position, to: Position, accept: spec_fn(char) -> bool)
    requires
        run_of(data, from, to, accept),
        data.len() <= u32::MAX,
        valid_position(data, to),
        decode_at(data, to.offset as int) matches Decoded::Scalar(c, _) && accept(c),
    ensures
        run_of(data, from, position_after(data, to), accept),
        position_after(data, to).offset > to.offset,
{
    lemma_advance_valid(data, to);
    crate::io::decode::lemma_scalar_shape(data, to.offset as int);
    crate::io::decode::lemma_region_extend(data, from.offset as int, to.offset as int);
}

/// The buffer without a byte order mark at its start.
pub open spec fn without_bom(input: Seq<u8>) -> Seq<u8> {
    if input.len() >= 3 && input[0] == 0xEF && input[1] == 0xBB && input[2] == 0xBF {
        input.subrange(3, input.len() as int)
    } else {
        input
    }
}

/// Drops a byte order mark from the start of the buffer.
pub fn consume_bom(input: &[u8]) -> (rest: &[u8])
    ensures
        rest@ == without_bom(input@),
{
    if input.len() >= 3 && input[0] == 0xEF && input[1] == 0xBB && input[2] == 0xBF {
        vstd::slice::slice_subrange(input, 3, input.len())
    } else {
        input
    }
}

/// A reader of Unicode scalars over a buffer in memory.
#[derive(Debug)]
pub struct MemCharReader<'a> {
    path: Option<&'a str>,
    data: &'a [u8],
    pos: Position,
    c: char,
    len: usize,
}

impl<'a> Clone for MemCharReader<'a> {
    fn clone(&self) -> (r: Self)
        ensures
            r == *self,
    {
        MemCharReader { path: self.path, data: self.data, pos: self.pos, c: self.c, len: self.len }
    }
}

impl<'a> MemCharReader<'a> {
    /// A reader at the start of `input`, past its byte order mark if it has one.
    pub fn new(input: &'a [u8]) -> (r: MemCharReader<'a>)
        requires
            input@.len() <= u32::MAX,
        ensures
            r.wf(),
            r.data() == without_bom(input@),
            r.pos() == (Position { offset: 0, line: 0, column: 0 }),
            !r.pending(),
            r.spec_path() is None,
    {
        let input = consume_bom(input);
        proof {
            assert(input@.subrange(0, 0) =~= Seq::<u8>::empty());
        }
        MemCharReader { path: None, data: input, pos: Position::new(), c: '\0', len: 0 }
    }

    /// As `new`, for a buffer that came from `path`.
    pub fn with_path(path: &'a str, input: &'a [u8]) -> (r: MemCharReader<'a>)
        requires
            input@.len() <= u32::MAX,
        ensures
            r.wf(),
            r.data() == without_bom(input@),
            r.pos() == (Position { offset: 0, line: 0, column: 0 }),
            !r.pending(),
            r.spec_path() == Some(path@),
    {
        let input = consume_bom(input);
        proof {
            assert(input@.subrange(0, 0) =~= Seq::<u8>::empty());
        }
        MemCharReader { path: Some(path), data: input, pos: Position::new(), c: '\0', len: 0 }
    }

    fn encoding_err<T>(&self, len: usize) -> (r: IoResult<T>)
        ensures
            r == Err::<T, IoErrorDetail>(encoding_error(self.pos, len as int)),
    {
        Err(IoErrorDetail::Utf8InvalidEncoding { pos: self.pos, len })
    }

    /// Moves past the held scalar and decodes the next one.
    fn next(&mut self) -> (r: IoResult<()>)
        requires
            old(self).wf(),
        ensures
            final(self).wf(),
            same_source(final(self), old(self)),
            final(self).pos() == read_position(old(self).data(), old(self).pos(), old(self).pending()),
            match decode_at(old(self).data(), final(self).pos().offset as int) {
                Decoded::End => r is Ok && !final(self).pending(),
                Decoded::Scalar(c, _) => r is Ok && final(self).pending() && final(self).c == c,
                Decoded::Invalid(n) => r == Err::<(), IoErrorDetail>(encoding_error(final(self).pos(), n))
                    && !final(self).pending(),
            },
    {
        if self.len > 0 {
            proof {
                lemma_advance_valid(self.data@, self.pos);
            }
            self.pos.offset += self.len;
            if self.c == '\n' {
                self.pos.inc_line();
            } else {
                self.pos.inc_column();
            }
            self.len = 0;
        }
        let i = self.pos.offset;
        if i == self.data.len() {
            return Ok(());
        }
        match decode(self.data, i) {
            Ok((c, len)) => {
                proof {
                    crate::io::decode::lemma_scalar_shape(self.data@, i as int);
                }
                self.c = c;
                self.len = len;
                Ok(())
            },
            Err(len) => self.encoding_err(len),
        }
    }
}

impl<'a> Reader for MemCharReader<'a> {
    closed spec fn data(&self) -> Seq<u8> {
        self.data@
    }

    closed spec fn pos(&self) -> Position {
        self.pos
    }

    closed spec fn pending(&self) -> bool {
        self.len > 0
    }

    closed spec fn spec_path(&self) -> Option<Seq<char>> {
        match self.path {
            Some(p) => Some(p@),
            None => None,
        }
    }

    closed spec fn wf(&self) -> bool {
        &&& char_reader_inv(self.data@, self.pos, self.len > 0)
        &&& self.len > 0 ==> decode_at(self.data@, self.pos.offset as int) == Decoded::Scalar(self.c, self.len as int)
    }

    proof fn lemma_wf(&self) {
    }

    open spec fn seekable(data: Seq<u8>, pos: Position) -> bool {
        valid_position(data, pos)
    }

    proof fn lemma_seekable(&self) {
    }

    proof fn lemma_boundary_seekable(data: Seq<u8>, pos: Position) {
        assert(MemCharReader::seekable(data, pos) == valid_position(data, pos));
    }

    fn path(&self) -> (p: Option<&str>) {
        self.path
    }

    fn len(&self) -> (n: Option<usize>) {
        Some(self.data.len())
    }

    fn eof(&self) -> (b: bool) {
        self.pos.offset >= self.data.len()
    }

    fn position(&self) -> (p: Position) {
        self.pos
    }

    fn seek(&mut self, pos: Position) -> (r: IoResult<()>) {
        self.pos = pos;
        self.c = '\0';
        self.len = 0;
        Ok(())
    }

    fn quote(&mut self, from: Position, to: Position, lines_before: u32, lines_after: u32, message: &str) -> (q:
        Quote) {
        Quote::new(self.path, self.data, from, to, lines_before, lines_after, message)
    }

    fn input(&mut self) -> (r: IoResult<&str>) {
        proof {
            decode_utf8_encode_utf8(self.data@);
        }
        match core::str::from_utf8(self.data) {
            Ok(s) => {
                proof {
                    encode_utf8_decode_utf8(s@);
                }
                Ok(s)
            },
            Err(_) => Err(IoErrorDetail::Fmt),
        }
    }

    fn slice(&mut self, start: usize, end: usize) -> (r: IoResult<&str>) {
        let part = vstd::slice::slice_subrange(self.data, start, end);
        match core::str::from_utf8(part) {
            Ok(s) => {
                proof {
                    encode_utf8_decode_utf8(s@);
                }
                Ok(s)
            },
            Err(_) => Err(IoErrorDetail::Fmt),
        }
    }
}

impl<'a> CharReader for MemCharReader<'a> {
    proof fn lemma_char_wf(&self) {
    }

    fn next_char(&mut self) -> (r: IoResult<Option<char>>) {
        match self.next() {
            Err(e) => Err(e),
            Ok(()) => {
                if self.len > 0 {
                    Ok(Some(self.c))
                } else {
                    Ok(None)
                }
            },
        }
    }

    fn peek_char(&mut self, lookahead: usize) -> (r: IoResult<Option<char>>) {
        match self.peek_char_pos(lookahead) {
            Err(e) => Err(e),
            Ok(None) => Ok(None),
            Ok(Some((c, _))) => Ok(Some(c)),
        }
    }

    fn peek_char_pos(&mut self, lookahead: usize) -> (r: IoResult<Option<(char, Position)>>) {
        if self.len == 0 {
            match self.next() {
                Err(e) => {
                    return Err(e);
                },
                Ok(()) => {},
            }
        }
        if self.len == 0 {
            return Ok(None);
        }
        if lookahead == 0 {
            return Ok(Some((self.c, self.pos)));
        }
        let mut r = self.clone();
        let mut i: usize = 0;
        while i < lookahead
            invariant
                i <= lookahead,
                r.wf(),
                r.len > 0,
                r.data@ == self.data@,
                self.wf(),
                self.len > 0,
                same_place(self, old(self)),
                peek_at(self.data@, self.pos, lookahead as nat) == peek_at(r.data@, r.pos, (lookahead - i) as nat),
            decreases lookahead - i,
        {
            proof {
                reveal_with_fuel(peek_at, 2);
            }
            match r.next_char() {
                Err(e) => {
                    return Err(e);
                },
                Ok(None) => {
                    return Ok(None);
                },
                Ok(Some(_)) => {},
            }
            i = i + 1;
        }
        Ok(Some((r.c, r.pos)))
    }

    fn skip_chars(&mut self, skip: usize) -> (r: IoResult<()>) {
        let mut i: usize = 0;
        while i < skip
            invariant
                i <= skip,
                self.wf(),
                same_source(self, old(self)),
                skip_outcome(old(self).data(), old(self).pos(), old(self).pending(), skip as nat) == skip_outcome(
                    self.data(),
                    self.pos(),
                    self.pending(),
                    (skip - i) as nat,
                ),
            decreases skip - i,
        {
            match self.next_char() {
                Err(e) => {
                    return Err(e);
                },
                Ok(_) => {},
            }
            i = i + 1;
        }
        Ok(())
    }

    fn match_str(&mut self, s: &str) -> (r: IoResult<bool>) {
        Ok(starts_with_at(self.data, self.pos.offset, s.as_bytes()))
    }

    fn match_str_term<F: Fn(Option<char>) -> bool>(&mut self, s: &str, f: &F) -> (r: IoResult<bool>) {
        let needle = s.as_bytes();
        if !starts_with_at(self.data, self.pos.offset, needle) {
            return Ok(false);
        }
        let e: usize = self.pos.offset + needle.len();
        let mut r = self.clone();
        proof {
            encode_utf8_valid_utf8(s@);
        }
        while r.pos.offset < e
            invariant
                r.wf(),
                r.data@ == self.data@,
                *self == *old(self),
                self.wf(),
                bytes_at(self.data@, self.pos.offset as int, s.spec_bytes()),
                e == self.pos.offset + s.spec_bytes().len(),
                self.pos.offset <= r.pos.offset <= e <= self.data@.len(),
                valid_utf8(self.data@.subrange(r.pos.offset as int, e as int)),
                forall|c: Option<char>| call_requires(f, (c,)),
            decreases e - r.pos.offset, if r.len > 0 { 0int } else { 1int },
        {
            proof {
                lemma_region_first(self.data@, r.pos.offset as int, e as int);
                if r.len > 0 {
                    let next = position_after(r.data@, r.pos).offset as int;
                    lemma_advance_valid(r.data@, r.pos);
                    if next < e {
                        lemma_region_first(self.data@, next, e as int);
                    }
                }
            }
            match r.next_char() {
                Err(err) => {
                    proof {
                        assert(r.pos.offset == e);
                        lemma_position_of(r.data@, r.pos);
                    }
                    return Err(err);
                },
                Ok(_) => {},
            }
        }
        proof {
            lemma_position_of(r.data@, r.pos);
        }
        match r.peek_char(0) {
            Err(e) => Err(e),
            Ok(c) => Ok(f(c)),
        }
    }
}

/// Whether `needle` stands in `data` at offset `o`.
pub fn starts_with_at(data: &[u8], o: usize, needle: &[u8]) -> (b: bool)
    requires
        o <= data@.len(),
    ensures
        b == bytes_at(data@, o as int, needle@),
{
    let n = needle.len();
    if n > data.len() - o {
        return false;
    }
    let mut i: usize = 0;
    while i < n
        invariant
            i <= n,
            n == needle@.len(),
            o + n <= data@.len() <= usize::MAX,
            data@.subrange(o as int, o + i) == needle@.subrange(0, i as int),
        decreases n - i,
    {
        if data[o + i] != needle[i] {
            proof {
                let whole = data@.subrange(o as int, o + n);
                assert(whole[i as int] != needle@[i as int]);
            }
            return false;
        }
        proof {
            assert(data@.subrange(o as int, o + i + 1) =~= data@.subrange(o as int, o + i).push(data@[o + i]));
            assert(needle@.subrange(0, i + 1) =~= needle@.subrange(0, i as int).push(needle@[i as int]));
        }
        i = i + 1;
    }
    proof {
        assert(needle@.subrange(0, n as int) =~= needle@);
    }
    true
}

} // verus!
