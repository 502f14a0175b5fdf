//! The reader of bytes over a buffer in memory, which checks the UTF-8
//! encoding of what it reads to keep count of lines and columns.

use vstd::prelude::*;
use vstd::utf8::*;
use crate::io::decode::{decode_at, lemma_advance_valid, lemma_scalar_shape, valid_position};
use crate::io::error::IoErrorDetail;
use crate::io::quote::Quote;
use crate::io::reader::{encoding_error, IoResult, Reader};
use crate::io::Position;

verus! {

/// The number of bytes of a scalar that begins with the byte, 0 where no
/// scalar begins with it.
pub open spec fn scalar_total(lead: u8) -> int {
    if lead < 0x80 {
        1
    } else if 0xC2 <= lead <= 0xDF {
        2
    } else if 0xE0 <= lead <= 0xEF {
        3
    } else if 0xF0 <= lead <= 0xF4 {
        4
    } else {
        0
    }
}

/// Whether `b` may be the second byte of a scalar that begins with `lead`.
pub open spec fn second_fits(lead: u8, b: u8) -> bool {
    if lead == 0xE0 {
        0xA0 <= b <= 0xBF
    } else if lead == 0xED {
        0x80 <= b <= 0x9F
    } else if lead == 0xF0 {
        0x90 <= b <= 0xBF
    } else if lead == 0xF4 {
        0x80 <= b <= 0x8F
    } else {
        0x80 <= b <= 0xBF
    }
}

/// Whether the byte at `start + k` may be the byte of index `k` of a scalar
/// that begins at `start`.
pub open spec fn byte_fits(data: Seq<u8>, start: int, k: int) -> bool {
    if k == 0 {
        scalar_total(data[start]) > 0
    } else if k == 1 {
        scalar_total(data[start]) > 1 && second_fits(data[start], data[start + 1])
    } else {
        k < scalar_total(data[start]) && 0x80 <= data[start + k] <= 0xBF
    }
}

/// The position without the bytes that were read of a scalar that is not
/// complete: the position at which that scalar begins.
pub open spec fn scalar_start(pos: Position, committed: nat) -> Position {
    Position { offset: (pos.offset - committed) as usize, line: pos.line, column: pos.column }
}

/// What holds of every reader of bytes: the buffer is small enough for
/// lines and columns to be counted, the scalar that the reader is in begins
/// at a scalar boundary, and the bytes that were read of it may begin a scalar
/// that has more bytes.
pub open spec fn byte_reader_inv(data: Seq<u8>, pos: Position, committed: nat) -> bool {
    &&& data.len() <= u32::MAX
    &&& committed <= pos.offset <= data.len()
    &&& valid_position(data, scalar_start(pos, committed))
    &&& committed > 0 ==> committed < scalar_total(data[pos.offset - committed])
    &&& forall|k: int| 0 <= k < committed ==> #[trigger] byte_fits(data, pos.offset - committed, k)
}

/// The number of bytes before offset `o` that belong to a scalar that does
/// not end before `o`: the bytes back to the first byte of a scalar that
/// announces more bytes than lie between it and `o`.
pub open spec fn committed_at(data: Seq<u8>, o: int) -> nat {
    if o >= 1 && scalar_total(data[o - 1]) > 1 {
        1
    } else if o >= 2 && is_continuation_byte(data[o - 1]) && scalar_total(data[o - 2]) > 2 {
        2
    } else if o >= 3 && is_continuation_byte(data[o - 1]) && is_continuation_byte(data[o - 2]) && scalar_total(
        data[o - 3],
    ) > 3 {
        3
    } else {
        0
    }
}

/// Well-formed UTF-8 does not end within a scalar: none of its last bytes
/// is the first byte of a scalar that announces more bytes than follow it.
proof fn lemma_ends_complete(data: Seq<u8>, o: int, j: int)
    requires
        1 <= j <= 3,
        j <= o <= data.len(),
        valid_utf8(data.subrange(0, o)),
    ensures
        scalar_total(data[o - j]) <= j,
{
    let prefix = data.subrange(0, o);
    let index = o - j;
    assert(prefix[index] == data[o - j]);
    if scalar_total(data[o - j]) > j {
        is_char_boundary_iff_not_is_continuation_byte(prefix, index);
        valid_utf8_split(prefix, index);
        let rest = prefix.subrange(index, prefix.len() as int);
        assert(rest.len() == j);
        assert(rest[0] == data[o - j]);
        assert(valid_first_scalar(rest));
    }
}

/// The state of a reader of bytes is fixed by its position: the number of
/// bytes that it has read of a scalar that is not complete is found from the
/// bytes before the position.
pub proof fn lemma_committed_at(data: Seq<u8>, pos: Position, committed: nat)
    requires
        byte_reader_inv(data, pos, committed),
    ensures
        committed == committed_at(data, pos.offset as int),
{
    let o = pos.offset as int;
    let start = o - committed;
    if committed == 0 {
        assert(scalar_start(pos, 0) == pos);
        if o >= 1 {
            lemma_ends_complete(data, o, 1);
        }
        if o >= 2 {
            lemma_ends_complete(data, o, 2);
        }
        if o >= 3 {
            lemma_ends_complete(data, o, 3);
        }
    } else {
        assert(byte_fits(data, start, 0));
        if committed >= 2 {
            assert(byte_fits(data, start, 1));
        }
        if committed >= 3 {
            assert(byte_fits(data, start, 2));
        }
    }
}

/// The state of a reader of bytes after it has read the byte at its
/// position, which fits.
pub open spec fn after_byte(data: Seq<u8>, pos: Position, committed: nat) -> (Position, nat) {
    if committed + 1 == scalar_total(data[pos.offset - committed]) {
        if data[pos.offset - committed] == 0x0A {
            (Position { offset: (pos.offset + 1) as usize, line: (pos.line + 1) as u32, column: 0 }, 0)
        } else {
            (Position { offset: (pos.offset + 1) as usize, line: pos.line, column: (pos.column + 1) as u32 }, 0)
        }
    } else {
        (Position { offset: (pos.offset + 1) as usize, line: pos.line, column: pos.column }, committed + 1)
    }
}

/// What a read gives a reader of bytes, and the state that it leaves the
/// reader in: the byte at the position, if it fits the scalar that the
/// reader is in; nothing at the end of the buffer, if no scalar is left
/// incomplete; else a failure that tells how many bytes of the scalar were
/// read, and the reader does not move.
pub open spec fn byte_step(data: Seq<u8>, pos: Position, committed: nat) -> (IoResult<Option<u8>>, Position, nat) {
    if pos.offset >= data.len() {
        if committed > 0 {
            (Err(encoding_error(pos, committed as int)), pos, committed)
        } else {
            (Ok(None), pos, committed)
        }
    } else if !byte_fits(data, pos.offset - committed, committed as int) {
        (Err(encoding_error(pos, committed as int)), pos, committed)
    } else {
        (Ok(Some(data[pos.offset as int])), after_byte(data, pos, committed).0, after_byte(data, pos, committed).1)
    }
}

/// The outcome of `n` reads in a row, the first failure ending them.
pub open spec fn bytes_outcome(data: Seq<u8>, pos: Position, committed: nat, n: nat) -> (
    IoResult<()>,
    Position,
    nat,
)
    decreases n,
{
    if n == 0 {
        (Ok(()), pos, committed)
    } else {
        let (r, p, k) = byte_step(data, pos, committed);
        match r {
            Err(e) => (Err(e), p, k),
            Ok(_) => bytes_outcome(data, p, k, (n - 1) as nat),
        }
    }
}

/// The bytes that fit one after the other up to the number that the first
/// of them announces are a well-formed scalar of that many bytes.
pub proof fn lemma_fits_scalar(data: Seq<u8>, start: int)
    requires
        0 <= start < data.len(),
        scalar_total(data[start]) > 0,
        start + scalar_total(data[start]) <= data.len(),
        forall|k: int| 0 <= k < scalar_total(data[start]) ==> #[trigger] byte_fits(data, start, k),
    ensures
        decode_at(data, start) is Scalar,
        decode_at(data, start)->Scalar_1 == scalar_total(data[start]),
{
    let rest = data.subrange(start, data.len() as int);
    let b0 = data[start];
    let total = scalar_total(b0);
    assert(byte_fits(data, start, 0));
    assert(rest[0] == b0);
    if total == 1 {
        let cp: u32 = (b0 & 0x7F) as u32;
        assert(cp <= 0x7F) by (bit_vector)
            requires
                cp == (b0 & 0x7F) as u32,
        ;
    } else if total == 2 {
        assert(byte_fits(data, start, 1));
        let b1 = data[start + 1];
        assert(rest[1] == b1);
        let cp: u32 = (((b0 & 0x1F) as u32) << 6) | ((b1 & 0x3F) as u32);
        assert(0x80 <= cp <= 0x7FF) by (bit_vector)
            requires
                0xC2 <= b0 <= 0xDF,
                cp == (((b0 & 0x1F) as u32) << 6) | ((b1 & 0x3F) as u32),
        ;
    } else if total == 3 {
        assert(byte_fits(data, start, 1));
        assert(byte_fits(data, start, 2));
        let b1 = data[start + 1];
        let b2 = data[start + 2];
        assert(rest[1] == b1);
        assert(rest[2] == b2);
        let cp: u32 = (((b0 & 0x0F) as u32) << 12) | (((b1 & 0x3F) as u32) << 6) | ((b2 & 0x3F) as u32);
        assert(0x800 <= cp && !(0xD800 <= cp <= 0xDFFF)) by (bit_vector)
            requires
                0xE0 <= b0 <= 0xEF,
                0x80 <= b1 <= 0xBF,
                b0 == 0xE0 ==> 0xA0 <= b1,
                b0 == 0xED ==> b1 <= 0x9F,
                cp == (((b0 & 0x0F) as u32) << 12) | (((b1 & 0x3F) as u32) << 6) | ((b2 & 0x3F) as u32),
        ;
    } else {
        assert(byte_fits(data, start, 1));
        assert(byte_fits(data, start, 2));
        assert(byte_fits(data, start, 3));
        let b1 = data[start + 1];
        let b2 = data[start + 2];
        let b3 = data[start + 3];
        assert(rest[1] == b1);
        assert(rest[2] == b2);
        assert(rest[3] == b3);
        let cp: u32 = (((b0 & 0x07) as u32) << 18) | (((b1 & 0x3F) as u32) << 12) | (((b2 & 0x3F) as u32) << 6) | ((b3
            & 0x3F) as u32);
        assert(0x10000 <= cp <= 0x10FFFF) by (bit_vector)
            requires
                0xF0 <= b0 <= 0xF4,
                0x80 <= b1 <= 0xBF,
                b0 == 0xF0 ==> 0x90 <= b1,
                b0 == 0xF4 ==> b1 <= 0x8F,
                cp == (((b0 & 0x07) as u32) << 18) | (((b1 & 0x3F) as u32) << 12) | (((b2 & 0x3F) as u32) << 6) | ((b3
                    & 0x3F) as u32),
        ;
    }
}

/// A reader that yields bytes.
pub trait ByteReader: Reader {
    /// The number of bytes that the reader has read of a scalar that is
    /// not complete.
    spec fn committed(&self) -> nat;

    /// What the invariant of the reader gives: in particular, the position
    /// of a reader that is not within a scalar is that of a scalar boundary.
    proof fn lemma_byte_wf(&self)
        requires
            self.wf(),
        ensures
            byte_reader_inv(self.data(), self.pos(), self.committed()),
            self.pending() == (self.committed() > 0),
            self.committed() == 0 ==> valid_position(self.data(), self.pos()),
    ;

    /// Reads the byte at the position of the reader.
    fn next_byte(&mut self) -> (r: IoResult<Option<u8>>)
        requires
            old(self).wf(),
        ensures
            final(self).wf(),
            final(self).data() == old(self).data(),
            final(self).spec_path() == old(self).spec_path(),
            (r, final(self).pos(), final(self).committed()) == byte_step(
                old(self).data(),
                old(self).pos(),
                old(self).committed(),
            ),
    ;

    /// The byte `lookahead` places after the position of the reader, which
    /// does not move.
    fn peek_byte(&mut self, lookahead: usize) -> (r: IoResult<Option<u8>>)
        requires
            old(self).wf(),
        ensures
            *final(self) == *old(self),
            r == Ok::<Option<u8>, IoErrorDetail>(
                if old(self).pos().offset + lookahead < old(self).data().len() {
                    Some(old(self).data()[old(self).pos().offset + lookahead])
                } else {
                    None
                },
            ),
    ;

    /// The byte that `lookahead` reads would lead to, with the position
    /// that the reader would have there; the reader does not move.
    fn peek_byte_pos(&mut self, lookahead: usize) -> (r: IoResult<Option<(u8, Position)>>)
        requires
            old(self).wf(),
        ensures
            *final(self) == *old(self),
            ({
                let (skipped, p, k) = bytes_outcome(
                    old(self).data(),
                    old(self).pos(),
                    old(self).committed(),
                    lookahead as nat,
                );
                match skipped {
                    Err(e) => r == Err::<Option<(u8, Position)>, IoErrorDetail>(e),
                    Ok(()) => r == Ok::<Option<(u8, Position)>, IoErrorDetail>(
                        if p.offset < old(self).data().len() {
                            Some((old(self).data()[p.offset as int], p))
                        } else {
                            None
                        },
                    ),
                }
            }),
    ;

    /// Reads `skip` times, and stops at the first failure.
    fn skip_bytes(&mut self, skip: usize) -> (r: IoResult<()>)
        requires
            old(self).wf(),
        ensures
            final(self).wf(),
            final(self).data() == old(self).data(),
            final(self).spec_path() == old(self).spec_path(),
            (r, final(self).pos(), final(self).committed()) == bytes_outcome(
                old(self).data(),
                old(self).pos(),
                old(self).committed(),
                skip as nat,
            ),
    ;
}

/// A reader of bytes over a buffer in memory.
#[derive(Debug)]
pub struct MemByteReader<'a> {
    path: Option<&'a str>,
    data: &'a [u8],
    pos: Position,
    /// The number of bytes that the scalar at the position still lacks.
    left: usize,
    /// The number of bytes of that scalar that were read.
    seen: usize,
    /// The first byte of that scalar.
    lead: u8,
}

impl<'a> Clone for MemByteReader<'a> {
    fn clone(&self) -> (r: Self)
        ensures
            r == *self,
    {
        MemByteReader {
            path: self.path,
            data: self.data,
            pos: self.pos,
            left: self.left,
            seen: self.seen,
            lead: self.lead,
        }
    }
}

impl<'a> MemByteReader<'a> {
    /// A reader at the start of `input`.
    pub fn new(input: &'a [u8]) -> (r: MemByteReader<'a>)
        requires
            input@.len() <= u32::MAX,
        ensures
            r.wf(),
            r.data() == input@,
            r.pos() == (Position { offset: 0, line: 0, column: 0 }),
            r.committed() == 0,
            r.spec_path() is None,
    {
        proof {
            assert(input@.subrange(0, 0) =~= Seq::<u8>::empty());
        }
        MemByteReader { path: None, data: input, pos: Position::new(), left: 0, seen: 0, lead: 0 }
    }

    /// As `new`, for a buffer that came from `path`.
    pub fn with_path(path: &'a str, input: &'a [u8]) -> (r: MemByteReader<'a>)
        requires
            input@.len() <= u32::MAX,
        ensures
            r.wf(),
            r.data() == input@,
            r.pos() == (Position { offset: 0, line: 0, column: 0 }),
            r.committed() == 0,
            r.spec_path() == Some(path@),
    {
        proof {
            assert(input@.subrange(0, 0) =~= Seq::<u8>::empty());
        }
        MemByteReader { path: Some(path), data: input, pos: Position::new(), left: 0, seen: 0, lead: 0 }
    }

    fn encoding_err<T>(&self, len: usize) -> (r: IoResult<T>)
        ensures
            r == Err::<T, IoErrorDetail>(encoding_error(self.pos, len as int)),
    {
        Err(IoErrorDetail::Utf8InvalidEncoding { pos: self.pos, len })
    }
}

/// The number of bytes of a scalar that begins with the byte, 0 where no
/// scalar begins with it.
fn total_of(lead: u8) -> (n: usize)
    ensures
        n == scalar_total(lead),
{
    if lead < 0x80 {
        1
    } else if lead < 0xC2 {
        0
    } else if lead < 0xE0 {
        2
    } else if lead < 0xF0 {
        3
    } else if lead <= 0xF4 {
        4
    } else {
        0
    }
}

/// Whether the byte is one of those that follow the first byte of a scalar.
fn is_continuation(b: u8) -> (r: bool)
    ensures
        r == is_continuation_byte(b),
{
    0x80 <= b && b <= 0xBF
}

/// Whether `b` may be the second byte of a scalar that begins with `lead`.
fn fits_second(lead: u8, b: u8) -> (r: bool)
    ensures
        r == second_fits(lead, b),
{
    if lead == 0xE0 {
        0xA0 <= b && b <= 0xBF
    } else if lead == 0xED {
        0x80 <= b && b <= 0x9F
    } else if lead == 0xF0 {
        0x90 <= b && b <= 0xBF
    } else if lead == 0xF4 {
        0x80 <= b && b <= 0x8F
    } else {
        0x80 <= b && b <= 0xBF
    }
}

impl<'a> Reader for MemByteReader<'a> {
    closed spec fn data(&self) -> Seq<u8> {
        self.data@
    }

    closed spec fn pos(&self) -> Position {
        self.pos
    }

    closed spec fn pending(&self) -> bool {
        self.seen > 0
    }

    closed spec fn spec_path(&self) -> Option<Seq<char>> {
        match self.path {
            Some(p) => Some(p@),
            None => None,
        }
    }

    closed spec fn wf(&self) -> bool {
        &&& byte_reader_inv(self.data@, self.pos, self.seen as nat)
        &&& self.seen > 0 ==> self.lead == self.data@[self.pos.offset - self.seen] && self.seen + self.left
            == scalar_total(self.lead)
        &&& self.seen == 0 ==> self.left == 0
    }

    proof fn lemma_wf(&self) {
    }

    open spec fn seekable(data: Seq<u8>, pos: Position) -> bool {
        byte_reader_inv(data, pos, committed_at(data, pos.offset as int))
    }

    proof fn lemma_seekable(&self) {
        lemma_committed_at(self.data@, self.pos, self.seen as nat);
        assert(MemByteReader::seekable(self.data@, self.pos) == byte_reader_inv(
            self.data@,
            self.pos,
            committed_at(self.data@, self.pos.offset as int),
        ));
    }

    proof fn lemma_boundary_seekable(data: Seq<u8>, pos: Position) {
        assert(scalar_start(pos, 0) == pos);
        lemma_committed_at(data, pos, 0);
        assert(MemByteReader::seekable(data, pos) == byte_reader_inv(
            data,
            pos,
            committed_at(data, pos.offset as int),
        ));
    }

    fn path(&self) -> (p: Option<&str>) {
        self.path
    }

    fn len(&self) -> (n: Option<usize>) {
        Some(self.data.len())
    }

    fn eof(&self) -> (b: bool) {
        self.pos.offset >= self.data.len()
    }

    fn position(&self) -> (p: Position) {
        self.pos
    }

    fn seek(&mut self, pos: Position) -> (r: IoResult<()>) {
        assert(MemByteReader::seekable(self.data@, pos) == byte_reader_inv(
            self.data@,
            pos,
            committed_at(self.data@, pos.offset as int),
        ));
        let o = pos.offset;
        let mut seen: usize = 0;
        if o >= 1 && total_of(self.data[o - 1]) > 1 {
            seen = 1;
        } else if o >= 2 && is_continuation(self.data[o - 1]) && total_of(self.data[o - 2]) > 2 {
            seen = 2;
        } else if o >= 3 && is_continuation(self.data[o - 1]) && is_continuation(self.data[o - 2]) && total_of(
            self.data[o - 3],
        ) > 3 {
            seen = 3;
        }
        proof {
            if valid_position(self.data@, pos) {
                assert(scalar_start(pos, 0) == pos);
                lemma_committed_at(self.data@, pos, 0);
            }
        }
        self.pos = pos;
        self.seen = seen;
        if seen > 0 {
            self.lead = self.data[o - seen];
            self.left = total_of(self.lead) - seen;
        } else {
            self.left = 0;
        }
        Ok(())
    }

    fn quote(&mut self, from: Position, to: Position, lines_before: u32, lines_after: u32, message: &str) -> (q:
        Quote) {
        Quote::new(self.path, self.data, from, to, lines_before, lines_after, message)
    }

    fn input(&mut self) -> (r: IoResult<&str>) {
        proof {
            decode_utf8_encode_utf8(self.data@);
        }
        match core::str::from_utf8(self.data) {
            Ok(s) => {
                proof {
                    encode_utf8_decode_utf8(s@);
                }
                Ok(s)
            },
            Err(_) => Err(IoErrorDetail::Fmt),
        }
    }

    fn slice(&mut self, start: usize, end: usize) -> (r: IoResult<&str>) {
        let part = vstd::slice::slice_subrange(self.data, start, end);
        match core::str::from_utf8(part) {
            Ok(s) => {
                proof {
                    encode_utf8_decode_utf8(s@);
                }
                Ok(s)
            },
            Err(_) => Err(IoErrorDetail::Fmt),
        }
    }
}

impl<'a> ByteReader for MemByteReader<'a> {
    closed spec fn committed(&self) -> nat {
        self.seen as nat
    }

    proof fn lemma_byte_wf(&self) {
    }

    fn next_byte(&mut self) -> (r: IoResult<Option<u8>>) {
        if self.pos.offset >= self.data.len() {
            if self.seen > 0 {
                return self.encoding_err(self.seen);
            }
            return Ok(None);
        }
        let b = self.data[self.pos.offset];
        let ghost start = self.pos.offset - self.seen;
        if self.seen == 0 {
            let total = total_of(b);
            if total == 0 {
                return self.encoding_err(0);
            }
            self.lead = b;
            self.left = total;
        } else if self.seen == 1 {
            if !fits_second(self.lead, b) {
                return self.encoding_err(self.seen);
            }
        } else if b < 0x80 || b > 0xBF {
            return self.encoding_err(self.seen);
        }
        assert(byte_fits(self.data@, start, self.seen as int));
        self.pos.offset += 1;
        self.seen += 1;
        self.left -= 1;
        if self.left == 0 {
            proof {
                let before = scalar_start(old(self).pos, old(self).seen as nat);
                assert forall|k: int| 0 <= k < scalar_total(self.data@[start]) implies #[trigger] byte_fits(
                    self.data@,
                    start,
                    k,
                ) by {
                    if k < old(self).seen {
                        assert(byte_fits(old(self).data@, old(self).pos.offset - old(self).seen, k));
                    }
                }
                lemma_fits_scalar(self.data@, start);
                lemma_scalar_shape(self.data@, start);
                lemma_advance_valid(self.data@, before);
            }
            if self.lead == 0x0A {
                self.pos.inc_line();
            } else {
                self.pos.inc_column();
            }
            self.seen = 0;
        } else {
            proof {
                assert forall|k: int| 0 <= k < self.seen implies #[trigger] byte_fits(
                    self.data@,
                    self.pos.offset - self.seen,
                    k,
                ) by {
                    if k < old(self).seen {
                        assert(byte_fits(old(self).data@, old(self).pos.offset - old(self).seen, k));
                    }
                }
            }
        }
        Ok(Some(b))
    }

    fn peek_byte(&mut self, lookahead: usize) -> (r: IoResult<Option<u8>>) {
        let n = self.data.len();
        if lookahead < n - self.pos.offset {
            Ok(Some(self.data[self.pos.offset + lookahead]))
        } else {
            Ok(None)
        }
    }

    fn peek_byte_pos(&mut self, lookahead: usize) -> (r: IoResult<Option<(u8, Position)>>) {
        let mut r = self.clone();
        match r.skip_bytes(lookahead) {
            Err(e) => Err(e),
            Ok(()) => {
                if r.pos.offset < r.data.len() {
                    Ok(Some((r.data[r.pos.offset], r.pos)))
                } else {
                    Ok(None)
                }
            },
        }
    }

    fn skip_bytes(&mut self, skip: usize) -> (r: IoResult<()>) {
        let mut i: usize = 0;
        while i < skip
            invariant
                i <= skip,
                self.wf(),
                self.data@ == old(self).data@,
                self.spec_path() == old(self).spec_path(),
                bytes_outcome(old(self).data@, old(self).pos, old(self).seen as nat, skip as nat) == bytes_outcome(
                    self.data@,
                    self.pos,
                    self.seen as nat,
                    (skip - i) as nat,
                ),
            decreases skip - i,
        {
            match self.next_byte() {
                Err(e) => {
                    return Err(e);
                },
                Ok(_) => {},
            }
            i = i + 1;
        }
        Ok(())
    }
}

} // verus!
