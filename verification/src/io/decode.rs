//! The model of a buffer as a stream of UTF-8 scalars: what stands at an
//! offset, and which line and column an offset is on.

use vstd::prelude::*;
use vstd::utf8::*;
use crate::io::Position;

verus! {

/// `char::from_u32` gives the character of a Unicode scalar value, and
/// nothing for any other number.
pub assume_specification[ char::from_u32 ](i: u32) -> (r: Option<char>)
    ensures
        r == if is_scalar(i) {
            Some(i as char)
        } else {
            None::<char>
        },
;

/// What decoding finds at an offset of a buffer.
pub enum Decoded {
    /// The offset is at or past the end of the buffer.
    End,
    /// A well-formed scalar, with the number of bytes that encode it.
    Scalar(char, int),
    /// Bytes that encode no scalar, with the number of bytes that the
    /// leading byte announced.
    Invalid(int),
}

/// The number of bytes that a decoder attempts to read for a leading byte.
pub open spec fn attempted_len(b: u8) -> int {
    if b < 0xC0 {
        1
    } else if b < 0xE0 {
        2
    } else if b < 0xF0 {
        3
    } else {
        4
    }
}

/// What decoding finds at offset `o` of `data`.
pub open spec fn decode_at(data: Seq<u8>, o: int) -> Decoded {
    if o < 0 || o >= data.len() {
        Decoded::End
    } else {
        let rest = data.subrange(o, data.len() as int);
        if valid_first_scalar(rest) {
            Decoded::Scalar(decode_first_scalar(rest) as char, length_of_first_scalar(rest))
        } else {
            Decoded::Invalid(attempted_len(data[o]))
        }
    }
}

/// The number of line feeds in `s`.
pub open spec fn lines(s: Seq<u8>) -> nat
    decreases s.len(),
{
    if s.len() == 0 {
        0
    } else if s.last() == 0x0A {
        lines(s.drop_last()) + 1
    } else {
        lines(s.drop_last())
    }
}

/// The number of scalars that begin in `s` after its last line feed.
pub open spec fn columns(s: Seq<u8>) -> nat
    decreases s.len(),
{
    if s.len() == 0 {
        0
    } else if s.last() == 0x0A {
        0
    } else if is_continuation_byte(s.last()) {
        columns(s.drop_last())
    } else {
        columns(s.drop_last()) + 1
    }
}

/// True when `p` is the position of a scalar boundary of `data`: the bytes
/// before it are well-formed UTF-8, its line is the number of line feeds
/// among them and its column the number of scalars after the last of those.
pub open spec fn valid_position(data: Seq<u8>, p: Position) -> bool {
    &&& partial_valid_utf8(data, p.offset as int)
    &&& p.line == lines(data.subrange(0, p.offset as int))
    &&& p.column == columns(data.subrange(0, p.offset as int))
}

/// The position of offset `o`: its line is the number of line feeds before
/// it, its column the number of scalars after the last of those.
pub open spec fn position_of(data: Seq<u8>, o: int) -> Position {
    Position {
        offset: o as usize,
        line: lines(data.subrange(0, o)) as u32,
        column: columns(data.subrange(0, o)) as u32,
    }
}

/// A valid position is the position of its offset.
pub proof fn lemma_position_of(data: Seq<u8>, p: Position)
    requires
        valid_position(data, p),
    ensures
        p == position_of(data, p.offset as int),
{
}

/// The position after a scalar `c` of `len` bytes that stands at `p`.
pub open spec fn advance(p: Position, c: char, len: int) -> Position {
    if c == '\n' {
        Position { offset: (p.offset + len) as usize, line: (p.line + 1) as u32, column: 0 }
    } else {
        Position { offset: (p.offset + len) as usize, line: p.line, column: (p.column + 1) as u32 }
    }
}

/// The position after the scalar that stands at `p`; `p` itself where none does.
pub open spec fn position_after(data: Seq<u8>, p: Position) -> Position {
    match decode_at(data, p.offset as int) {
        Decoded::Scalar(c, len) => advance(p, c, len),
        _ => p,
    }
}

pub proof fn lemma_lines_columns_bound(s: Seq<u8>)
    ensures
        lines(s) <= s.len(),
        columns(s) <= s.len(),
    decreases s.len(),
{
    if s.len() > 0 {
        lemma_lines_columns_bound(s.drop_last());
    }
}

/// A well-formed scalar is between one and four bytes long and fits in the buffer;
/// it is a line feed exactly where its first byte is one; the bytes after
/// the first are continuation bytes.
pub proof fn lemma_scalar_shape(data: Seq<u8>, o: int)
    requires
        decode_at(data, o) is Scalar,
    ensures
        ({
            let c = decode_at(data, o)->Scalar_0;
            let len = decode_at(data, o)->Scalar_1;
            &&& 1 <= len <= 4
            &&& o + len <= data.len()
            &&& !is_continuation_byte(data[o])
            &&& (c == '\n') == (data[o] == 0x0A)
            &&& data[o] == 0x0A ==> len == 1
            &&& forall|k: int| o < k < o + len ==> is_continuation_byte(#[trigger] data[k])
        }),
{
    let rest = data.subrange(o, data.len() as int);
    let cp = decode_first_scalar(rest);
    let b0 = rest[0];
    let len = length_of_first_scalar(rest);
    assert(b0 == data[o]);
    lemma_first_scalar_is_scalar(rest);
    if is_leading_byte_width_1(b0) {
        assert(cp == (b0 & 0x7F) as u32);
        assert((b0 & 0x7F) == b0) by (bit_vector)
            requires
                b0 <= 0x7F,
        ;
    } else {
        assert(cp >= 0x80);
        assert forall|k: int| o < k < o + len implies is_continuation_byte(#[trigger] data[k]) by {
            assert(data[k] == rest[k - o]);
        }
    }
}

/// The number that a well-formed first scalar decodes to is a Unicode
/// scalar value, so the character made of it has that number.
pub proof fn lemma_first_scalar_is_scalar(rest: Seq<u8>)
    requires
        valid_first_scalar(rest),
    ensures
        is_scalar(decode_first_scalar(rest)),
        (decode_first_scalar(rest) as char) as u32 == decode_first_scalar(rest),
{
    let cp = decode_first_scalar(rest);
    let b0 = rest[0];
    if is_leading_byte_width_1(b0) {
        assert(cp <= 0x7F) by (bit_vector)
            requires
                cp == (b0 & 0x7F) as u32,
        ;
    } else if is_leading_byte_width_2(b0) {
        let b1 = rest[1];
        assert(cp <= 0x7FF) by (bit_vector)
            requires
                cp == (((b0 & 0x1F) as u32) << 6) | ((b1 & 0x3F) as u32),
        ;
    } else if is_leading_byte_width_3(b0) {
        let b1 = rest[1];
        let b2 = rest[2];
        assert(cp <= 0xFFFF) by (bit_vector)
            requires
                cp == (((b0 & 0x0F) as u32) << 12) | (((b1 & 0x3F) as u32) << 6) | ((b2 & 0x3F) as u32),
        ;
    } else {
    }
    assert(is_scalar(cp));
}

/// Moving past the scalar at a valid position gives a valid position.
pub proof fn lemma_advance_valid(data: Seq<u8>, p: Position)
    requires
        valid_position(data, p),
        decode_at(data, p.offset as int) is Scalar,
        data.len() <= u32::MAX,
    ensures
        valid_position(data, position_after(data, p)),
        position_after(data, p).offset == p.offset + decode_at(data, p.offset as int)->Scalar_1,
        p.line < u32::MAX,
        p.column < u32::MAX,
{
    let o = p.offset as int;
    let c = decode_at(data, o)->Scalar_0;
    let len = decode_at(data, o)->Scalar_1;
    lemma_scalar_shape(data, o);
    partial_valid_utf8_extend(data, o);
    lemma_lines_columns_bound(data.subrange(0, o));
    lemma_lines_columns_bound(data.subrange(0, o + len));
    lemma_extend_counts(data, o, len);
}

/// The counts of lines and columns after the bytes of one scalar.
pub proof fn lemma_extend_counts(data: Seq<u8>, o: int, len: int)
    requires
        0 <= o,
        1 <= len,
        o + len <= data.len(),
        !is_continuation_byte(data[o]),
        data[o] == 0x0A ==> len == 1,
        forall|k: int| o < k < o + len ==> is_continuation_byte(#[trigger] data[k]),
    ensures
        lines(data.subrange(0, o + len)) == lines(data.subrange(0, o)) + if data[o] == 0x0A {
            1nat
        } else {
            0nat
        },
        columns(data.subrange(0, o + len)) == if data[o] == 0x0A {
            0
        } else {
            columns(data.subrange(0, o)) + 1
        },
    decreases len,
{
    let s = data.subrange(0, o + len);
    assert(s.drop_last() =~= data.subrange(0, o + len - 1));
    assert(s.last() == data[o + len - 1]);
    if len > 1 {
        lemma_extend_counts(data, o, len - 1);
        assert(is_continuation_byte(data[o + len - 1]));
    }
}

/// An ASCII character is encoded by the one byte of its number, and a
/// scalar of one byte below `0x80` is that ASCII character.
pub proof fn lemma_ascii_scalar(data: Seq<u8>, o: int)
    requires
        decode_at(data, o) is Scalar,
    ensures
        ({
            let c = decode_at(data, o)->Scalar_0;
            let len = decode_at(data, o)->Scalar_1;
            &&& (c as u32) < 0x80 <==> data[o] < 0x80
            &&& data[o] < 0x80 ==> len == 1 && c as u32 == data[o]
        }),
{
    let rest = data.subrange(o, data.len() as int);
    let b0 = rest[0];
    assert(b0 == data[o]);
    lemma_first_scalar_is_scalar(rest);
    if is_leading_byte_width_1(b0) {
        assert((b0 & 0x7F) == b0) by (bit_vector)
            requires
                b0 <= 0x7F,
        ;
    }
}

/// A byte below `0x80` is the scalar of the ASCII character of its number.
pub proof fn lemma_ascii_at(data: Seq<u8>, o: int)
    requires
        0 <= o < data.len(),
        data[o] < 0x80,
    ensures
        decode_at(data, o) == Decoded::Scalar(data[o] as char, 1),
{
    let rest = data.subrange(o, data.len() as int);
    let b0 = rest[0];
    assert(b0 == data[o]);
    assert((b0 & 0x7F) == b0) by (bit_vector)
        requires
            b0 < 0x80,
    ;
}

/// A region of bytes below `0x80` is well-formed UTF-8.
pub proof fn lemma_ascii_region(data: Seq<u8>, from: int, to: int)
    requires
        0 <= from <= to <= data.len(),
        forall|k: int| from <= k < to ==> #[trigger] data[k] < 0x80,
    ensures
        valid_utf8(data.subrange(from, to)),
    decreases to - from,
{
    let region = data.subrange(from, to);
    if from < to {
        lemma_ascii_region(data, from + 1, to);
        assert(region[0] == data[from]);
        assert(pop_first_scalar(region) =~= data.subrange(from + 1, to));
        let b0 = region[0];
        assert((b0 & 0x7F) as u32 <= 0x7F) by (bit_vector);
    }
}

/// The bytes of one well-formed scalar are well-formed UTF-8 and decode to
/// that scalar alone.
pub proof fn lemma_single_scalar(data: Seq<u8>, o: int)
    requires
        decode_at(data, o) is Scalar,
    ensures
        ({
            let c = decode_at(data, o)->Scalar_0;
            let len = decode_at(data, o)->Scalar_1;
            &&& o + len <= data.len()
            &&& valid_utf8(data.subrange(o, o + len))
            &&& decode_utf8(data.subrange(o, o + len)) == seq![c]
        }),
{
    lemma_scalar_shape(data, o);
    let rest = data.subrange(o, data.len() as int);
    let len = length_of_first_scalar(rest);
    let b = data.subrange(o, o + len);
    assert(b[0] == rest[0]);
    if len >= 2 {
        assert(b[1] == rest[1]);
    }
    if len >= 3 {
        assert(b[2] == rest[2]);
    }
    if len >= 4 {
        assert(b[3] == rest[3]);
    }
    assert(valid_first_scalar(b));
    assert(decode_first_scalar(b) == decode_first_scalar(rest));
    assert(pop_first_scalar(b) =~= Seq::<u8>::empty());
    reveal_with_fuel(valid_utf8, 2);
    reveal_with_fuel(decode_utf8, 2);
    assert(decode_utf8(b) =~= seq![decode_first_scalar(rest) as char]);
}

/// Well-formed UTF-8 followed by well-formed UTF-8 decodes to the one text
/// followed by the other.
pub proof fn lemma_decode_concat(a: Seq<u8>, b: Seq<u8>)
    requires
        valid_utf8(a),
        valid_utf8(b),
    ensures
        valid_utf8(a + b),
        decode_utf8(a + b) == decode_utf8(a) + decode_utf8(b),
    decreases a.len(),
{
    valid_utf8_concat(a, b);
    if a.len() == 0 {
        assert(a + b =~= b);
        assert(decode_utf8(a) =~= Seq::<char>::empty());
        assert(decode_utf8(a) + decode_utf8(b) =~= decode_utf8(b));
    } else {
        let rest = pop_first_scalar(a);
        lemma_decode_concat(rest, b);
        assert(pop_first_scalar(a + b) =~= rest + b);
        assert(decode_first_scalar(a + b) == decode_first_scalar(a));
        assert(decode_utf8(a + b) =~= decode_utf8(a) + decode_utf8(b));
    }
}

/// The bytes between two scalar boundaries are well-formed UTF-8.
pub proof fn lemma_region_valid(data: Seq<u8>, from: int, to: int)
    requires
        0 <= from <= to <= data.len(),
        partial_valid_utf8(data, from),
        partial_valid_utf8(data, to),
    ensures
        valid_utf8(data.subrange(from, to)),
{
    let whole = data.subrange(0, to);
    assert(whole.subrange(0, from) =~= data.subrange(0, from));
    assert(whole.subrange(from, whole.len() as int) =~= data.subrange(from, to));
    if !valid_utf8(data.subrange(from, to)) {
        partial_valid_partial_invalid_utf8(whole, from);
    }
}

/// A region of well-formed UTF-8 that ends where a scalar begins, extended
/// by that scalar, is well-formed and decodes to one more character.
pub proof fn lemma_region_extend(data: Seq<u8>, from: int, o: int)
    requires
        0 <= from <= o,
        valid_utf8(data.subrange(from, o)),
        decode_at(data, o) is Scalar,
    ensures
        ({
            let c = decode_at(data, o)->Scalar_0;
            let len = decode_at(data, o)->Scalar_1;
            &&& o + len <= data.len()
            &&& valid_utf8(data.subrange(from, o + len))
            &&& decode_utf8(data.subrange(from, o + len)) == decode_utf8(data.subrange(from, o)).push(c)
        }),
{
    let c = decode_at(data, o)->Scalar_0;
    let len = decode_at(data, o)->Scalar_1;
    lemma_single_scalar(data, o);
    lemma_decode_concat(data.subrange(from, o), data.subrange(o, o + len));
    assert(data.subrange(from, o) + data.subrange(o, o + len) =~= data.subrange(from, o + len));
    assert(decode_utf8(data.subrange(from, o)) + seq![c] =~= decode_utf8(data.subrange(from, o)).push(c));
}

/// Where a region of well-formed UTF-8 is not empty, a scalar stands at its
/// start and ends within the region; the rest of the region is well-formed
/// and holds the rest of the text.
pub proof fn lemma_region_first(data: Seq<u8>, from: int, to: int)
    requires
        0 <= from < to <= data.len(),
        valid_utf8(data.subrange(from, to)),
    ensures
        decode_at(data, from) is Scalar,
        ({
            let c = decode_at(data, from)->Scalar_0;
            let len = decode_at(data, from)->Scalar_1;
            &&& from + len <= to
            &&& valid_utf8(data.subrange(from + len, to))
            &&& decode_utf8(data.subrange(from, to)) == seq![c] + decode_utf8(data.subrange(from + len, to))
        }),
{
    let region = data.subrange(from, to);
    let rest = data.subrange(from, data.len() as int);
    assert(valid_first_scalar(region));
    let len = length_of_first_scalar(region);
    assert(region[0] == rest[0]);
    if len >= 2 {
        assert(region[1] == rest[1]);
    }
    if len >= 3 {
        assert(region[2] == rest[2]);
    }
    if len >= 4 {
        assert(region[3] == rest[3]);
    }
    assert(valid_first_scalar(rest));
    assert(decode_first_scalar(rest) == decode_first_scalar(region));
    assert(pop_first_scalar(region) =~= data.subrange(from + len, to));
}

/// Decodes the scalar at offset `i`.
pub fn decode(data: &[u8], i: usize) -> (r: Result<(char, usize), usize>)
    requires
        i < data@.len(),
    ensures
        match decode_at(data@, i as int) {
            Decoded::End => false,
            Decoded::Scalar(c, n) => r == Ok::<(char, usize), usize>((c, n as usize)),
            Decoded::Invalid(n) => r == Err::<(char, usize), usize>(n as usize),
        },
{
    let ghost rest = data@.subrange(i as int, data@.len() as int);
    let n: usize = data.len() - i;
    let b: u8 = data[i];
    assert(rest[0] == b);
    if b < 0x80 {
        let cp: u32 = (b & 0x7F) as u32;
        assert((b & 0x7F) == b) by (bit_vector)
            requires
                b < 0x80,
        ;
        match char::from_u32(cp) {
            Some(c) => Ok((c, 1)),
            None => Err(1),
        }
    } else if b < 0xC0 {
        Err(1)
    } else if b < 0xE0 {
        if n < 2 {
            return Err(2);
        }
        let b1: u8 = data[i + 1];
        assert(rest[1] == b1);
        if b1 < 0x80 || b1 > 0xBF {
            return Err(2);
        }
        let cp: u32 = (((b & 0x1F) as u32) << 6) | ((b1 & 0x3F) as u32);
        assert(cp <= 0x7FF) by (bit_vector)
            requires
                cp == (((b & 0x1F) as u32) << 6) | ((b1 & 0x3F) as u32),
        ;
        if cp < 0x80 {
            return Err(2);
        }
        match char::from_u32(cp) {
            Some(c) => Ok((c, 2)),
            None => Err(2),
        }
    } else if b < 0xF0 {
        if n < 3 {
            return Err(3);
        }
        let b1: u8 = data[i + 1];
        let b2: u8 = data[i + 2];
        assert(rest[1] == b1);
        assert(rest[2] == b2);
        if b1 < 0x80 || b1 > 0xBF || b2 < 0x80 || b2 > 0xBF {
            return Err(3);
        }
        let cp: u32 = (((b & 0x0F) as u32) << 12) | (((b1 & 0x3F) as u32) << 6) | ((b2 & 0x3F) as u32);
        assert(cp <= 0xFFFF) by (bit_vector)
            requires
                cp == (((b & 0x0F) as u32) << 12) | (((b1 & 0x3F) as u32) << 6) | ((b2 & 0x3F) as u32),
        ;
        if cp < 0x800 {
            return Err(3);
        }
        match char::from_u32(cp) {
            Some(c) => Ok((c, 3)),
            None => Err(3),
        }
    } else if b <= 0xF4 {
        if n < 4 {
            return Err(4);
        }
        let b1: u8 = data[i + 1];
        let b2: u8 = data[i + 2];
        let b3: u8 = data[i + 3];
        assert(rest[1] == b1);
        assert(rest[2] == b2);
        assert(rest[3] == b3);
        if b1 < 0x80 || b1 > 0xBF || b2 < 0x80 || b2 > 0xBF || b3 < 0x80 || b3 > 0xBF {
            return Err(4);
        }
        let cp: u32 = (((b & 0x07) as u32) << 18) | (((b1 & 0x3F) as u32) << 12) | (((b2 & 0x3F) as u32) << 6) | ((b3
            & 0x3F) as u32);
        if cp < 0x10000 || cp > 0x10FFFF {
            return Err(4);
        }
        match char::from_u32(cp) {
            Some(c) => Ok((c, 4)),
            None => Err(4),
        }
    } else {
        proof {
            if b <= 0xF7 && rest.len() >= 4 {
                let b1 = rest[1];
                let b2 = rest[2];
                let b3 = rest[3];
                let cp: u32 = (((b & 0x07) as u32) << 18) | (((b1 & 0x3F) as u32) << 12) | (((b2 & 0x3F) as u32) << 6)
                    | ((b3 & 0x3F) as u32);
                assert(cp > 0x10FFFF) by (bit_vector)
                    requires
                        0xF5 <= b <= 0xF7,
                        cp == (((b & 0x07) as u32) << 18) | (((b1 & 0x3F) as u32) << 12) | (((b2 & 0x3F) as u32)
                            << 6) | ((b3 & 0x3F) as u32),
                ;
            }
        }
        Err(4)
    }
}

} // verus!
