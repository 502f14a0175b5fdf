//! What holds of every reader of characters, stated over the functions that
//! the contracts of the readers speak of.

use vstd::prelude::*;
use vstd::utf8::*;
use crate::io::decode::{
    advance, decode_at, lemma_extend_counts, lemma_region_first, lemma_region_valid, lemma_scalar_shape,
    columns, lines, valid_position,
};
use crate::io::reader::{read_at, read_position, without_bom, IoResult};
use crate::io::{IoErrorDetail, Position};

verus! {

/// Whether `p` comes before `q`, or is `q`, in the order of lines and, on
/// one line, of columns.
pub open spec fn line_column_le(p: Position, q: Position) -> bool {
    p.line < q.line || (p.line == q.line && p.column <= q.column)
}

/// Over a region of well-formed UTF-8 the count of lines does not fall, on
/// one line the count of columns does not fall, and one of the two grows
/// where the region is not empty.
proof fn lemma_counts_grow(data: Seq<u8>, from: int, to: int)
    requires
        0 <= from <= to <= data.len(),
        valid_utf8(data.subrange(from, to)),
    ensures
        lines(data.subrange(0, from)) <= lines(data.subrange(0, to)),
        lines(data.subrange(0, from)) == lines(data.subrange(0, to)) ==> columns(data.subrange(0, from)) <= columns(
            data.subrange(0, to),
        ),
        from < to ==> lines(data.subrange(0, from)) < lines(data.subrange(0, to)) || columns(data.subrange(0, from))
            < columns(data.subrange(0, to)),
    decreases to - from,
{
    if from < to {
        lemma_region_first(data, from, to);
        lemma_scalar_shape(data, from);
        let len = decode_at(data, from)->Scalar_1;
        lemma_extend_counts(data, from, len);
        lemma_counts_grow(data, from + len, to);
    }
}

/// Of two positions that a reader of a buffer is observed at, the one has
/// the lesser or the same offset exactly if it comes before the other, or is
/// the other, in the order of lines and columns.
pub proof fn lemma_positions_ordered(data: Seq<u8>, p: Position, q: Position)
    requires
        valid_position(data, p),
        valid_position(data, q),
    ensures
        p.offset <= q.offset <==> line_column_le(p, q),
{
    if p.offset <= q.offset {
        lemma_region_valid(data, p.offset as int, q.offset as int);
        lemma_counts_grow(data, p.offset as int, q.offset as int);
    } else {
        lemma_region_valid(data, q.offset as int, p.offset as int);
        lemma_counts_grow(data, q.offset as int, p.offset as int);
    }
}

/// The position and holding state of a reader after `n` reads.
pub open spec fn state_after(data: Seq<u8>, pos: Position, pending: bool, n: nat) -> (Position, bool)
    decreases n,
{
    if n == 0 {
        (pos, pending)
    } else {
        let (p, held) = state_after(data, pos, pending, (n - 1) as nat);
        let q = read_position(data, p, held);
        (q, read_at(data, q) matches Ok(Some(_)))
    }
}

/// What the read after `n` reads gives.
pub open spec fn nth_read(data: Seq<u8>, pos: Position, pending: bool, n: nat) -> IoResult<Option<char>> {
    let (p, held) = state_after(data, pos, pending, n);
    read_at(data, read_position(data, p, held))
}

/// The position at the start of a buffer.
pub open spec fn origin() -> Position {
    Position { offset: 0, line: 0, column: 0 }
}

/// After `n` reads of well-formed UTF-8 from its start, the next read
/// decodes at the boundary before what encodes the text from its `n`-th
/// character on.
proof fn lemma_reads_follow_text(data: Seq<u8>, n: nat)
    requires
        valid_utf8(data),
        data.len() <= usize::MAX,
        n <= decode_utf8(data).len(),
    ensures
        ({
            let (p, held) = state_after(data, origin(), false, n);
            let q = read_position(data, p, held);
            &&& q.offset <= data.len()
            &&& valid_utf8(data.subrange(q.offset as int, data.len() as int))
            &&& decode_utf8(data.subrange(q.offset as int, data.len() as int)) == decode_utf8(data).subrange(
                n as int,
                decode_utf8(data).len() as int,
            )
        }),
    decreases n,
{
    let chars = decode_utf8(data);
    if n == 0 {
        assert(data.subrange(0, data.len() as int) =~= data);
        assert(chars.subrange(0, chars.len() as int) =~= chars);
    } else {
        lemma_reads_follow_text(data, (n - 1) as nat);
        let (before, held_before) = state_after(data, origin(), false, (n - 1) as nat);
        let here = read_position(data, before, held_before);
        let rest_here = data.subrange(here.offset as int, data.len() as int);
        assert(decode_utf8(rest_here).len() > 0);
        if here.offset == data.len() {
            assert(rest_here =~= Seq::<u8>::empty());
            reveal_with_fuel(decode_utf8, 1);
            assert(false);
        }
        lemma_region_first(data, here.offset as int, data.len() as int);
        lemma_scalar_shape(data, here.offset as int);
        let c = decode_at(data, here.offset as int)->Scalar_0;
        let len = decode_at(data, here.offset as int)->Scalar_1;
        let (p, held) = state_after(data, origin(), false, n);
        assert(p == here && held);
        let q = read_position(data, p, held);
        assert(q == advance(here, c, len));
        assert(q.offset == here.offset + len);
        let rest = data.subrange(q.offset as int, data.len() as int);
        let tail_here = chars.subrange(n - 1, chars.len() as int);
        assert(decode_utf8(rest_here) == tail_here);
        assert(decode_utf8(rest_here) =~= seq![c] + decode_utf8(rest));
        assert(decode_utf8(rest) =~= (seq![c] + decode_utf8(rest)).subrange(1, 1 + decode_utf8(rest).len() as int));
        assert(tail_here.subrange(1, tail_here.len() as int) =~= chars.subrange(n as int, chars.len() as int));
        assert(decode_utf8(rest) =~= chars.subrange(n as int, chars.len() as int));
    }
}

/// The reads of a reader that begins at the start of well-formed UTF-8 give
/// the characters of the text that the buffer encodes, one after the other,
/// and then the end of the input.
pub proof fn lemma_reads_give_text(data: Seq<u8>, n: nat)
    requires
        valid_utf8(data),
        data.len() <= usize::MAX,
        n <= decode_utf8(data).len(),
    ensures
        n < decode_utf8(data).len() ==> nth_read(data, origin(), false, n) == Ok::<Option<char>, IoErrorDetail>(
            Some(decode_utf8(data)[n as int]),
        ),
        n == decode_utf8(data).len() ==> nth_read(data, origin(), false, n) == Ok::<Option<char>, IoErrorDetail>(
            None,
        ),
{
    lemma_reads_follow_text(data, n);
    let chars = decode_utf8(data);
    let (p, held) = state_after(data, origin(), false, n);
    let q = read_position(data, p, held);
    let rest = data.subrange(q.offset as int, data.len() as int);
    if n < chars.len() {
        assert(decode_utf8(rest).len() > 0);
        if q.offset == data.len() {
            assert(rest =~= Seq::<u8>::empty());
            reveal_with_fuel(decode_utf8, 1);
            assert(false);
        }
        lemma_region_first(data, q.offset as int, data.len() as int);
        let c = decode_at(data, q.offset as int)->Scalar_0;
        let len = decode_at(data, q.offset as int)->Scalar_1;
        assert(decode_utf8(rest)[0] == c);
        assert(chars.subrange(n as int, chars.len() as int)[0] == chars[n as int]);
    } else {
        assert(decode_utf8(rest).len() == 0);
        if q.offset < data.len() {
            lemma_region_first(data, q.offset as int, data.len() as int);
            assert(false);
        }
    }
}

/// The position and holding state of a reader that was in the state
/// `before` and was moved to `p`: it stands at `p` and holds no scalar,
/// whatever it held before.
pub open spec fn sought(before: (Position, bool), p: Position) -> (Position, bool) {
    (p, false)
}

/// A reader that holds no scalar, and that after one read is moved back to
/// the position that it had before that read, reads again what that read gave.
pub proof fn lemma_seek_rereads(data: Seq<u8>, p: Position)
    ensures
        ({
            let first = nth_read(data, p, false, 0);
            let after_first = state_after(data, p, false, 1);
            let (q, held) = sought(after_first, p);
            nth_read(data, q, held, 0) == first
        }),
{
}

/// A reader over a buffer that begins with a byte order mark reads what a
/// reader over the rest of the buffer reads, where the rest does not begin
/// with another mark.
pub proof fn lemma_bom_suppressed(rest: Seq<u8>)
    requires
        without_bom(rest) == rest,
    ensures
        without_bom(seq![0xEFu8, 0xBBu8, 0xBFu8] + rest) == without_bom(rest),
{
    let whole = seq![0xEFu8, 0xBBu8, 0xBFu8] + rest;
    assert(whole.subrange(3, whole.len() as int) =~= rest);
}

} // verus!
