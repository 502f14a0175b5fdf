//! What holds of every number that the recogniser yields, stated over the
//! functions that its contract speaks of.

use vstd::prelude::*;
use crate::io::decode::{
    advance, decode_at, lemma_advance_valid, lemma_ascii_scalar, lemma_scalar_shape, position_after, position_of,
    valid_position, Decoded,
};
use crate::io::reader::read_at;
use crate::io::{IoErrorDetail, Position};
use crate::parse::num::{
    after_sign, decimal_outcome, decimal_scan, decimal_start, decimal_step, is_digit_char, lemma_digit_byte, retract,
    simple_outcome, simple_scan, DecimalConfig, DecimalState, Notation, Rules, Sign,
};

verus! {

/// No number in a notation with a prefix begins, after its sign and its
/// prefix, with an underscore: the recogniser yields no token where one
/// stands there.
pub proof fn lemma_simple_leading_underscore(rules: Rules, sign: Sign, data: Seq<u8>, first: Position)
    requires
        data.len() <= usize::MAX,
        read_at(data, position_of(data, after_sign(data, first, sign).offset + rules.prefix.len())) == Ok::<
            Option<char>,
            IoErrorDetail,
        >(Some('_')),
    ensures
        !(simple_outcome(rules, sign, data, first) is Token),
{
    reveal(simple_outcome);
}

/// Whether every underscore among the bytes from `from` to `to` stands
/// between two bytes that are no underscores: none is the first of the bytes,
/// none the last, and no two stand side by side.
pub open spec fn grouped(data: Seq<u8>, from: int, to: int) -> bool {
    forall|k: int|
        from <= k < to && #[trigger] data[k] == 0x5F ==> from < k && k + 1 < to && data[k - 1] != 0x5F && data[k + 1]
            != 0x5F
}

/// Where the reading of digits does not end for want of a digit, the
/// underscores among the bytes that it has passed stand between digits, and
/// the last of those bytes is a digit.
proof fn lemma_scan_grouped(rules: Rules, data: Seq<u8>, from: int, pos: Position, digit_seen: bool)
    requires
        data.len() <= usize::MAX,
        0 <= from <= pos.offset <= data.len(),
        digit_seen == (pos.offset > from),
        grouped(data, from, pos.offset as int),
        pos.offset > from ==> data[pos.offset - 1] != 0x5F,
    ensures
        ({
            let (end, wanting) = simple_scan(rules, data, pos, digit_seen);
            !wanting ==> pos.offset <= end.offset <= data.len() && grouped(data, from, end.offset as int) && (
            end.offset > from ==> data[end.offset - 1] != 0x5F)
        }),
    decreases data.len() - pos.offset,
{
    match decode_at(data, pos.offset as int) {
        Decoded::Scalar(c, len) => {
            lemma_scalar_shape(data, pos.offset as int);
            lemma_ascii_scalar(data, pos.offset as int);
            if is_digit_char(rules.notation, rules.case, c) {
                lemma_digit_byte(rules.notation, rules.case, c);
                let next = advance(pos, c, len);
                assert(data[pos.offset as int] != 0x5F);
                lemma_scan_grouped(rules, data, from, next, true);
            } else if c == '_' && rules.allow_underscores && digit_seen {
                let after = advance(pos, c, len);
                assert(data[pos.offset as int] == 0x5F);
                match decode_at(data, after.offset as int) {
                    Decoded::Scalar(d, digit_len) => {
                        lemma_scalar_shape(data, after.offset as int);
                        lemma_ascii_scalar(data, after.offset as int);
                        if is_digit_char(rules.notation, rules.case, d) {
                            lemma_digit_byte(rules.notation, rules.case, d);
                            let next = advance(after, d, digit_len);
                            assert(data[after.offset as int] != 0x5F);
                            assert(next.offset == pos.offset + 2);
                            lemma_scan_grouped(rules, data, from, next, true);
                        }
                    },
                    _ => {},
                }
            }
        },
        _ => {},
    }
}

/// In a number of a notation with a prefix, every underscore stands between
/// two digits: after the sign and the prefix, the number does not begin with
/// an underscore, it does not end with one, and it holds no two side by side.
/// Where the input has an underscore that is not followed by a digit, it
/// holds no number that reaches past that underscore.
pub proof fn lemma_simple_grouping(rules: Rules, sign: Sign, data: Seq<u8>, first: Position)
    requires
        data.len() <= usize::MAX,
        simple_outcome(rules, sign, data, first) is Token,
    ensures
        ({
            let from = position_of(data, after_sign(data, first, sign).offset + rules.prefix.len()).offset as int;
            let end = simple_outcome(rules, sign, data, first)->Token_span.end.offset as int;
            &&& from < end <= data.len()
            &&& grouped(data, from, end)
            &&& data[from] != 0x5F
            &&& data[end - 1] != 0x5F
        }),
{
    reveal(simple_outcome);
    let p = position_of(data, after_sign(data, first, sign).offset + rules.prefix.len());
    if p.offset <= data.len() {
        lemma_scan_grouped(rules, data, p.offset as int, p, false);
        let end = simple_scan(rules, data, p, false).0;
        if data[p.offset as int] == 0x5F {
            assert(grouped(data, p.offset as int, end.offset as int));
        }
    }
}

/// No decimal number begins, after its sign, with an underscore: the
/// recogniser yields no token where one stands there.
pub proof fn lemma_decimal_leading_underscore(cfg: DecimalConfig, sign: Sign, data: Seq<u8>, first: Position)
    requires
        data.len() <= usize::MAX,
        read_at(data, after_sign(data, first, sign)) == Ok::<Option<char>, IoErrorDetail>(Some('_')),
    ensures
        !(decimal_outcome(cfg, sign, data, first) is Token),
{
    reveal(decimal_outcome);
}

/// Whether a state of the recogniser of decimal numbers in which the last
/// character was the dot stands right after that dot, which followed a whole
/// number.
pub open spec fn after_dot(data: Seq<u8>, pos: Position, st: DecimalState) -> bool {
    st.last is Dot ==> {
        &&& st.notation == Some(Notation::Decimal)
        &&& pos.offset >= 1
        &&& pos.column >= 1
        &&& valid_position(data, retract(pos))
        &&& read_at(data, retract(pos)) == Ok::<Option<char>, IoErrorDetail>(Some('.'))
    }
}

/// The recogniser of decimal numbers stops right after a dot where the
/// last character that it read was one.
proof fn lemma_scan_after_dot(cfg: DecimalConfig, data: Seq<u8>, pos: Position, st: DecimalState)
    requires
        data.len() <= u32::MAX,
        valid_position(data, pos),
        after_dot(data, pos, st),
    ensures
        after_dot(data, decimal_scan(cfg, data, pos, st).0, decimal_scan(cfg, data, pos, st).1),
    decreases data.len() - pos.offset,
{
    match decode_at(data, pos.offset as int) {
        Decoded::Scalar(c, len) => {
            lemma_advance_valid(data, pos);
            lemma_scalar_shape(data, pos.offset as int);
            lemma_ascii_scalar(data, pos.offset as int);
            match decimal_step(cfg, st, c) {
                Some(next) => {
                    let q = advance(pos, c, len);
                    assert(q == position_after(data, pos));
                    if next.last is Dot {
                        assert(c == '.');
                        assert(retract(q) == pos);
                    }
                    lemma_scan_after_dot(cfg, data, q, next);
                },
                None => {},
            }
        },
        _ => {},
    }
}

/// A whole number that is followed by a dot without a digit after it is
/// recognised without the dot: the token ends before the dot, and the dot is
/// what stands at its end.
pub proof fn lemma_dot_retracted(cfg: DecimalConfig, sign: Sign, data: Seq<u8>, first: Position)
    requires
        data.len() <= u32::MAX,
        valid_position(data, first),
        decimal_outcome(cfg, sign, data, first) is Token,
        decimal_scan(cfg, data, after_sign(data, first, sign), decimal_start()).1.last is Dot,
    ensures
        decimal_outcome(cfg, sign, data, first)->Token_notation is Decimal,
        decimal_outcome(cfg, sign, data, first)->Token_span.end == retract(
            decimal_scan(cfg, data, after_sign(data, first, sign), decimal_start()).0,
        ),
        read_at(data, decimal_outcome(cfg, sign, data, first)->Token_span.end) == Ok::<Option<char>, IoErrorDetail>(
            Some('.'),
        ),
{
    reveal(decimal_outcome);
    if !(sign is Absent) && decode_at(data, first.offset as int) is Scalar {
        lemma_advance_valid(data, first);
    }
    lemma_scan_after_dot(cfg, data, after_sign(data, first, sign), decimal_start());
}

} // verus!
