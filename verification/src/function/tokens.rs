//! The tokens of calculator programs.

use crate::object::Number;
use hayro_syntax::content::Operator;
use hayro_syntax::reader::{Reader, ReaderContext, ReaderExt};
use vstd::prelude::*;

verus! {

/// The number that bytes start with, and its length; the grammar of numbers is that of PDF, with
/// what the syntax crate accepts beyond it.
pub uninterp spec fn number_token(bytes: Seq<u8>) -> Option<(Number, usize)>;

/// The number of digits that bytes start with.
pub open spec fn digit_run(bytes: Seq<u8>) -> nat
    decreases bytes.len(),
{
    if bytes.len() == 0 || !(0x30 <= bytes[0] <= 0x39) {
        0
    } else {
        1 + digit_run(bytes.skip(1))
    }
}

/// The number of digits behind the point of the number that bytes start with.
pub open spec fn fraction_digits(bytes: Seq<u8>) -> nat {
    let unsigned = if bytes.len() > 0 && (bytes[0] == 0x2B || bytes[0] == 0x2D) {
        bytes.skip(1)
    } else {
        bytes
    };
    let rest = unsigned.skip(digit_run(unsigned) as int);
    if rest.len() > 0 && rest[0] == 0x2E {
        digit_run(rest.skip(1))
    } else {
        0
    }
}

/// The number of digits that follow a position.
fn count_digits(bytes: &[u8], start: usize) -> (count: usize)
    requires
        start <= bytes@.len(),
    ensures
        count == digit_run(bytes@.skip(start as int)),
        count <= bytes@.len() - start,
{
    let mut at: usize = start;
    while at < bytes.len() && bytes[at] >= 0x30 && bytes[at] <= 0x39
        invariant
            start <= at <= bytes@.len(),
            digit_run(bytes@.skip(start as int)) == at - start + digit_run(bytes@.skip(at as int)),
        decreases bytes@.len() - at,
    {
        assert(bytes@.skip(at as int).skip(1) =~= bytes@.skip(at + 1));
        at = at + 1;
    }
    at - start
}

/// Whether the digits behind the point of the number that bytes start with can be counted in 32
/// bits.
pub(crate) fn has_countable_fraction(bytes: &[u8]) -> (countable: bool)
    ensures
        countable == (fraction_digits(bytes@) <= u32::MAX),
{
    let sign: usize = if bytes.len() > 0 && (bytes[0] == 0x2B || bytes[0] == 0x2D) {
        1
    } else {
        0
    };
    assert(bytes@.skip(0) =~= bytes@);
    let ghost unsigned = bytes@.skip(sign as int);
    let point: usize = sign + count_digits(bytes, sign);
    assert(unsigned.skip(point - sign) =~= bytes@.skip(point as int));
    if point < bytes.len() && bytes[point] == 0x2E {
        assert(bytes@.skip(point as int).skip(1) =~= bytes@.skip(point + 1));
        count_digits(bytes, point + 1) as u64 <= u32::MAX as u64
    } else {
        true
    }
}

/// The greatest number of digits behind a point up to which a number is determined by its bytes.
///
/// With more digits the scale is a power that machines may round differently.
pub const MAX_EXACT_FRACTION_DIGITS: usize = 19;

/// Bytes may be read as a number.
pub open spec fn may_read(bytes: Seq<u8>, number: Number) -> bool {
    &&& number_token(bytes) matches Some((expected, _))
    &&& if fraction_digits(bytes) <= MAX_EXACT_FRACTION_DIGITS {
        number == expected
    } else {
        number.integer is None
    }
}

/// Read the number that bytes start with, by `hayro_syntax::reader::ReaderExt::read` of a
/// `hayro_syntax::object::Number`.
///
/// The result is named: whether there is a number, and how long it is, depends on the bytes
/// alone, and so does the number if at most nineteen digits follow its point. With more digits
/// it is some number that is no integer: it is scaled by a power of ten whose precision std
/// leaves open. A number has at least one byte, and none beyond the end. The digits behind a
/// point are counted in 32 bits.
#[verifier::external_body]
pub(crate) fn read_number(bytes: &[u8]) -> (result: Option<(Number, usize)>)
    requires
        fraction_digits(bytes@) <= u32::MAX,
    ensures
        match number_token(bytes@) {
            Some((_, expected)) => result matches Some((number, length)) && length == expected
                && may_read(bytes@, number),
            None => result is None,
        },
        result matches Some((_, length)) ==> 0 < length <= bytes@.len(),
{
    let mut reader = Reader::new(bytes);
    let number = reader.read::<hayro_syntax::object::Number>(&ReaderContext::dummy())?;
    let value = Number {
        integer: number.to_string().parse().ok(),
        truncated: number.as_i64(),
        single: number.as_f32().to_bits(),
        narrowed: hayro_syntax::object::Object::Number(number).into_f32()?.to_bits(),
        double: number.as_f64().to_bits(),
    };
    Some((value, reader.offset()))
}

/// A white-space character.
pub open spec fn is_white_space(byte: u8) -> bool {
    byte == 0x00 || byte == 0x09 || byte == 0x0A || byte == 0x0C || byte == 0x0D || byte == 0x20
}

/// A delimiter: `(`, `)`, `<`, `>`, `[`, `]`, `{`, `}`, `/` or `%`.
pub open spec fn is_delimiter(byte: u8) -> bool {
    byte == 0x28 || byte == 0x29 || byte == 0x3C || byte == 0x3E || byte == 0x5B || byte == 0x5D
        || byte == 0x7B || byte == 0x7D || byte == 0x2F || byte == 0x25
}

/// A character that names are made of.
pub open spec fn is_regular(byte: u8) -> bool {
    !is_white_space(byte) && !is_delimiter(byte)
}

/// The number of regular characters that bytes start with.
pub open spec fn regular_run(bytes: Seq<u8>) -> nat
    decreases bytes.len(),
{
    if bytes.len() == 0 || !is_regular(bytes[0]) {
        0
    } else {
        1 + regular_run(bytes.skip(1))
    }
}

pub proof fn lemma_regular_run(bytes: Seq<u8>)
    ensures
        regular_run(bytes) <= bytes.len(),
    decreases bytes.len(),
{
    if bytes.len() > 0 {
        lemma_regular_run(bytes.skip(1));
    }
}

/// The value of a hexadecimal digit.
pub open spec fn hex_digit(byte: u8) -> Option<int> {
    if 0x30 <= byte <= 0x39 {
        Some(byte - 0x30)
    } else if 0x41 <= byte <= 0x46 {
        Some(byte - 0x41 + 10)
    } else if 0x61 <= byte <= 0x66 {
        Some(byte - 0x61 + 10)
    } else {
        None
    }
}

/// The name that regular characters stand for: a `#` and two hexadecimal digits are one byte.
pub open spec fn operator_name(characters: Seq<u8>) -> Seq<u8>
    decreases characters.len(),
{
    if characters.len() == 0 {
        Seq::empty()
    } else if characters[0] == 0x23 && characters.len() >= 3 && hex_digit(characters[1]) is Some
        && hex_digit(characters[2]) is Some {
        seq![(16 * hex_digit(characters[1])->0 + hex_digit(characters[2])->0) as u8]
            + operator_name(characters.skip(3))
    } else {
        seq![characters[0]] + operator_name(characters.skip(1))
    }
}

/// Read the operator that bytes start with, by `hayro_syntax::reader::ReaderExt::read` of a
/// `hayro_syntax::content::Operator`.
///
/// An operator is a run of regular characters, and its name is what they stand for.
#[verifier::external_body]
pub(crate) fn read_operator(bytes: &[u8]) -> (result: Option<(Vec<u8>, usize)>)
    ensures
        result is Some == (regular_run(bytes@) > 0),
        result matches Some((name, length)) ==> {
            &&& length == regular_run(bytes@)
            &&& name@ == operator_name(bytes@.take(length as int))
        },
{
    let mut reader = Reader::new(bytes);
    let operator = reader.read::<Operator<'_>>(&ReaderContext::dummy())?;
    Some((operator.to_vec(), reader.offset()))
}

/// The end of a comment.
pub open spec fn comment_end(data: Seq<u8>, at: int) -> int
    decreases data.len() - at,
{
    if at < 0 || at >= data.len() || data[at] == 0x0A || data[at] == 0x0D {
        at
    } else {
        comment_end(data, at + 1)
    }
}

/// The next position that is neither white space nor in a comment.
pub open spec fn skip_trivia(data: Seq<u8>, at: int) -> int
    decreases data.len() - at,
    via skip_trivia_ends
{
    if at < 0 || at >= data.len() {
        at
    } else if is_white_space(data[at]) {
        skip_trivia(data, at + 1)
    } else if data[at] == 0x25 {
        skip_trivia(data, comment_end(data, at + 1))
    } else {
        at
    }
}

#[via_fn]
proof fn skip_trivia_ends(data: Seq<u8>, at: int) {
    if 0 <= at < data.len() {
        lemma_comment_end(data, at + 1);
    }
}

pub proof fn lemma_comment_end(data: Seq<u8>, at: int)
    requires
        0 <= at <= data.len(),
    ensures
        at <= comment_end(data, at) <= data.len(),
    decreases data.len() - at,
{
    if at < data.len() && data[at] != 0x0A && data[at] != 0x0D {
        lemma_comment_end(data, at + 1);
    }
}

pub proof fn lemma_skip_trivia(data: Seq<u8>, at: int)
    requires
        0 <= at <= data.len(),
    ensures
        at <= skip_trivia(data, at) <= data.len(),
    decreases data.len() - at,
{
    if at < data.len() {
        if is_white_space(data[at]) {
            lemma_skip_trivia(data, at + 1);
        } else if data[at] == 0x25 {
            lemma_comment_end(data, at + 1);
            lemma_skip_trivia(data, comment_end(data, at + 1));
        }
    }
}

/// Skip white space and comments.
pub fn skip_white_spaces_and_comments(data: &[u8], start: usize) -> (end: usize)
    requires
        start <= data@.len(),
    ensures
        end == skip_trivia(data@, start as int),
        start <= end <= data@.len(),
{
    let mut at: usize = start;
    while at < data.len()
        invariant_except_break
            start <= at <= data@.len(),
            skip_trivia(data@, start as int) == skip_trivia(data@, at as int),
        ensures
            start <= at <= data@.len(),
            at == skip_trivia(data@, start as int),
        decreases data@.len() - at,
    {
        let byte: u8 = data[at];
        if byte == 0x25 {
            at = at + 1;
            let ghost comment = at as int;
            while at < data.len() && data[at] != 0x0A && data[at] != 0x0D
                invariant
                    comment <= at <= data@.len(),
                    comment_end(data@, comment) == comment_end(data@, at as int),
                decreases data@.len() - at,
            {
                at = at + 1;
            }
        } else if byte == 0x00 || byte == 0x09 || byte == 0x0A || byte == 0x0C || byte == 0x0D
            || byte == 0x20 {
            at = at + 1;
        } else {
            break;
        }
    }
    at
}

} // verus!
