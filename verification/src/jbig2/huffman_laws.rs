//! What holds of Huffman tables as a whole.

use crate::bits::{
    bit_at, bit_range, bits_value, lemma_value_bits_length,
    lemma_value_bits_of_value, lemma_value_of_value_bits, signed_word, value_bits, word_at,
};
use crate::jbig2::error::{
    conflicting_codes_error, eof_error, invalid_code_error, reserved_bits_error, Result,
};
use crate::jbig2::huffman_codes::{
    assigned, code, code_paths, code_value, code_weight, first_code, lemma_code_fits,
    lemma_node_bound, lemma_overfilled_by_weight, length_count, node_count, overfilled,
    overfilled_at, TableLine,
};
use crate::jbig2::huffman_table::{
    built, custom_table, field, line_value, marks_out_of_band, matches_line, normal_lines,
    suffix_width, uniform_lines, HuffmanTable, MAX_NODES,
};
use vstd::arithmetic::power2::{lemma_pow2_unfold, pow2};
use vstd::prelude::*;

verus! {

/// A custom table is refused if its header is incomplete, if a reserved bit is set, or if its
/// lowest value is not below its highest one.
pub proof fn lemma_custom_refused(data: Seq<u8>, pos: int)
    requires
        0 <= pos,
        pos % 8 == 0,
    ensures
        data.len() < pos / 8 + 9 ==> custom_table(data, pos) is Err,
        pos / 8 >= data.len() ==> custom_table(data, pos) == Err::<
            (Seq<TableLine>, int),
            crate::jbig2::error::DecodeError,
        >(eof_error()),
        pos / 8 < data.len() && data[pos / 8] & 0x80u8 != 0 ==> custom_table(data, pos) == Err::<
            (Seq<TableLine>, int),
            crate::jbig2::error::DecodeError,
        >(reserved_bits_error()),
        pos / 8 + 9 <= data.len() && data[pos / 8] & 0x80u8 == 0 && signed_word(
            word_at(data, pos / 8 + 1),
        ) >= signed_word(word_at(data, pos / 8 + 5)) ==> custom_table(data, pos) == Err::<
            (Seq<TableLine>, int),
            crate::jbig2::error::DecodeError,
        >(invalid_code_error()),
{
}

proof fn lemma_field_of_prefix(data: Seq<u8>, count: int, pos: int, width: int)
    requires
        0 <= count <= data.len(),
        0 <= pos,
        0 <= width,
        pos + width <= count * 8,
    ensures
        field(data.take(count), pos, width) == field(data, pos, width),
{
    let part = bit_range(data.take(count), pos, pos + width);
    let whole = bit_range(data, pos, pos + width);
    assert forall|k: int| 0 <= k < width implies #[trigger] part[k] == whole[k] by {
        assert(0 <= (pos + k) / 8 < count);
        assert(bit_at(data.take(count), pos + k) == bit_at(data, pos + k));
    }
    assert(part =~= whole);
}

proof fn lemma_lines_of_prefix(
    data: Seq<u8>,
    count: int,
    pos: int,
    low: int,
    high: int,
    prefix_bits: int,
    range_bits: int,
)
    requires
        0 <= count <= data.len(),
        0 <= pos,
        1 <= prefix_bits,
        1 <= range_bits,
    ensures
        normal_lines(data.take(count), pos, low, high, prefix_bits, range_bits) matches Some(read)
            ==> normal_lines(data, pos, low, high, prefix_bits, range_bits) == Some(read) && pos
            <= read.1 <= count * 8,
    decreases high - low,
{
    let behind = pos + prefix_bits + range_bits;
    if behind <= count * 8 {
        lemma_field_of_prefix(data, count, pos, prefix_bits);
        lemma_field_of_prefix(data, count, pos + prefix_bits, range_bits);
        let range_length = field(data, pos + prefix_bits, range_bits);
        vstd::arithmetic::power2::lemma_pow2_pos(range_length);
        if !(low >= high || range_length >= 32 || low + pow2(range_length) >= high) {
            lemma_lines_of_prefix(
                data,
                count,
                behind,
                low + pow2(range_length),
                high,
                prefix_bits,
                range_bits,
            );
        }
    }
}

/// A custom table that is read from the first bytes is read from all of them.
pub proof fn lemma_custom_extended(data: Seq<u8>, count: int, pos: int)
    requires
        0 <= count <= data.len(),
        0 <= pos,
        pos % 8 == 0,
        custom_table(data.take(count), pos) is Ok,
    ensures
        custom_table(data, pos) == custom_table(data.take(count), pos),
        custom_table(data, pos)->Ok_0.1 <= count * 8,
{
    let part = data.take(count);
    let at = pos / 8;
    let flags = part[at];
    assert(flags == data[at]);
    assert(((flags >> 1) & 7u8) <= 7 && ((flags >> 4) & 7u8) <= 7) by (bit_vector);
    let prefix_bits = ((flags >> 1) & 7u8) + 1;
    let range_bits = ((flags >> 4) & 7u8) + 1;
    assert(word_at(part, at + 1) == word_at(data, at + 1));
    assert(word_at(part, at + 5) == word_at(data, at + 5));
    let low = signed_word(word_at(data, at + 1));
    let high = signed_word(word_at(data, at + 5));
    lemma_lines_of_prefix(data, count, pos + 72, low, high, prefix_bits, range_bits);
    let (lines, end) = normal_lines(part, pos + 72, low, high, prefix_bits, range_bits)->0;
    lemma_field_of_prefix(data, count, end, prefix_bits);
    lemma_field_of_prefix(data, count, end + prefix_bits, prefix_bits);
    if flags & 1u8 != 0 {
        lemma_field_of_prefix(data, count, end + 2 * prefix_bits, prefix_bits);
    }
}

/// No part of a custom table that ends before the table does is a custom table.
pub proof fn lemma_custom_prefix_refused(data: Seq<u8>, count: int, pos: int)
    requires
        0 <= count <= data.len(),
        0 <= pos,
        pos % 8 == 0,
        custom_table(data, pos) matches Ok((_, end)) && count * 8 < end,
    ensures
        custom_table(data.take(count), pos) is Err,
{
    if custom_table(data.take(count), pos) is Ok {
        lemma_custom_extended(data, count, pos);
    }
}

proof fn lemma_uniform_count(count: nat, code_length: u8, length: nat)
    ensures
        length_count(uniform_lines(count, code_length), length) == if length == code_length {
            count
        } else {
            0
        },
    decreases count,
{
    let lines = uniform_lines(count, code_length);
    if count > 0 {
        assert(lines.drop_last() =~= uniform_lines((count - 1) as nat, code_length));
        lemma_uniform_count((count - 1) as nat, code_length, length);
    }
}

proof fn lemma_uniform_first(count: nat, code_length: u8, length: nat)
    ensures
        length <= code_length ==> first_code(uniform_lines(count, code_length), length) == 0,
        1 <= code_length && count <= pow2(code_length as nat) && 1 <= length ==> first_code(
            uniform_lines(count, code_length),
            length,
        ) + length_count(uniform_lines(count, code_length), length) <= pow2(length),
    decreases length,
{
    let lines = uniform_lines(count, code_length);
    lemma_uniform_count(count, code_length, length);
    vstd::arithmetic::power2::lemma_pow2_pos(length);
    if length > 1 {
        let shorter = (length - 1) as nat;
        lemma_uniform_first(count, code_length, shorter);
        lemma_uniform_count(count, code_length, shorter);
        lemma_pow2_unfold(length);
    }
}

/// Codes of one length fit if there are no more symbols than bit strings of that length.
pub proof fn lemma_uniform_fits(count: nat, code_length: u8)
    requires
        1 <= code_length,
    ensures
        overfilled(uniform_lines(count, code_length)) == (count > pow2(code_length as nat)),
{
    let lines = uniform_lines(count, code_length);
    if count > pow2(code_length as nat) {
        lemma_uniform_count(count, code_length, code_length as nat);
        assert(overfilled_at(lines, code_length as nat));
    } else {
        assert forall|length: nat| 1 <= length <= 255 implies !#[trigger] overfilled_at(
            lines,
            length,
        ) by {
            lemma_uniform_first(count, code_length, length);
        }
    }
}

/// In a uniform table the code of a symbol is its number, and the symbol is what is decoded from
/// exactly that many bits. Bits that denote no symbol start no code.
pub proof fn lemma_uniform_codes(count: nat, code_length: u8, rest: Seq<bool>)
    requires
        1 <= code_length,
        count <= 0x8000_0000,
        count <= pow2(code_length as nat),
        rest.len() >= code_length,
    ensures
        ({
            let lines = uniform_lines(count, code_length);
            let symbol = bits_value(rest.take(code_length as int)) as int;
            if symbol < count {
                &&& matches_line(lines, rest, symbol)
                &&& lines[symbol].prefix_length == code_length
                &&& suffix_width(lines[symbol]) == 0
                &&& line_value(lines[symbol], rest.skip(code_length as int)) == Ok::<
                    Option<i32>,
                    crate::jbig2::error::DecodeError,
                >(Some(symbol as i32))
            } else {
                forall|i: int| #![trigger code(lines, i)] !matches_line(lines, rest, i)
            }
        }),
{
    let lines = uniform_lines(count, code_length);
    let width = code_length as nat;
    let head = rest.take(code_length as int);
    let symbol = bits_value(head) as int;
    lemma_value_bits_of_value(head);
    lemma_uniform_fits(count, code_length);
    if symbol < count {
        lemma_uniform_code(count, code_length, symbol);
        assert(code(lines, symbol) == head);
        assert(assigned(lines, symbol));
        assert(bits_value(rest.skip(code_length as int).take(0)) == 0);
    }
    assert forall|i: int| #![trigger code(lines, i)] matches_line(lines, rest, i) implies i
        == symbol by {
        lemma_uniform_code(count, code_length, i);
        lemma_code_fits(lines, i);
        assert(code(lines, i) =~= head);
        assert(bits_value(code(lines, i)) == code_value(lines, i));
    }
}

/// The code of a symbol in a uniform table is its number.
pub proof fn lemma_uniform_code(count: nat, code_length: u8, symbol: int)
    requires
        1 <= code_length,
        0 <= symbol < count,
    ensures
        code_value(uniform_lines(count, code_length), symbol) == symbol,
        code(uniform_lines(count, code_length), symbol) == value_bits(
            symbol as nat,
            code_length as nat,
        ),
{
    let lines = uniform_lines(count, code_length);
    lemma_uniform_first(count, code_length, code_length as nat);
    assert(lines.take(symbol) =~= uniform_lines(symbol as nat, code_length));
    lemma_uniform_count(symbol as nat, code_length, code_length as nat);
}

/// Lines make a table if and only if the shares of their codes add up to at most the whole code
/// space, unless the tree would have too many nodes. Up to 16843009 lines never need too many.
pub proof fn lemma_built_by_weight(
    lines: Seq<TableLine>,
    longest: nat,
    result: Result<HuffmanTable>,
)
    requires
        1 <= longest <= 255,
        forall|i: int| 0 <= i < lines.len() ==> (#[trigger] lines[i]).prefix_length <= longest,
        built(lines, result),
    ensures
        code_weight(lines, longest) > pow2(longest) ==> result == Err::<
            HuffmanTable,
            crate::jbig2::error::DecodeError,
        >(conflicting_codes_error()),
        code_weight(lines, longest) <= pow2(longest) ==> {
            &&& result is Ok <==> node_count(lines) <= MAX_NODES
            &&& lines.len() <= 16843009 ==> result is Ok
        },
{
    lemma_overfilled_by_weight(lines, longest);
    lemma_node_bound(lines);
}

/// The size of the tree of a uniform table: with each bit less, half as many codes start.
pub open spec fn uniform_nodes(count: nat, code_length: nat) -> nat
    decreases code_length,
{
    if count == 0 || code_length == 0 {
        1
    } else {
        count + uniform_nodes((count + 1) / 2, (code_length - 1) as nat)
    }
}

spec fn numbers(count: nat, width: nat) -> Set<Seq<bool>> {
    Set::new(
        |path: Seq<bool>|
            exists|i: nat| i < count && path == #[trigger] value_bits(i, width),
    )
}

proof fn lemma_numbers(count: nat, width: nat)
    requires
        count <= pow2(width),
    ensures
        numbers(count, width).finite(),
        numbers(count, width).len() == count,
    decreases count,
{
    if count == 0 {
        assert(numbers(0, width) =~= Set::empty());
    } else {
        let last = (count - 1) as nat;
        let bits = value_bits(last, width);
        lemma_numbers(last, width);
        lemma_value_of_value_bits(last, width);
        assert(!numbers(last, width).contains(bits)) by {
            if numbers(last, width).contains(bits) {
                let i = choose|i: nat| i < last && bits == #[trigger] value_bits(i, width);
                lemma_value_of_value_bits(i, width);
            }
        }
        assert forall|path: Seq<bool>| #[trigger] numbers(count, width).contains(path) == numbers(
            last,
            width,
        ).insert(bits).contains(path) by {
            if numbers(count, width).contains(path) {
                let i = choose|i: nat| i < count && path == #[trigger] value_bits(i, width);
                assert(i < last || i == last);
            }
            if numbers(last, width).contains(path) {
                let i = choose|i: nat| i < last && path == #[trigger] value_bits(i, width);
                assert(i < count);
            }
        }
        assert(numbers(count, width) =~= numbers(last, width).insert(bits));
    }
}

/// The bits that start the number of a symbol are its number, or start the number of half the
/// symbol.
proof fn lemma_uniform_paths(count: nat, code_length: u8)
    requires
        1 <= code_length,
    ensures
        ({
            let fewer = uniform_lines((count + 1) / 2, (code_length - 1) as u8);
            &&& code_paths(uniform_lines(count, code_length)) == code_paths(fewer).union(
                numbers(count, code_length as nat),
            )
            &&& code_paths(fewer).disjoint(numbers(count, code_length as nat))
        }),
{
    let width = code_length as nat;
    let lines = uniform_lines(count, code_length);
    let half = (count + 1) / 2;
    let fewer = uniform_lines(half, (code_length - 1) as u8);
    assert forall|path: Seq<bool>| #[trigger] code_paths(lines).contains(path) implies code_paths(
        fewer,
    ).contains(path) || numbers(count, width).contains(path) by {
        let i = choose|i: int| assigned(lines, i) && path.is_prefix_of(#[trigger] code(lines, i));
        lemma_uniform_code(count, code_length, i);
        lemma_value_bits_length(i as nat, width);
        if path.len() == width {
            assert(path =~= value_bits(i as nat, width));
        } else {
            let j = (i / 2) as nat;
            lemma_value_bits_length(j, (width - 1) as nat);
            assert(path.is_prefix_of(value_bits(j, (width - 1) as nat)));
            lemma_uniform_code(half, (code_length - 1) as u8, j as int);
            assert(assigned(fewer, j as int));
        }
    }
    assert forall|path: Seq<bool>| #[trigger] numbers(count, width).contains(path) implies code_paths(
        lines,
    ).contains(path) && !code_paths(fewer).contains(path) by {
        let i = choose|i: nat| i < count && path == #[trigger] value_bits(i, width);
        lemma_value_bits_length(i, width);
        lemma_uniform_code(count, code_length, i as int);
        assert(assigned(lines, i as int));
        assert(path.is_prefix_of(code(lines, i as int)));
        if code_paths(fewer).contains(path) {
            let j = choose|j: int|
                assigned(fewer, j) && path.is_prefix_of(#[trigger] code(fewer, j));
            lemma_uniform_code(half, (code_length - 1) as u8, j);
            lemma_value_bits_length(j as nat, (width - 1) as nat);
        }
    }
    assert forall|path: Seq<bool>| #[trigger] code_paths(fewer).contains(path) implies code_paths(
        lines,
    ).contains(path) by {
        let j = choose|j: int| assigned(fewer, j) && path.is_prefix_of(#[trigger] code(fewer, j));
        lemma_uniform_code(half, (code_length - 1) as u8, j);
        let i = 2 * j;
        lemma_uniform_code(count, code_length, i);
        lemma_value_bits_length(j as nat, (width - 1) as nat);
        assert((i as nat) / 2 == j as nat);
        assert(value_bits(i as nat, width).drop_last() =~= value_bits(j as nat, (width - 1) as nat));
        assert(assigned(lines, i));
        assert(path.is_prefix_of(code(lines, i)));
    }
    assert(code_paths(lines) =~= code_paths(fewer).union(numbers(count, width)));
}

proof fn lemma_uniform_node_count(count: nat, code_length: u8)
    requires
        count <= pow2(code_length as nat),
    ensures
        node_count(uniform_lines(count, code_length)) == uniform_nodes(count, code_length as nat),
    decreases code_length,
{
    let lines = uniform_lines(count, code_length);
    if count == 0 || code_length == 0 {
        assert(code_paths(lines) =~= Set::empty());
    } else {
        let half = (count + 1) / 2;
        let fewer = uniform_lines(half, (code_length - 1) as u8);
        lemma_pow2_unfold(code_length as nat);
        lemma_uniform_node_count(half, (code_length - 1) as u8);
        lemma_uniform_paths(count, code_length);
        lemma_numbers(count, code_length as nat);
        lemma_node_bound(fewer);
        vstd::set_lib::lemma_set_disjoint_lens(
            code_paths(fewer),
            numbers(count, code_length as nat),
        );
    }
}

proof fn lemma_uniform_nodes_bound(count: nat, code_length: nat, width: nat)
    requires
        count <= pow2(width),
        width <= code_length,
    ensures
        uniform_nodes(count, code_length) <= 2 * pow2(width) + (code_length - width) - 1,
        uniform_nodes(count, code_length) <= 2 * count + code_length + 1,
    decreases code_length,
{
    vstd::arithmetic::power2::lemma2_to64();
    vstd::arithmetic::power2::lemma_pow2_pos(width);
    if count > 0 && code_length > 0 {
        let half = (count + 1) / 2;
        if width == 0 {
            lemma_uniform_nodes_bound(half, (code_length - 1) as nat, 0);
        } else {
            lemma_pow2_unfold(width);
            lemma_uniform_nodes_bound(half, (code_length - 1) as nat, (width - 1) as nat);
        }
    }
}

/// Symbols make a uniform table if and only if there are no more of them than bit strings of the
/// length of their codes, unless the tree would have too many nodes. Up to 2^31 symbols never need
/// too many with codes of up to 32 bits, nor if they leave room for the length of a code.
pub proof fn lemma_uniform_built(count: nat, code_length: u8, result: Result<HuffmanTable>)
    requires
        1 <= code_length,
        built(uniform_lines(count, code_length), result),
    ensures
        count > pow2(code_length as nat) ==> result == Err::<
            HuffmanTable,
            crate::jbig2::error::DecodeError,
        >(conflicting_codes_error()),
        count <= pow2(code_length as nat) ==> {
            &&& result is Ok <==> uniform_nodes(count, code_length as nat) <= MAX_NODES
            &&& code_length <= 32 && count <= 0x8000_0000 ==> result is Ok
            &&& 2 * count + code_length < MAX_NODES ==> result is Ok
        },
        result matches Ok(table) ==> table.lines() == uniform_lines(count, code_length),
{
    lemma_uniform_fits(count, code_length);
    if count <= pow2(code_length as nat) {
        lemma_uniform_node_count(count, code_length);
        lemma_uniform_nodes_bound(count, code_length as nat, code_length as nat);
        vstd::arithmetic::power2::lemma2_to64();
        vstd::arithmetic::power2::lemma2_to64_rest();
        if code_length == 32 && count <= 0x8000_0000 {
            lemma_uniform_nodes_bound(count, 32, 31);
        } else if code_length < 32 {
            vstd::arithmetic::power2::lemma_pow2_strictly_increases(code_length as nat, 32);
        }
    }
}

/// What lines make of bits: a value, or the out-of-band marker.
pub open spec fn decodes(lines: Seq<TableLine>, rest: Seq<bool>, value: Option<i32>) -> bool {
    exists|i: int|
        #![trigger code(lines, i)]
        matches_line(lines, rest, i) && line_value(
            lines[i],
            rest.skip(lines[i].prefix_length as int),
        ) == Ok::<Option<i32>, crate::jbig2::error::DecodeError>(value)
}

/// A table has an out-of-band marker if and only if the marker is decoded from some bytes.
pub proof fn lemma_out_of_band_decoded(lines: Seq<TableLine>)
    requires
        !overfilled(lines),
    ensures
        (exists|i: int| assigned(lines, i) && marks_out_of_band(#[trigger] lines[i])) <==> (exists|
            rest: Seq<bool>,
        |
            rest.len() % 8 == 0 && #[trigger] decodes(lines, rest, None)),
{
    if exists|i: int| assigned(lines, i) && marks_out_of_band(#[trigger] lines[i]) {
        let i = choose|i: int| assigned(lines, i) && marks_out_of_band(#[trigger] lines[i]);
        let bits = code(lines, i);
        lemma_code_fits(lines, i);
        let rest = bits + Seq::new((8 - bits.len() % 8) as nat, |k: int| false);
        assert(bits.is_prefix_of(rest));
        assert(matches_line(lines, rest, i));
        assert(decodes(lines, rest, None));
    }
}

} // verus!
