//! Huffman table decoding, described in Annex B.

use crate::bits::{bit_range, bits_value, signed_word, word_at, Reader};
use crate::bits::{lemma_bits_value_bound, lemma_bits_value_concat, lemma_value_bits_of_value};
use crate::jbig2::error::{conflicting_codes_error, eof_error, invalid_code_error};
use crate::jbig2::error::{reserved_bits_error, DecodeError, FormatError, HuffmanError};
use crate::jbig2::error::{ParseError, Result};
use crate::jbig2::huffman_codes::{assigned, code, code_paths, is_path, node_count, overfilled};
use crate::jbig2::huffman_codes::{lemma_node_bound, TableLine};
use crate::jbig2::huffman_codes::{first_code, free_codes, length_count, overfilled_at};
use crate::jbig2::huffman_codes::{lemma_free_beyond, lemma_free_step, lemma_overfull_stays};
use crate::jbig2::huffman_codes::{lemma_code_fits, lemma_codes_distinct};
use crate::jbig2::huffman_codes::lemma_codes_prefix_free;
use crate::jbig2::huffman_codes::{lemma_count_monotone, lemma_count_step};
use vstd::arithmetic::power2::pow2;
use vstd::prelude::*;

verus! {

/// Information stored at a leaf node of the Huffman tree.
#[derive(Debug, Clone, Copy)]
struct LeafData {
    /// `RANGELOW` - The base value for computing the decoded value.
    range_low: i32,
    /// `RANGELEN` - Number of additional bits to read.
    range_length: u8,
    /// True if this is a lower range line (uses subtraction).
    is_lower: bool,
    /// `OOB` - True if this is the out-of-band marker.
    is_out_of_band: bool,
}

/// A node in the Huffman tree.
#[derive(Debug, Clone, Copy)]
enum HuffmanNode {
    /// Intermediate node.
    Intermediate { zero: Option<u32>, one: Option<u32> },
    /// Leaf node.
    Leaf(LeafData),
    /// The lower range starts below `i32::MIN` and has no encodable value.
    OutOfRange,
}

/// The leaf of a table line.
spec fn leaf_of(line: TableLine) -> HuffmanNode {
    if i32::MIN <= line.range_low <= i32::MAX {
        HuffmanNode::Leaf(
            LeafData {
                range_low: line.range_low as i32,
                range_length: line.range_length,
                is_lower: line.is_lower,
                is_out_of_band: line.is_out_of_band,
            },
        )
    } else {
        HuffmanNode::OutOfRange
    }
}

impl HuffmanNode {
    fn new_intermediate() -> (node: Self)
        ensures
            node == (HuffmanNode::Intermediate { zero: None, one: None }),
    {
        HuffmanNode::Intermediate { zero: None, one: None }
    }

    fn new_leaf(line: &TableLine) -> (node: Self)
        ensures
            node == leaf_of(*line),
    {
        // Only the lower base can lie outside of i32. Subtracting any unsigned offset from it
        // stays outside of the encoded domain.
        if line.range_low < i32::MIN as i64 || line.range_low > i32::MAX as i64 {
            return HuffmanNode::OutOfRange;
        }
        HuffmanNode::Leaf(
            LeafData {
                range_low: line.range_low as i32,
                range_length: line.range_length,
                is_lower: line.is_lower,
                is_out_of_band: line.is_out_of_band,
            },
        )
    }

    spec fn child(self, bit: bool) -> Option<u32> {
        match self {
            HuffmanNode::Intermediate { zero, one } => if bit {
                one
            } else {
                zero
            },
            _ => None,
        }
    }

    /// Get the child index for a given bit.
    fn get_child(&self, bit: bool) -> (index: Option<u32>)
        ensures
            index == self.child(bit),
    {
        match self {
            HuffmanNode::Intermediate { zero, one } => if bit {
                *one
            } else {
                *zero
            },
            _ => None,
        }
    }

    /// The node with its child for a given bit replaced; a leaf cannot get a child.
    fn with_child(self, bit: bool, index: u32) -> (node: Option<Self>)
        ensures
            node is Some <==> self is Intermediate,
            node matches Some(n) ==> n is Intermediate && n.child(bit) == Some(index) && n.child(
                !bit,
            ) == self.child(!bit),
    {
        match self {
            HuffmanNode::Intermediate { zero, one } => if bit {
                Some(HuffmanNode::Intermediate { zero, one: Some(index) })
            } else {
                Some(HuffmanNode::Intermediate { zero: Some(index), one })
            },
            _ => None,
        }
    }
}

/// The link of a node leads to the node with the extended path, or there is none with it.
spec fn child_inv(paths: Seq<Seq<bool>>, child: Option<u32>, path: Seq<bool>) -> bool {
    match child {
        Some(index) => (index as int) < paths.len() && paths[index as int] == path,
        None => !paths.contains(path),
    }
}

spec fn proper_prefix(prefix: Seq<bool>, bits: Seq<bool>) -> bool {
    prefix.is_prefix_of(bits) && prefix.len() < bits.len()
}

spec fn inner_path(entries: Seq<(Seq<bool>, TableLine)>, path: Seq<bool>) -> bool {
    exists|j: int| 0 <= j < entries.len() && proper_prefix(path, (#[trigger] entries[j]).0)
}

spec fn entry_at(
    entries: Seq<(Seq<bool>, TableLine)>,
    path: Seq<bool>,
    node: HuffmanNode,
) -> bool {
    exists|j: int|
        0 <= j < entries.len() && (#[trigger] entries[j]).0 == path && node == leaf_of(entries[j].1)
}

/// What holds of one node: its links, and that it serves some entry or the pending code.
spec fn node_inv(
    node: HuffmanNode,
    path: Seq<bool>,
    paths: Seq<Seq<bool>>,
    entries: Seq<(Seq<bool>, TableLine)>,
    pending: Seq<bool>,
) -> bool {
    if node is Intermediate {
        &&& child_inv(paths, node.child(false), path.push(false))
        &&& child_inv(paths, node.child(true), path.push(true))
        &&& path.len() == 0 || inner_path(entries, path) || path.is_prefix_of(pending)
    } else {
        entry_at(entries, path, node)
    }
}

/// The tree holds exactly the entries, and the nodes on the way to the pending code.
/// `paths` gives for each node the bits that lead to it.
spec fn tree_inv(
    nodes: Seq<HuffmanNode>,
    paths: Seq<Seq<bool>>,
    entries: Seq<(Seq<bool>, TableLine)>,
    pending: Seq<bool>,
) -> bool {
    &&& nodes.len() == paths.len()
    &&& nodes.len() > 0
    &&& paths[0].len() == 0
    &&& nodes[0] is Intermediate
    &&& forall|a: int, b: int|
        0 <= a < paths.len() && 0 <= b < paths.len() && #[trigger] paths[a] == #[trigger] paths[b]
            ==> a == b
    &&& forall|p: Seq<bool>| #[trigger]
        paths.contains(p) && p.len() > 0 ==> paths.contains(p.drop_last())
    &&& forall|n: int|
        0 <= n < nodes.len() ==> #[trigger] node_inv(nodes[n], paths[n], paths, entries, pending)
    &&& forall|j: int| 0 <= j < entries.len() ==> paths.contains((#[trigger] entries[j]).0)
}

spec fn incomparable(entries: Seq<(Seq<bool>, TableLine)>, code: Seq<bool>) -> bool {
    forall|j: int|
        0 <= j < entries.len() ==> !(#[trigger] entries[j]).0.is_prefix_of(code)
            && !code.is_prefix_of(entries[j].0)
}

/// Giving a node a new child keeps the tree.
proof fn lemma_add_child(
    nodes: Seq<HuffmanNode>,
    paths: Seq<Seq<bool>>,
    entries: Seq<(Seq<bool>, TableLine)>,
    pending: Seq<bool>,
    parent: int,
    bit: bool,
    linked: HuffmanNode,
)
    requires
        tree_inv(nodes, paths, entries, pending),
        0 <= parent < nodes.len(),
        nodes.len() <= u32::MAX,
        nodes[parent] is Intermediate,
        nodes[parent].child(bit) is None,
        paths[parent].push(bit).is_prefix_of(pending),
        linked is Intermediate,
        linked.child(bit) == Some(nodes.len() as u32),
        linked.child(!bit) == nodes[parent].child(!bit),
    ensures
        tree_inv(
            nodes.push(HuffmanNode::Intermediate { zero: None, one: None }).update(parent, linked),
            paths.push(paths[parent].push(bit)),
            entries,
            pending,
        ),
{
    let fresh = HuffmanNode::Intermediate { zero: None, one: None };
    let path = paths[parent].push(bit);
    let new_nodes = nodes.push(fresh).update(parent, linked);
    let new_paths = paths.push(path);
    assert(node_inv(nodes[parent], paths[parent], paths, entries, pending));
    assert(!paths.contains(path));
    assert forall|p: Seq<bool>| #[trigger] new_paths.contains(p) == (paths.contains(p) || p
        == path) by {
        if paths.contains(p) {
            let k = paths.index_of(p);
            assert(new_paths[k] == p);
        }
        if p == path {
            assert(new_paths[paths.len() as int] == p);
        }
        if new_paths.contains(p) {
            let k = new_paths.index_of(p);
            if k < paths.len() {
                assert(paths[k] == p);
            }
        }
    }
    assert(path.drop_last() =~= paths[parent]);
    // No node hangs below the new one: its parent would be the new path.
    assert forall|b: bool| !new_paths.contains(#[trigger] path.push(b)) by {
        if new_paths.contains(path.push(b)) {
            assert(path.push(b).len() == path.len() + 1);
            assert(path.push(b).drop_last() =~= path);
            assert(paths.contains(path.push(b)));
            assert(paths.contains(path));
        }
    }
    assert forall|n: int| 0 <= n < new_nodes.len() implies #[trigger] node_inv(
        new_nodes[n],
        new_paths[n],
        new_paths,
        entries,
        pending,
    ) by {
        if n < nodes.len() {
            assert(node_inv(nodes[n], paths[n], paths, entries, pending));
            if n != parent && nodes[n] is Intermediate {
                assert forall|b: bool| paths[n].push(b) != path by {
                    if paths[n].push(b) == path {
                        assert(paths[n].push(b).drop_last() =~= paths[n]);
                        assert(paths[n] == paths[parent]);
                    }
                }
            } else if n == parent {
                assert(paths[n].push(!bit).last() != path.last());
                assert(paths[n].push(!bit) != path);
                if bit {
                    assert(linked.child(false) == nodes[n].child(false));
                }
            }
        }
    }
    assert forall|a: int, b: int|
        0 <= a < new_paths.len() && 0 <= b < new_paths.len() && #[trigger] new_paths[a]
            == #[trigger] new_paths[b] implies a == b by {
        if a < paths.len() && b < paths.len() {
            assert(paths[a] == paths[b]);
        } else if a < paths.len() {
            assert(paths[a] == path);
        } else if b < paths.len() {
            assert(paths[b] == path);
        }
    }
}

/// Turning the childless node at the end of the pending code into its leaf completes the entry.
proof fn lemma_place_leaf(
    nodes: Seq<HuffmanNode>,
    paths: Seq<Seq<bool>>,
    entries: Seq<(Seq<bool>, TableLine)>,
    code: Seq<bool>,
    line: TableLine,
    at: int,
)
    requires
        tree_inv(nodes, paths, entries, code),
        0 < at < nodes.len(),
        paths[at] == code,
    ensures
        tree_inv(
            nodes.update(at, leaf_of(line)),
            paths,
            entries.push((code, line)),
            Seq::<bool>::empty(),
        ),
{
    let new_nodes = nodes.update(at, leaf_of(line));
    let new_entries = entries.push((code, line));
    assert(new_entries[entries.len() as int] == (code, line));
    assert forall|n: int| 0 <= n < new_nodes.len() implies #[trigger] node_inv(
        new_nodes[n],
        paths[n],
        paths,
        new_entries,
        Seq::<bool>::empty(),
    ) by {
        assert(node_inv(nodes[n], paths[n], paths, entries, code));
        if n != at {
            if nodes[n] is Intermediate {
                if inner_path(entries, paths[n]) {
                    let j = choose|j: int|
                        0 <= j < entries.len() && proper_prefix(paths[n], (#[trigger] entries[j]).0);
                    assert(new_entries[j] == entries[j]);
                } else if paths[n].len() > 0 {
                    if paths[n].len() == code.len() {
                        assert(paths[n] =~= code);
                    }
                    assert(proper_prefix(paths[n], new_entries[entries.len() as int].0));
                }
            } else {
                let j = choose|j: int|
                    0 <= j < entries.len() && (#[trigger] entries[j]).0 == paths[n] && nodes[n]
                        == leaf_of(entries[j].1);
                assert(new_entries[j] == entries[j]);
            }
        }
    }
    assert forall|j: int| 0 <= j < new_entries.len() implies paths.contains(
        (#[trigger] new_entries[j]).0,
    ) by {
        if j < entries.len() {
            assert(new_entries[j] == entries[j]);
        } else {
            assert(paths[at] == code);
        }
    }
}

/// Every start of a path in the tree is a path in the tree.
proof fn lemma_prefix_closed(
    nodes: Seq<HuffmanNode>,
    paths: Seq<Seq<bool>>,
    entries: Seq<(Seq<bool>, TableLine)>,
    pending: Seq<bool>,
    path: Seq<bool>,
    length: nat,
)
    requires
        tree_inv(nodes, paths, entries, pending),
        paths.contains(path),
        length <= path.len(),
    ensures
        paths.contains(path.take(length as int)),
    decreases path.len(),
{
    if length == path.len() {
        assert(path.take(length as int) =~= path);
    } else {
        lemma_prefix_closed(nodes, paths, entries, pending, path.drop_last(), length);
        assert(path.drop_last().take(length as int) =~= path.take(length as int));
    }
}

/// The line's code comes next in the bits.
pub open spec fn matches_line(lines: Seq<TableLine>, rest: Seq<bool>, index: int) -> bool {
    assigned(lines, index) && code(lines, index).is_prefix_of(rest)
}

/// What a line gives, from the bits behind its code: its base and its suffix, added or subtracted,
/// if the sum is a signed 32-bit value; nothing for the out-of-band marker.
pub open spec fn line_value(line: TableLine, suffix: Seq<bool>) -> Result<Option<i32>> {
    if line.range_low < i32::MIN || line.range_low > i32::MAX {
        Err(invalid_code_error())
    } else if line.is_out_of_band {
        Ok(None)
    } else if suffix.len() < line.range_length {
        Err(invalid_code_error())
    } else {
        let offset = bits_value(suffix.take(line.range_length as int));
        let value = if line.is_lower {
            line.range_low - offset
        } else {
            line.range_low + offset
        };
        if i32::MIN <= value <= i32::MAX {
            Ok(Some(value as i32))
        } else {
            Err(invalid_code_error())
        }
    }
}

/// The number of bits behind the code that belong to a line.
pub open spec fn suffix_width(line: TableLine) -> nat {
    if line.is_out_of_band {
        0
    } else {
        line.range_length as nat
    }
}

/// Exactly `consumed` bits show that no code follows: all but the last of them start a code.
pub open spec fn refuted_after(lines: Seq<TableLine>, rest: Seq<bool>, consumed: int) -> bool {
    &&& 1 <= consumed <= rest.len()
    &&& consumed == 1 || is_path(lines, rest.take(consumed - 1))
    &&& !is_path(lines, rest.take(consumed))
}

spec fn entry_of(lines: Seq<TableLine>, index: int) -> (Seq<bool>, TableLine) {
    (code(lines, index), lines[index])
}

/// The greatest number of nodes of a tree: nodes are numbered in 32 bits.
pub const MAX_NODES: u64 = 0x1_0000_0000;

/// What building a table from lines gives. Codes must leave room for each other, and the tree
/// must not have too many nodes.
pub open spec fn built(lines: Seq<TableLine>, result: Result<HuffmanTable>) -> bool {
    match result {
        Ok(table) => table.lines() == lines && !overfilled(lines) && node_count(lines)
            <= MAX_NODES,
        Err(error) => if overfilled(lines) {
            error == conflicting_codes_error()
        } else {
            error == invalid_code_error() && node_count(lines) > MAX_NODES
        },
    }
}

/// A value is asked for, and the out-of-band marker is an error.
pub open spec fn require_value(decoded: Result<Option<i32>>) -> Result<i32> {
    match decoded {
        Ok(Some(value)) => Ok(value),
        Ok(None) => Err(DecodeError::Huffman(HuffmanError::UnexpectedOob)),
        Err(error) => Err(error),
    }
}

/// The line stands for the out-of-band marker.
pub open spec fn marks_out_of_band(line: TableLine) -> bool {
    line.is_out_of_band && i32::MIN <= line.range_low <= i32::MAX
}

/// One line for each symbol, all codes of the same length.
pub open spec fn uniform_lines(count: nat, code_length: u8) -> Seq<TableLine> {
    Seq::new(count, |i: int| normal_line((i as u32 as i32) as int, code_length, 0))
}

/// A line for the values from `range_low` on.
pub open spec fn normal_line(range_low: int, prefix_length: u8, range_length: u8) -> TableLine {
    TableLine {
        range_low: range_low as i64,
        prefix_length,
        range_length,
        is_lower: false,
        is_out_of_band: false,
    }
}

/// A line for the values from `range_high` down.
pub open spec fn lower_line(range_high: int, prefix_length: u8, range_length: u8) -> TableLine {
    TableLine {
        range_low: range_high as i64,
        prefix_length,
        range_length,
        is_lower: true,
        is_out_of_band: false,
    }
}

/// The line of the out-of-band marker.
pub open spec fn oob_line(prefix_length: u8) -> TableLine {
    TableLine {
        range_low: 0,
        prefix_length,
        range_length: 0,
        is_lower: false,
        is_out_of_band: true,
    }
}

/// The number in a bit field.
pub open spec fn field(data: Seq<u8>, pos: int, width: int) -> nat {
    bits_value(bit_range(data, pos, pos + width))
}

/// The normal lines of a custom table and the position behind them, if the data holds them: line
/// by line the two lengths, until the ranges reach or pass `high`.
pub open spec fn normal_lines(
    data: Seq<u8>,
    pos: int,
    low: int,
    high: int,
    prefix_bits: int,
    range_bits: int,
) -> Option<(Seq<TableLine>, int)>
    decreases high - low,
{
    let behind = pos + prefix_bits + range_bits;
    if behind > data.len() * 8 {
        None
    } else {
        let range_length = field(data, pos + prefix_bits, range_bits);
        let line = normal_line(
            low,
            field(data, pos, prefix_bits) as u8,
            range_length as u8,
        );
        if low >= high || range_length >= 32 || low + pow2(range_length) >= high {
            Some((seq![line], behind))
        } else {
            proof {
                vstd::arithmetic::power2::lemma_pow2_pos(range_length);
            }
            match normal_lines(
                data,
                behind,
                low + pow2(range_length),
                high,
                prefix_bits,
                range_bits,
            ) {
                None => None,
                Some((lines, end)) => Some((seq![line] + lines, end)),
            }
        }
    }
}

/// The lines of a custom table and the position behind it, or why it is refused.
pub open spec fn custom_table(data: Seq<u8>, pos: int) -> Result<(Seq<TableLine>, int)> {
    let at = pos / 8;
    if at + 1 > data.len() {
        Err(eof_error())
    } else if data[at] & 0x80u8 != 0 {
        Err(reserved_bits_error())
    } else if at + 9 > data.len() {
        Err(eof_error())
    } else {
        let flags = data[at];
        let prefix_bits = ((flags >> 1) & 7u8) + 1;
        let range_bits = ((flags >> 4) & 7u8) + 1;
        let low = signed_word(word_at(data, at + 1));
        let high = signed_word(word_at(data, at + 5));
        if low >= high {
            Err(invalid_code_error())
        } else {
            match normal_lines(data, pos + 72, low, high, prefix_bits, range_bits) {
                None => Err(invalid_code_error()),
                Some((lines, end)) => {
                    let open_lines = seq![
                        lower_line(low - 1, field(data, end, prefix_bits) as u8, 32),
                        normal_line(
                            high,
                            field(data, end + prefix_bits, prefix_bits) as u8,
                            32,
                        ),
                    ];
                    let behind = end + 2 * prefix_bits;
                    if flags & 1u8 == 0 {
                        if behind > data.len() * 8 {
                            Err(invalid_code_error())
                        } else {
                            Ok((lines + open_lines, behind))
                        }
                    } else if behind + prefix_bits > data.len() * 8 {
                        Err(invalid_code_error())
                    } else {
                        let marker = oob_line(field(data, behind, prefix_bits) as u8);
                        Ok(((lines + open_lines).push(marker), behind + prefix_bits))
                    }
                },
            }
        }
    }
}

/// Read a length of up to 8 bits.
fn read_length(reader: &mut Reader<'_>, width: u8) -> (length: Option<u8>)
    requires
        1 <= width <= 8,
    ensures
        final(reader).data() == old(reader).data(),
        0 <= old(reader).pos() <= final(reader).pos() <= old(reader).total(),
        length is Some <==> old(reader).pos() + width <= old(reader).total(),
        length matches Some(l) ==> {
            &&& l == field(old(reader).data(), old(reader).pos(), width as int)
            &&& final(reader).pos() == old(reader).pos() + width
        },
{
    match reader.read_bits(width) {
        None => None,
        Some(value) => {
            proof {
                let bits = bit_range(old(reader).data(), old(reader).pos(), old(reader).pos() + width);
                lemma_bits_value_bound(bits);
                vstd::arithmetic::power2::lemma2_to64();
                if width < 8 {
                    vstd::arithmetic::power2::lemma_pow2_strictly_increases(width as nat, 8);
                }
            }
            Some(value as u8)
        },
    }
}

/// Read the normal lines of a custom table.
fn read_normal_lines(
    reader: &mut Reader<'_>,
    minimum_value: i32,
    maximum_value: i32,
    prefix_length_bits: u8,
    range_length_bits: u8,
) -> (result: Option<Vec<TableLine>>)
    requires
        minimum_value < maximum_value,
        1 <= prefix_length_bits <= 8,
        1 <= range_length_bits <= 8,
    ensures
        final(reader).data() == old(reader).data(),
        0 <= old(reader).pos() <= final(reader).pos() <= old(reader).total(),
        match normal_lines(
            old(reader).data(),
            old(reader).pos(),
            minimum_value as int,
            maximum_value as int,
            prefix_length_bits as int,
            range_length_bits as int,
        ) {
            None => result is None,
            Some((lines, end)) => {
                &&& result matches Some(found) && found@ == lines
                &&& final(reader).pos() == end
            },
        },
{
    let ghost data = reader.data();
    let ghost whole = normal_lines(
        data,
        reader.pos(),
        minimum_value as int,
        maximum_value as int,
        prefix_length_bits as int,
        range_length_bits as int,
    );
    proof {
        use_type_invariant(&*reader);
        reader.lemma_pos();
    }
    let mut lines: Vec<TableLine> = Vec::new();
    let mut low: i32 = minimum_value;
    loop
        invariant
            data == old(reader).data(),
            reader.data() == data,
            0 <= old(reader).pos() <= reader.pos() <= reader.total(),
            low < maximum_value,
            1 <= prefix_length_bits <= 8,
            1 <= range_length_bits <= 8,
            whole == normal_lines(
                data,
                old(reader).pos(),
                minimum_value as int,
                maximum_value as int,
                prefix_length_bits as int,
                range_length_bits as int,
            ),
            whole == (match normal_lines(
                data,
                reader.pos(),
                low as int,
                maximum_value as int,
                prefix_length_bits as int,
                range_length_bits as int,
            ) {
                None => None,
                Some((tail, end)) => Some((lines@ + tail, end)),
            }),
        decreases maximum_value - low,
    {
        let prefix_length: u8 = match read_length(reader, prefix_length_bits) {
            None => {
                return None;
            },
            Some(length) => length,
        };
        let range_length: u8 = match read_length(reader, range_length_bits) {
            None => {
                return None;
            },
            Some(length) => length,
        };
        let ghost before = lines@;
        lines.push(TableLine::new(low, prefix_length, range_length));
        // Any range of at least 2^32 spans the remaining signed domain. B.2 ends the normal
        // lines on reaching *or passing* HTHIGH; the terminal boundary need not itself fit in
        // an i32.
        if range_length >= 32 {
            assert(lines@ =~= before + seq![normal_line(low as int, prefix_length, range_length)]);
            return Some(lines);
        }
        proof {
            vstd::bits::lemma_u64_pow2_no_overflow(range_length as nat);
            vstd::bits::lemma_u64_shl_is_mul(1, range_length as u64);
            vstd::arithmetic::power2::lemma2_to64();
            vstd::arithmetic::power2::lemma_pow2_strictly_increases(range_length as nat, 32);
        }
        let size: u64 = 1u64 << (range_length as u64);
        let next: i64 = low as i64 + size as i64;
        if next >= maximum_value as i64 {
            assert(lines@ =~= before + seq![normal_line(low as int, prefix_length, range_length)]);
            return Some(lines);
        }
        proof {
            let line = normal_line(low as int, prefix_length, range_length);
            match normal_lines(
                data,
                reader.pos(),
                next as int,
                maximum_value as int,
                prefix_length_bits as int,
                range_length_bits as int,
            ) {
                None => {},
                Some((tail, end)) => {
                    assert(before + (seq![line] + tail) =~= lines@ + tail);
                },
            }
        }
        low = next as i32;
    }
}

/// The entry belongs to a line for which `placed` holds.
spec fn has_line(
    entry: (Seq<bool>, TableLine),
    lines: Seq<TableLine>,
    placed: spec_fn(int) -> bool,
) -> bool {
    exists|i: int| assigned(lines, i) && placed(i) && #[trigger] entry_of(lines, i) == entry
}

/// The entries are the lines for which `placed` holds.
spec fn entries_are(
    entries: Seq<(Seq<bool>, TableLine)>,
    lines: Seq<TableLine>,
    placed: spec_fn(int) -> bool,
) -> bool {
    &&& forall|i: int|
        assigned(lines, i) && placed(i) ==> entries.contains(#[trigger] entry_of(lines, i))
    &&& forall|j: int|
        0 <= j < entries.len() ==> has_line(#[trigger] entries[j], lines, placed)
}

/// A queryable Huffman table.
pub struct HuffmanTable {
    nodes: Vec<HuffmanNode>,
    lines: Ghost<Seq<TableLine>>,
    paths: Ghost<Seq<Seq<bool>>>,
    entries: Ghost<Seq<(Seq<bool>, TableLine)>>,
}

impl HuffmanTable {
    /// The lines that the table was built from.
    pub closed spec fn lines(&self) -> Seq<TableLine> {
        self.lines@
    }

    /// The tree holds the codes of all lines, and nothing else.
    #[verifier::type_invariant]
    spec fn wf(&self) -> bool {
        &&& !overfilled(self.lines@)
        &&& tree_inv(self.nodes@, self.paths@, self.entries@, Seq::<bool>::empty())
        &&& entries_are(self.entries@, self.lines@, |i: int| true)
    }

    /// No code ends on the way to an inner node, and some code goes on from there.
    proof fn lemma_inner_node(self, node: int)
        requires
            self.wf(),
            0 <= node < self.nodes@.len(),
            self.nodes@[node] is Intermediate,
        ensures
            forall|i: int|
                assigned(self.lines@, i) ==> !(#[trigger] code(self.lines@, i)).is_prefix_of(
                    self.paths@[node],
                ),
            self.paths@[node].len() == 0 || is_path(self.lines@, self.paths@[node]),
    {
        let lines = self.lines@;
        let path = self.paths@[node];
        assert(node_inv(
            self.nodes@[node],
            path,
            self.paths@,
            self.entries@,
            Seq::<bool>::empty(),
        ));
        if path.len() > 0 {
            let j = choose|j: int|
                0 <= j < self.entries@.len() && proper_prefix(
                    path,
                    (#[trigger] self.entries@[j]).0,
                );
            assert(has_line(self.entries@[j], lines, |i: int| true));
            let k = choose|k: int|
                assigned(lines, k) && #[trigger] entry_of(lines, k) == self.entries@[j];
            assert(proper_prefix(path, code(lines, k)));
            assert forall|i: int| assigned(lines, i) implies !(#[trigger] code(
                lines,
                i,
            )).is_prefix_of(path) by {
                lemma_code_fits(lines, i);
                if code(lines, i).is_prefix_of(path) {
                    assert(code(lines, i).is_prefix_of(code(lines, k)));
                    if i != k {
                        lemma_codes_prefix_free(lines, i, k);
                    }
                }
            }
        } else {
            assert forall|i: int| assigned(lines, i) implies !(#[trigger] code(
                lines,
                i,
            )).is_prefix_of(path) by {
                lemma_code_fits(lines, i);
            }
        }
    }

    /// A missing link refutes the extended path for all codes.
    proof fn lemma_missing_child(self, node: int, bit: bool)
        requires
            self.wf(),
            0 <= node < self.nodes@.len(),
            self.nodes@[node] is Intermediate,
            self.nodes@[node].child(bit) is None,
        ensures
            !is_path(self.lines@, self.paths@[node].push(bit)),
    {
        let lines = self.lines@;
        let path = self.paths@[node].push(bit);
        assert(node_inv(
            self.nodes@[node],
            self.paths@[node],
            self.paths@,
            self.entries@,
            Seq::<bool>::empty(),
        ));
        if is_path(lines, path) {
            let i = choose|i: int|
                assigned(lines, i) && path.is_prefix_of(#[trigger] code(lines, i));
            assert(self.entries@.contains(entry_of(lines, i)));
            let j = self.entries@.index_of(entry_of(lines, i));
            assert(self.entries@[j].0 == code(lines, i));
            lemma_prefix_closed(
                self.nodes@,
                self.paths@,
                self.entries@,
                Seq::<bool>::empty(),
                code(lines, i),
                path.len(),
            );
            assert(code(lines, i).take(path.len() as int) =~= path);
        }
    }

    /// A leaf belongs to the line whose code leads to it.
    proof fn lemma_leaf(self, node: int) -> (index: int)
        requires
            self.wf(),
            0 <= node < self.nodes@.len(),
            !(self.nodes@[node] is Intermediate),
        ensures
            assigned(self.lines@, index),
            code(self.lines@, index) == self.paths@[node],
            self.nodes@[node] == leaf_of(self.lines@[index]),
    {
        let lines = self.lines@;
        let path = self.paths@[node];
        assert(node_inv(
            self.nodes@[node],
            path,
            self.paths@,
            self.entries@,
            Seq::<bool>::empty(),
        ));
        let j = choose|j: int|
            0 <= j < self.entries@.len() && (#[trigger] self.entries@[j]).0 == path
                && self.nodes@[node] == leaf_of(self.entries@[j].1);
        assert(has_line(self.entries@[j], lines, |i: int| true));
        let k = choose|k: int|
            assigned(lines, k) && #[trigger] entry_of(lines, k) == self.entries@[j];
        k
    }

    /// Decode a value from the bit reader using this Huffman table
    /// (B.4 "Using a Huffman table").
    ///
    /// Returns `Ok(None)` for out-of-band (OOB) values, `Ok(Some(value))` for decoded values.
    pub fn decode(&self, reader: &mut Reader<'_>) -> (result: Result<Option<i32>>)
        ensures
            final(reader).data() == old(reader).data(),
            0 <= old(reader).pos() <= final(reader).pos() <= old(reader).total(),
            forall|i: int|
                #![trigger code(self.lines(), i)]
                matches_line(self.lines(), old(reader).rest(), i) ==> {
                    let line = self.lines()[i];
                    let behind = old(reader).pos() + line.prefix_length;
                    &&& result == line_value(
                        line,
                        old(reader).rest().skip(line.prefix_length as int),
                    )
                    &&& result is Ok ==> final(reader).pos() == behind + suffix_width(line)
                    &&& result is Err ==> final(reader).pos() >= behind
                },
            (forall|i: int|
                #![trigger code(self.lines(), i)]
                !matches_line(self.lines(), old(reader).rest(), i)) ==> {
                if old(reader).rest().len() == 0 || is_path(self.lines(), old(reader).rest()) {
                    &&& result == Err::<Option<i32>, DecodeError>(eof_error())
                    &&& final(reader).pos() == old(reader).total()
                } else {
                    &&& result == Err::<Option<i32>, DecodeError>(invalid_code_error())
                    &&& refuted_after(
                        self.lines(),
                        old(reader).rest(),
                        final(reader).pos() - old(reader).pos(),
                    )
                }
            },
    {
        proof {
            use_type_invariant(self);
        }
        let ghost lines = self.lines@;
        let ghost start = reader.pos();
        let ghost data = reader.data();
        let ghost rest = reader.rest();
        let mut node_index: usize = 0;
        proof {
            use_type_invariant(&*reader);
            reader.lemma_pos();
            assert(self.paths@[0] =~= rest.take(0));
        }
        loop
            invariant
                self.wf(),
                lines == self.lines@,
                (node_index as int) < self.nodes@.len(),
                data == old(reader).data(),
                start == old(reader).pos(),
                rest == old(reader).rest(),
                reader.data() == data,
                0 <= start <= reader.pos() <= data.len() * 8,
                self.paths@[node_index as int] == rest.take(reader.pos() - start),
            decreases data.len() * 8 - reader.pos(),
        {
            let ghost depth = reader.pos() - start;
            let ghost path = rest.take(depth);
            match self.nodes[node_index] {
                HuffmanNode::Intermediate { zero, one } => {
                    proof {
                        self.lemma_inner_node(node_index as int);
                    }
                    match reader.read_bit() {
                        None => {
                            proof {
                                assert(path =~= rest);
                            }
                            return Err(DecodeError::Parse(ParseError::UnexpectedEof));
                        },
                        Some(bit) => {
                            let ghost b = bit != 0;
                            proof {
                                assert(rest[depth] == b);
                                assert(path.push(b) =~= rest.take(depth + 1));
                                assert(node_inv(
                                    self.nodes@[node_index as int],
                                    self.paths@[node_index as int],
                                    self.paths@,
                                    self.entries@,
                                    Seq::<bool>::empty(),
                                ));
                            }
                            let child: Option<u32> = if bit == 0 {
                                zero
                            } else {
                                one
                            };
                            match child {
                                None => {
                                    proof {
                                        self.lemma_missing_child(node_index as int, b);
                                        Self::lemma_refuted(lines, rest, depth + 1);
                                    }
                                    return Err(DecodeError::Huffman(HuffmanError::InvalidCode));
                                },
                                Some(index) => {
                                    node_index = index as usize;
                                },
                            }
                        },
                    }
                },
                HuffmanNode::Leaf(leaf) => {
                    proof {
                        let i = self.lemma_leaf(node_index as int);
                        lemma_code_fits(lines, i);
                        Self::lemma_only_match(lines, rest, i);
                        assert(rest.skip(depth) =~= bit_range(data, start + depth, reader.total()));
                    }
                    return leaf.decode_suffix(reader);
                },
                HuffmanNode::OutOfRange => {
                    proof {
                        let i = self.lemma_leaf(node_index as int);
                        lemma_code_fits(lines, i);
                        Self::lemma_only_match(lines, rest, i);
                    }
                    return Err(DecodeError::Huffman(HuffmanError::InvalidCode));
                },
            }
        }
    }

    /// Build a Huffman table from table line definitions (B.3 "Assigning
    /// the prefix codes").
    pub fn build(lines: &[TableLine]) -> (result: Result<Self>)
        ensures
            built(lines@, result),
    {
        let max_prefix_length: u8 = longest_prefix(lines);
        if !codes_fit(lines, max_prefix_length) {
            return Err(DecodeError::Huffman(HuffmanError::ConflictingCodes));
        }
        // B.2.1 permits 255-bit prefixes. Keep the next canonical code as MSB-first bits instead
        // of narrowing it to a machine integer. B.3 orders codes by length, then by their
        // original table-line order.

        let mut code: Vec<bool> = Vec::new();
        let mut exhausted = false;
        let mut nodes: Vec<HuffmanNode> = Vec::new();
        nodes.push(HuffmanNode::new_intermediate());
        let ghost mut paths: Seq<Seq<bool>> = seq![Seq::<bool>::empty()];
        let ghost mut entries: Seq<(Seq<bool>, TableLine)> = Seq::empty();
        let mut current_length: u8 = 0;
        proof {
            vstd::arithmetic::power2::lemma2_to64();
            lemma_root(nodes@, paths);
        }
        while current_length < max_prefix_length
            invariant
                current_length <= max_prefix_length,
                forall|i: int|
                    0 <= i < lines@.len() ==> (#[trigger] lines@[i]).prefix_length
                        <= max_prefix_length,
                !overfilled(lines@),
                tree_inv(nodes@, paths, entries, Seq::<bool>::empty()),
                entries_are(entries, lines@, placed_before(lines@, current_length as nat + 1, 0)),
                code@.len() == current_length,
                next_code(lines@, code@, exhausted, current_length as nat, lines@.len() as int),
                nodes@.len() <= MAX_NODES,
            decreases max_prefix_length - current_length,
        {
            // Increasing the length appends a zero bit, equivalent to B.3's left shift.
            current_length = current_length + 1;
            let ghost shorter = code@;
            code.push(false);
            let ghost length = current_length as nat;
            proof {
                assert(code@.drop_last() =~= shorter);
                lemma_next_length(lines@, code@, exhausted, length);
                assert(entries_are(entries, lines@, placed_before(lines@, length, 0)));
            }
            let mut k: usize = 0;
            while k < lines.len()
                invariant
                    k <= lines@.len(),
                    length == current_length,
                    1 <= current_length <= max_prefix_length,
                    !overfilled(lines@),
                    tree_inv(nodes@, paths, entries, Seq::<bool>::empty()),
                    entries_are(entries, lines@, placed_before(lines@, length, k as int)),
                    code@.len() == current_length,
                    next_code(lines@, code@, exhausted, length, k as int),
                    nodes@.len() <= MAX_NODES,
                decreases lines@.len() - k,
            {
                let line = &lines[k];
                proof {
                    lemma_count_step(lines@, k as int, length);
                }
                if line.prefix_length == current_length {
                    proof {
                        lemma_code_fits(lines@, k as int);
                        lemma_value_bits_of_value(code@);
                        lemma_incomparable(entries, lines@, length, k as int);
                    }
                    if exhausted {
                        return Err(DecodeError::Huffman(HuffmanError::ConflictingCodes));
                    }
                    let ghost placed = code@;
                    let (inserted, new_paths) = insert_code(
                        &mut nodes,
                        &code,
                        line,
                        Ghost(paths),
                        Ghost(entries),
                    );
                    match inserted {
                        Err(error) => {
                            proof {
                                lemma_too_many_nodes(
                                    nodes@,
                                    new_paths@,
                                    entries,
                                    lines@,
                                    placed_before(lines@, length, k as int),
                                    k as int,
                                );
                            }
                            return Err(error);
                        },
                        Ok(()) => {},
                    }
                    proof {
                        paths = new_paths@;
                        lemma_entries_grow(entries, lines@, length, k as int);
                        entries = entries.push((placed, *line));
                    }
                    // Carry out means that the complete code space is used.
                    exhausted = increment(&mut code);
                } else {
                    proof {
                        lemma_entries_skip(entries, lines@, length, k as int);
                    }
                }
                k = k + 1;
            }
            proof {
                assert(lines@.take(lines@.len() as int) =~= lines@);
                lemma_entries_next_length(entries, lines@, length);
            }
        }
        proof {
            lemma_entries_complete(entries, lines@, max_prefix_length as nat + 1);
            lemma_nodes_counted(nodes@, paths, entries, lines@);
        }
        Ok(
            HuffmanTable {
                nodes,
                lines: Ghost(lines@),
                paths: Ghost(paths),
                entries: Ghost(entries),
            },
        )
    }

    /// Decode a value using the huffman table, erroring out in case an OOB
    /// was encountered.
    pub fn decode_no_oob(&self, reader: &mut Reader<'_>) -> (result: Result<i32>)
        ensures
            final(reader).data() == old(reader).data(),
            0 <= old(reader).pos() <= final(reader).pos() <= old(reader).total(),
            forall|i: int|
                #![trigger code(self.lines(), i)]
                matches_line(self.lines(), old(reader).rest(), i) ==> {
                    let line = self.lines()[i];
                    let behind = old(reader).pos() + line.prefix_length;
                    &&& result == require_value(
                        line_value(line, old(reader).rest().skip(line.prefix_length as int)),
                    )
                    &&& result is Ok ==> final(reader).pos() == behind + suffix_width(line)
                },
            (forall|i: int|
                #![trigger code(self.lines(), i)]
                !matches_line(self.lines(), old(reader).rest(), i)) ==> {
                if old(reader).rest().len() == 0 || is_path(self.lines(), old(reader).rest()) {
                    result == Err::<i32, DecodeError>(eof_error())
                } else {
                    result == Err::<i32, DecodeError>(invalid_code_error())
                }
            },
    {
        match self.decode(reader) {
            Ok(Some(value)) => Ok(value),
            Ok(None) => Err(DecodeError::Huffman(HuffmanError::UnexpectedOob)),
            Err(error) => Err(error),
        }
    }

    /// Whether any code produces an OOB marker (7.4.2.1.6, 7.4.3.1.6).
    pub fn has_out_of_band(&self) -> (found: bool)
        ensures
            found == exists|i: int|
                assigned(self.lines(), i) && marks_out_of_band(#[trigger] self.lines()[i]),
    {
        proof {
            use_type_invariant(self);
        }
        let mut n: usize = 0;
        while n < self.nodes.len()
            invariant
                self.wf(),
                n <= self.nodes@.len(),
                forall|k: int|
                    0 <= k < n ==> !(#[trigger] self.nodes@[k] matches HuffmanNode::Leaf(leaf)
                        && leaf.is_out_of_band),
            decreases self.nodes@.len() - n,
        {
            if let HuffmanNode::Leaf(leaf) = self.nodes[n] {
                if leaf.is_out_of_band {
                    proof {
                        let i = self.lemma_leaf(n as int);
                        assert(marks_out_of_band(self.lines()[i]));
                    }
                    return true;
                }
            }
            n = n + 1;
        }
        proof {
            assert forall|i: int| assigned(self.lines(), i) implies !marks_out_of_band(
                #[trigger] self.lines()[i],
            ) by {
                self.lemma_has_leaf(i);
            }
        }
        false
    }

    /// Each line that has a code has its leaf.
    proof fn lemma_has_leaf(self, index: int)
        requires
            self.wf(),
            assigned(self.lines@, index),
        ensures
            exists|n: int|
                0 <= n < self.nodes@.len() && #[trigger] self.nodes@[n] == leaf_of(
                    self.lines@[index],
                ),
    {
        let lines = self.lines@;
        let entry = entry_of(lines, index);
        assert(self.entries@.contains(entry));
        let j = self.entries@.index_of(entry);
        assert(self.paths@.contains(self.entries@[j].0));
        let n = self.paths@.index_of(code(lines, index));
        assert(self.paths@[n] == code(lines, index));
        if self.nodes@[n] is Intermediate {
            self.lemma_inner_node(n);
            assert(code(lines, index).is_prefix_of(self.paths@[n]));
        } else {
            let i = self.lemma_leaf(n);
            lemma_codes_distinct(lines, i, index);
        }
    }

    /// Build a uniform Huffman table where all symbols have the same code length.
    ///
    /// This is used for symbol ID encoding (6.5.8.2.3): "For each value of i from
    /// 0 to SDNUMINSYMS + NSYMSDECODED - 1, set SBSYMCODES[i] to the binary
    /// representation of i using a SBSYMCODELEN-bit string."
    pub fn build_uniform(num_symbols: u32, code_length: u32) -> (result: Result<Self>)
        ensures
            code_length > u8::MAX ==> result == Err::<Self, DecodeError>(
                DecodeError::Huffman(HuffmanError::PrefixLengthTooLarge),
            ),
            code_length <= u8::MAX ==> built(
                uniform_lines(num_symbols as nat, code_length as u8),
                result,
            ),
    {
        if code_length > u8::MAX as u32 {
            return Err(DecodeError::Huffman(HuffmanError::PrefixLengthTooLarge));
        }
        let mut lines: Vec<TableLine> = Vec::new();
        let mut i: u32 = 0;
        while i < num_symbols
            invariant
                i <= num_symbols,
                code_length <= u8::MAX,
                lines@ == uniform_lines(i as nat, code_length as u8),
            decreases num_symbols - i,
        {
            lines.push(
                TableLine::new(
                    #[verifier::truncate]
                    (i as i32),
                    code_length as u8,
                    0,
                ),
            );
            i = i + 1;
            assert(lines@ =~= uniform_lines(i as nat, code_length as u8));
        }
        Self::build(&lines)
    }

    /// Read a custom Huffman table from the bitstream (B.2 "Decoding a code table").
    pub fn read_custom(reader: &mut Reader<'_>) -> (result: Result<Self>)
        requires
            old(reader).aligned(),
        ensures
            final(reader).data() == old(reader).data(),
            0 <= old(reader).pos() <= final(reader).pos() <= old(reader).total(),
            match custom_table(old(reader).data(), old(reader).pos()) {
                Err(error) => result == Err::<Self, DecodeError>(error),
                Ok((lines, end)) => built(lines, result) && final(reader).pos() == end,
            },
    {
        let ghost data = reader.data();
        let ghost start = reader.pos();
        // 1) "Decode the code table flags field as described in B.2.1. This sets the values
        //    HTOOB, HTPS and HTRS."
        let flags: u8 = match reader.read_byte() {
            None => {
                return Err(DecodeError::Parse(ParseError::UnexpectedEof));
            },
            Some(flags) => flags,
        };
        if flags & 0x80u8 != 0 {
            return Err(DecodeError::Format(FormatError::ReservedBits));
        }
        assert(((flags >> 1) & 7) <= 7 && ((flags >> 4) & 7) <= 7) by (bit_vector);
        // `HTOOB`
        let has_out_of_band = (flags & 1u8) != 0;
        // `HTPS`
        let prefix_length_bits: u8 = ((flags >> 1) & 7u8) + 1;
        // `HTRS`
        let range_length_bits: u8 = ((flags >> 4) & 7u8) + 1;
        // 2) "Decode the code table lowest value field as described in B.2.2. Let HTLOW be
        //    the value decoded."
        let minimum_value: i32 = match reader.read_i32() {
            None => {
                return Err(DecodeError::Parse(ParseError::UnexpectedEof));
            },
            Some(value) => value,
        };
        // 3) "Decode the code table highest value field as described in B.2.3. Let HTHIGH be
        //    the value decoded."
        let maximum_value: i32 = match reader.read_i32() {
            None => {
                return Err(DecodeError::Parse(ParseError::UnexpectedEof));
            },
            Some(value) => value,
        };
        if minimum_value >= maximum_value {
            return Err(DecodeError::Huffman(HuffmanError::InvalidCode));
        }
        // 4) and 5) The normal lines.

        let mut lines = match read_normal_lines(
            reader,
            minimum_value,
            maximum_value,
            prefix_length_bits,
            range_length_bits,
        ) {
            None => {
                return Err(DecodeError::Huffman(HuffmanError::InvalidCode));
            },
            Some(lines) => lines,
        };
        // 6) and 7) "This is the lower range table line for this table."
        let low_length: u8 = match read_length(reader, prefix_length_bits) {
            None => {
                return Err(DecodeError::Huffman(HuffmanError::InvalidCode));
            },
            Some(length) => length,
        };
        lines.push(TableLine::lower(minimum_value as i64 - 1, low_length, 32));
        // 8) and 9) "This is the upper range table line for this table."
        let high_length: u8 = match read_length(reader, prefix_length_bits) {
            None => {
                return Err(DecodeError::Huffman(HuffmanError::InvalidCode));
            },
            Some(length) => length,
        };
        lines.push(TableLine::upper(maximum_value, high_length, 32));
        // 10) "This is the out-of-band table line for this table."
        if has_out_of_band {
            let length: u8 = match read_length(reader, prefix_length_bits) {
                None => {
                    return Err(DecodeError::Huffman(HuffmanError::InvalidCode));
                },
                Some(length) => length,
            };
            lines.push(TableLine::oob(length));
        }
        // 11) "Create the prefix codes using the algorithm described in B.3."
        proof {
            let low = minimum_value as int;
            let high = maximum_value as int;
            let (first, end) = normal_lines(
                data,
                start + 72,
                low,
                high,
                prefix_length_bits as int,
                range_length_bits as int,
            )->0;
            let open_lines = seq![
                lower_line(low - 1, low_length, 32),
                normal_line(high, high_length, 32),
            ];
            if has_out_of_band {
                let length = field(data, end + 2 * prefix_length_bits, prefix_length_bits as int);
                assert(lines@ =~= (first + open_lines).push(oob_line(length as u8)));
            } else {
                assert(lines@ =~= first + open_lines);
            }
        }
        Self::build(&lines)
    }

    /// The line whose code comes next is the only one.
    proof fn lemma_only_match(lines: Seq<TableLine>, rest: Seq<bool>, index: int)
        requires
            !overfilled(lines),
            matches_line(lines, rest, index),
        ensures
            forall|i: int|
                #![trigger code(lines, i)]
                matches_line(lines, rest, i) ==> i == index,
    {
        assert forall|i: int| #![trigger code(lines, i)] matches_line(lines, rest, i) implies i
            == index by {
            let a = code(lines, i);
            let b = code(lines, index);
            if i != index {
                lemma_codes_prefix_free(lines, i, index);
                lemma_codes_prefix_free(lines, index, i);
                if a.len() <= b.len() {
                    assert(a.is_prefix_of(b));
                } else {
                    assert(b.is_prefix_of(a));
                }
            }
        }
    }

    /// Where the first bits start no code, neither do more of them.
    proof fn lemma_refuted(lines: Seq<TableLine>, rest: Seq<bool>, consumed: int)
        requires
            1 <= consumed <= rest.len(),
            !is_path(lines, rest.take(consumed)),
            forall|i: int|
                assigned(lines, i) ==> !(#[trigger] code(lines, i)).is_prefix_of(
                    rest.take(consumed - 1),
                ),
        ensures
            !is_path(lines, rest),
            forall|i: int| #![trigger code(lines, i)] !matches_line(lines, rest, i),
    {
        let head = rest.take(consumed);
        if is_path(lines, rest) {
            let i = choose|i: int|
                assigned(lines, i) && rest.is_prefix_of(#[trigger] code(lines, i));
            assert(head.is_prefix_of(code(lines, i)));
        }
        assert forall|i: int| #![trigger code(lines, i)] !matches_line(lines, rest, i) by {
            if matches_line(lines, rest, i) {
                if code(lines, i).len() < consumed {
                    assert(code(lines, i).is_prefix_of(rest.take(consumed - 1)));
                } else {
                    assert(head.is_prefix_of(code(lines, i)));
                }
            }
        }
    }
}

/// The lines whose codes are placed once all shorter ones are, and those of the current length up
/// to a line.
spec fn placed_before(lines: Seq<TableLine>, length: nat, index: int) -> spec_fn(int) -> bool {
    |i: int|
        lines[i].prefix_length < length || (lines[i].prefix_length == length && i < index)
}

/// Add one to a bit string in place; tells whether it was all ones and wrapped to zero.
fn increment(code: &mut Vec<bool>) -> (wrapped: bool)
    ensures
        final(code)@.len() == old(code)@.len(),
        !wrapped ==> bits_value(final(code)@) == bits_value(old(code)@) + 1,
        wrapped ==> bits_value(old(code)@) + 1 == pow2(old(code)@.len()),
{
    let ghost before = code@;
    let mut i: usize = code.len();
    while i > 0
        invariant
            i <= code@.len(),
            code@.len() == before.len(),
            before == old(code)@,
            forall|k: int| 0 <= k < i ==> code@[k] == before[k],
            forall|k: int| #![trigger before[k]] #![trigger code@[k]]
                i <= k < before.len() ==> before[k] && !code@[k],
        decreases i,
    {
        i = i - 1;
        if !code[i] {
            let ghost lower = code@;
            code[i] = true;
            proof {
                assert(code@ == lower.update(i as int, true));
                assert forall|k: int| i < k < before.len() implies before[k] && !code@[k] by {
                    assert(code@[k] == lower[k]);
                }
                lemma_increment(before, code@, i as int);
            }
            return false;
        }
        code[i] = false;
    }
    proof {
        lemma_all_ones(before);
    }
    true
}

proof fn lemma_increment(before: Seq<bool>, after: Seq<bool>, at: int)
    requires
        before.len() == after.len(),
        0 <= at < before.len(),
        !before[at],
        after[at],
        forall|k: int| 0 <= k < at ==> before[k] == after[k],
        forall|k: int| at < k < before.len() ==> before[k] && !after[k],
    ensures
        bits_value(after) == bits_value(before) + 1,
    decreases before.len(),
{
    if at == before.len() - 1 {
        assert(before.drop_last() =~= after.drop_last());
    } else {
        lemma_increment(before.drop_last(), after.drop_last(), at);
    }
}

proof fn lemma_all_ones(bits: Seq<bool>)
    requires
        forall|k: int| 0 <= k < bits.len() ==> bits[k],
    ensures
        bits_value(bits) + 1 == pow2(bits.len()),
    decreases bits.len(),
{
    if bits.len() == 0 {
        vstd::arithmetic::power2::lemma2_to64();
    } else {
        lemma_all_ones(bits.drop_last());
        vstd::arithmetic::power2::lemma_pow2_unfold(bits.len());
    }
}

/// Insert a code into the Huffman tree.
fn insert_code(
    nodes: &mut Vec<HuffmanNode>,
    code: &Vec<bool>,
    line: &TableLine,
    Ghost(paths): Ghost<Seq<Seq<bool>>>,
    Ghost(entries): Ghost<Seq<(Seq<bool>, TableLine)>>,
) -> (result: (Result<()>, Ghost<Seq<Seq<bool>>>))
    requires
        tree_inv(old(nodes)@, paths, entries, Seq::<bool>::empty()),
        incomparable(entries, code@),
        code@.len() > 0,
        old(nodes)@.len() <= MAX_NODES,
    ensures
        result.0 is Ok ==> tree_inv(
            final(nodes)@,
            result.1@,
            entries.push((code@, *line)),
            Seq::<bool>::empty(),
        ),
        result.0 matches Err(error) ==> {
            &&& error == invalid_code_error()
            &&& final(nodes)@.len() == MAX_NODES
            &&& tree_inv(final(nodes)@, result.1@, entries, code@)
            &&& exists|depth: int|
                0 < depth <= code@.len() && !result.1@.contains(#[trigger] code@.take(depth))
        },
        final(nodes)@.len() <= MAX_NODES,
{
    let ghost mut paths = paths;
    let mut node_index: usize = 0;
    let mut depth: usize = 0;
    proof {
        lemma_pending(nodes@, paths, entries, code@);
        assert(paths[0] =~= code@.take(0));
    }
    // Walk the prefix iteratively so its length does not consume stack.
    while depth < code.len()
        invariant
            depth <= code@.len(),
            (node_index as int) < nodes@.len(),
            tree_inv(nodes@, paths, entries, code@),
            incomparable(entries, code@),
            paths[node_index as int] == code@.take(depth as int),
            nodes@.len() <= MAX_NODES,
        decreases code@.len() - depth,
    {
        let bit = code[depth];
        let node = nodes[node_index];
        proof {
            lemma_inner(nodes@, paths, entries, code@, node_index as int);
            assert(code@.take(depth as int).push(bit) =~= code@.take(depth + 1));
            assert(node_inv(
                nodes@[node_index as int],
                paths[node_index as int],
                paths,
                entries,
                code@,
            ));
        }
        match node.get_child(bit) {
            Some(index) => {
                node_index = index as usize;
            },
            None => {
                if nodes.len() > u32::MAX as usize {
                    return (Err(DecodeError::Huffman(HuffmanError::InvalidCode)), Ghost(paths));
                }
                let index: u32 = nodes.len() as u32;
                let linked = match node.with_child(bit, index) {
                    Some(linked) => linked,
                    None => {
                        return (
                            Err(DecodeError::Huffman(HuffmanError::ConflictingCodes)),
                            Ghost(paths),
                        );
                    },
                };
                let ghost before = nodes@;
                nodes.push(HuffmanNode::new_intermediate());
                nodes[node_index] = linked;
                proof {
                    lemma_add_child(
                        before,
                        paths,
                        entries,
                        code@,
                        node_index as int,
                        bit,
                        linked,
                    );
                    paths = paths.push(paths[node_index as int].push(bit));
                }
                node_index = index as usize;
            },
        }
        depth = depth + 1;
    }
    proof {
        assert(code@.take(depth as int) =~= code@);
        lemma_place_leaf(nodes@, paths, entries, code@, *line, node_index as int);
    }
    nodes[node_index] = HuffmanNode::new_leaf(line);
    (Ok(()), Ghost(paths))
}

/// A new pending code changes nothing in the tree.
proof fn lemma_pending(
    nodes: Seq<HuffmanNode>,
    paths: Seq<Seq<bool>>,
    entries: Seq<(Seq<bool>, TableLine)>,
    pending: Seq<bool>,
)
    requires
        tree_inv(nodes, paths, entries, Seq::<bool>::empty()),
    ensures
        tree_inv(nodes, paths, entries, pending),
{
    assert forall|n: int| 0 <= n < nodes.len() implies #[trigger] node_inv(
        nodes[n],
        paths[n],
        paths,
        entries,
        pending,
    ) by {
        assert(node_inv(nodes[n], paths[n], paths, entries, Seq::<bool>::empty()));
    }
}

/// The way to a code that no entry clashes with leads over inner nodes only.
proof fn lemma_inner(
    nodes: Seq<HuffmanNode>,
    paths: Seq<Seq<bool>>,
    entries: Seq<(Seq<bool>, TableLine)>,
    code: Seq<bool>,
    node: int,
)
    requires
        tree_inv(nodes, paths, entries, code),
        incomparable(entries, code),
        0 <= node < nodes.len(),
        paths[node].is_prefix_of(code),
    ensures
        nodes[node] is Intermediate,
{
    assert(node_inv(nodes[node], paths[node], paths, entries, code));
    if !(nodes[node] is Intermediate) {
        let j = choose|j: int|
            0 <= j < entries.len() && (#[trigger] entries[j]).0 == paths[node] && nodes[node]
                == leaf_of(entries[j].1);
        assert(entries[j].0.is_prefix_of(code));
    }
}

/// Every node but the root stands for the start of a code that is placed or pending.
proof fn lemma_node_path(
    nodes: Seq<HuffmanNode>,
    paths: Seq<Seq<bool>>,
    entries: Seq<(Seq<bool>, TableLine)>,
    pending: Seq<bool>,
    lines: Seq<TableLine>,
    placed: spec_fn(int) -> bool,
    node: int,
)
    requires
        tree_inv(nodes, paths, entries, pending),
        entries_are(entries, lines, placed),
        0 <= node < nodes.len(),
        paths[node].len() > 0,
    ensures
        is_path(lines, paths[node]) || paths[node].is_prefix_of(pending),
{
    assert(node_inv(nodes[node], paths[node], paths, entries, pending));
    if !paths[node].is_prefix_of(pending) {
        let j = choose|j: int|
            0 <= j < entries.len() && paths[node].is_prefix_of((#[trigger] entries[j]).0);
        assert(has_line(entries[j], lines, placed));
        let i = choose|i: int|
            assigned(lines, i) && placed(i) && #[trigger] entry_of(lines, i) == entries[j];
        assert(paths[node].is_prefix_of(code(lines, i)));
    }
}

/// The nodes of a tree but its root, as the bits that lead to them.
proof fn lemma_node_set(
    nodes: Seq<HuffmanNode>,
    paths: Seq<Seq<bool>>,
    entries: Seq<(Seq<bool>, TableLine)>,
    pending: Seq<bool>,
) -> (below: Set<Seq<bool>>)
    requires
        tree_inv(nodes, paths, entries, pending),
    ensures
        below.finite(),
        below.len() + 1 == nodes.len(),
        forall|path: Seq<bool>| #[trigger]
            below.contains(path) == (paths.contains(path) && path.len() > 0),
{
    let rest = paths.skip(1);
    assert(rest.no_duplicates()) by {
        assert forall|a: int, b: int|
            0 <= a < rest.len() && 0 <= b < rest.len() && a != b implies rest[a] != rest[b] by {
            assert(paths[a + 1] != paths[b + 1]);
        }
    }
    rest.unique_seq_to_set();
    let below = rest.to_set();
    assert forall|path: Seq<bool>| #[trigger] below.contains(path) == (paths.contains(path)
        && path.len() > 0) by {
        if rest.contains(path) {
            let k = rest.index_of(path);
            assert(paths[k + 1] == path);
            if path.len() == 0 {
                assert(paths[0] =~= path);
            }
        }
        if paths.contains(path) && path.len() > 0 {
            let k = paths.index_of(path);
            assert(paths[k] == path);
            assert(rest[k - 1] == path);
        }
    }
    below
}

/// A complete tree has as many nodes as its lines need.
proof fn lemma_nodes_counted(
    nodes: Seq<HuffmanNode>,
    paths: Seq<Seq<bool>>,
    entries: Seq<(Seq<bool>, TableLine)>,
    lines: Seq<TableLine>,
)
    requires
        tree_inv(nodes, paths, entries, Seq::<bool>::empty()),
        entries_are(entries, lines, |i: int| true),
    ensures
        node_count(lines) == nodes.len(),
{
    let none = Seq::<bool>::empty();
    let below = lemma_node_set(nodes, paths, entries, none);
    assert forall|path: Seq<bool>| #[trigger] below.contains(path) == code_paths(lines).contains(
        path,
    ) by {
        if below.contains(path) {
            let k = paths.index_of(path);
            assert(paths[k] == path);
            lemma_node_path(nodes, paths, entries, none, lines, |i: int| true, k);
        }
        if code_paths(lines).contains(path) {
            let i = choose|i: int|
                assigned(lines, i) && path.is_prefix_of(#[trigger] code(lines, i));
            assert(entries.contains(entry_of(lines, i)));
            let j = entries.index_of(entry_of(lines, i));
            assert(paths.contains(entries[j].0));
            lemma_prefix_closed(nodes, paths, entries, none, code(lines, i), path.len());
            assert(code(lines, i).take(path.len() as int) =~= path);
        }
    }
    assert(below =~= code_paths(lines));
}

/// A tree that lacks a node on the way to the code of a line has fewer nodes than its lines need.
proof fn lemma_too_many_nodes(
    nodes: Seq<HuffmanNode>,
    paths: Seq<Seq<bool>>,
    entries: Seq<(Seq<bool>, TableLine)>,
    lines: Seq<TableLine>,
    placed: spec_fn(int) -> bool,
    index: int,
)
    requires
        tree_inv(nodes, paths, entries, code(lines, index)),
        entries_are(entries, lines, placed),
        assigned(lines, index),
        exists|depth: int|
            0 < depth <= code(lines, index).len() && !paths.contains(
                #[trigger] code(lines, index).take(depth),
            ),
    ensures
        nodes.len() < node_count(lines),
{
    let pending = code(lines, index);
    let depth = choose|depth: int|
        0 < depth <= pending.len() && !paths.contains(#[trigger] pending.take(depth));
    let below = lemma_node_set(nodes, paths, entries, pending);
    lemma_node_bound(lines);
    assert forall|path: Seq<bool>| #[trigger] below.contains(path) implies code_paths(
        lines,
    ).contains(path) by {
        let k = paths.index_of(path);
        assert(paths[k] == path);
        lemma_node_path(nodes, paths, entries, pending, lines, placed, k);
    }
    assert(pending.take(depth).is_prefix_of(pending));
    below.lemma_subset_not_in_lt(code_paths(lines), pending.take(depth));
}

/// The state of the code counter: the next free code of the current length.
spec fn next_code(
    lines: Seq<TableLine>,
    code: Seq<bool>,
    exhausted: bool,
    length: nat,
    index: int,
) -> bool {
    let value = if length == 0 {
        0
    } else {
        first_code(lines, length) + length_count(lines.take(index), length)
    };
    if exhausted {
        value == pow2(length)
    } else {
        bits_value(code) == value
    }
}

proof fn lemma_next_length(lines: Seq<TableLine>, code: Seq<bool>, exhausted: bool, length: nat)
    requires
        code.len() == length,
        length >= 1,
        !code.last(),
        next_code(lines, code.drop_last(), exhausted, (length - 1) as nat, lines.len() as int),
    ensures
        next_code(lines, code, exhausted, length, 0),
{
    assert(lines.take(lines.len() as int) =~= lines);
    assert(length_count(lines.take(0), length) == 0);
    vstd::arithmetic::power2::lemma_pow2_unfold(length);
    vstd::arithmetic::power2::lemma2_to64();
}

proof fn lemma_root(nodes: Seq<HuffmanNode>, paths: Seq<Seq<bool>>)
    requires
        nodes =~= seq![HuffmanNode::Intermediate { zero: None, one: None }],
        paths =~= seq![Seq::<bool>::empty()],
    ensures
        tree_inv(nodes, paths, Seq::empty(), Seq::<bool>::empty()),
{
    assert forall|p: Seq<bool>| #[trigger] paths.contains(p) implies p.len() == 0 by {
        let k = paths.index_of(p);
        assert(paths[k] == p);
    }
    assert forall|b: bool| !paths.contains(#[trigger] paths[0].push(b)) by {
        assert(paths[0].push(b).len() == 1);
    }
}

/// The code of the next line clashes with no entry.
proof fn lemma_incomparable(
    entries: Seq<(Seq<bool>, TableLine)>,
    lines: Seq<TableLine>,
    length: nat,
    index: int,
)
    requires
        !overfilled(lines),
        assigned(lines, index),
        lines[index].prefix_length == length,
        entries_are(entries, lines, placed_before(lines, length, index)),
    ensures
        incomparable(entries, code(lines, index)),
{
    assert forall|j: int| 0 <= j < entries.len() implies !(#[trigger] entries[j]).0.is_prefix_of(
        code(lines, index),
    ) && !code(lines, index).is_prefix_of(entries[j].0) by {
        assert(has_line(entries[j], lines, placed_before(lines, length, index)));
        let i = choose|i: int|
            assigned(lines, i) && placed_before(lines, length, index)(i) && #[trigger] entry_of(
                lines,
                i,
            ) == entries[j];
        lemma_codes_prefix_free(lines, i, index);
        lemma_codes_prefix_free(lines, index, i);
    }
}

proof fn lemma_entries_grow(
    entries: Seq<(Seq<bool>, TableLine)>,
    lines: Seq<TableLine>,
    length: nat,
    index: int,
)
    requires
        assigned(lines, index),
        lines[index].prefix_length == length,
        entries_are(entries, lines, placed_before(lines, length, index)),
    ensures
        entries_are(
            entries.push(entry_of(lines, index)),
            lines,
            placed_before(lines, length, index + 1),
        ),
{
    let before = placed_before(lines, length, index);
    let after = placed_before(lines, length, index + 1);
    let longer = entries.push(entry_of(lines, index));
    assert forall|i: int| assigned(lines, i) && after(i) implies longer.contains(
        #[trigger] entry_of(lines, i),
    ) by {
        if i == index {
            assert(longer[entries.len() as int] == entry_of(lines, i));
        } else {
            assert(before(i));
            let j = entries.index_of(entry_of(lines, i));
            assert(longer[j] == entry_of(lines, i));
        }
    }
    assert forall|j: int| 0 <= j < longer.len() implies has_line(
        #[trigger] longer[j],
        lines,
        after,
    ) by {
        if j < entries.len() {
            assert(has_line(entries[j], lines, before));
            let i = choose|i: int|
                assigned(lines, i) && before(i) && #[trigger] entry_of(lines, i) == entries[j];
            assert(after(i) && entry_of(lines, i) == longer[j]);
        } else {
            assert(after(index) && entry_of(lines, index) == longer[j]);
        }
    }
}

/// The same lines are placed when two conditions agree on all lines that have a code.
proof fn lemma_entries_same(
    entries: Seq<(Seq<bool>, TableLine)>,
    lines: Seq<TableLine>,
    before: spec_fn(int) -> bool,
    after: spec_fn(int) -> bool,
)
    requires
        entries_are(entries, lines, before),
        forall|i: int| #[trigger] assigned(lines, i) ==> before(i) == after(i),
    ensures
        entries_are(entries, lines, after),
{
    assert forall|i: int| assigned(lines, i) && after(i) implies entries.contains(
        #[trigger] entry_of(lines, i),
    ) by {
        assert(before(i));
    }
    assert forall|j: int| 0 <= j < entries.len() implies has_line(
        #[trigger] entries[j],
        lines,
        after,
    ) by {
        assert(has_line(entries[j], lines, before));
        let i = choose|i: int|
            assigned(lines, i) && before(i) && #[trigger] entry_of(lines, i) == entries[j];
        assert(assigned(lines, i));
        assert(after(i) && entry_of(lines, i) == entries[j]);
    }
}

proof fn lemma_entries_skip(
    entries: Seq<(Seq<bool>, TableLine)>,
    lines: Seq<TableLine>,
    length: nat,
    index: int,
)
    requires
        0 <= index < lines.len(),
        lines[index].prefix_length != length,
        entries_are(entries, lines, placed_before(lines, length, index)),
    ensures
        entries_are(entries, lines, placed_before(lines, length, index + 1)),
{
    lemma_entries_same(
        entries,
        lines,
        placed_before(lines, length, index),
        placed_before(lines, length, index + 1),
    );
}

proof fn lemma_entries_next_length(
    entries: Seq<(Seq<bool>, TableLine)>,
    lines: Seq<TableLine>,
    length: nat,
)
    requires
        entries_are(entries, lines, placed_before(lines, length, lines.len() as int)),
    ensures
        entries_are(entries, lines, placed_before(lines, length + 1, 0)),
{
    lemma_entries_same(
        entries,
        lines,
        placed_before(lines, length, lines.len() as int),
        placed_before(lines, length + 1, 0),
    );
}

proof fn lemma_entries_complete(
    entries: Seq<(Seq<bool>, TableLine)>,
    lines: Seq<TableLine>,
    length: nat,
)
    requires
        forall|i: int| 0 <= i < lines.len() ==> (#[trigger] lines[i]).prefix_length < length,
        entries_are(entries, lines, placed_before(lines, length, 0)),
    ensures
        entries_are(entries, lines, |i: int| true),
{
    lemma_entries_same(entries, lines, placed_before(lines, length, 0), |i: int| true);
}

/// Lines with a code of a length from `length` on.
spec fn longer_count(lines: Seq<TableLine>, length: nat) -> nat
    decreases lines.len(),
{
    if lines.len() == 0 {
        0
    } else {
        longer_count(lines.drop_last(), length) + if lines.last().prefix_length > length {
            1nat
        } else {
            0nat
        }
    }
}

proof fn lemma_longer_step(lines: Seq<TableLine>, length: nat)
    ensures
        longer_count(lines, length) == longer_count(lines, length + 1) + length_count(
            lines,
            length + 1,
        ),
        longer_count(lines, length) <= lines.len(),
    decreases lines.len(),
{
    if lines.len() > 0 {
        lemma_longer_step(lines.drop_last(), length);
    }
}

/// The longest prefix that a line declares.
fn longest_prefix(lines: &[TableLine]) -> (longest: u8)
    ensures
        forall|i: int| 0 <= i < lines@.len() ==> (#[trigger] lines@[i]).prefix_length <= longest,
{
    let mut longest: u8 = 0;
    let mut i: usize = 0;
    while i < lines.len()
        invariant
            i <= lines@.len(),
            forall|k: int| 0 <= k < i ==> (#[trigger] lines@[k]).prefix_length <= longest,
        decreases lines@.len() - i,
    {
        if lines[i].prefix_length > longest {
            longest = lines[i].prefix_length;
        }
        i = i + 1;
    }
    longest
}

/// How many lines declare each length up to the longest one.
fn length_counts(lines: &[TableLine], longest: u8) -> (counts: Vec<usize>)
    requires
        forall|i: int| 0 <= i < lines@.len() ==> (#[trigger] lines@[i]).prefix_length <= longest,
    ensures
        counts@.len() == longest + 1,
        forall|l: int|
            0 <= l <= longest ==> (#[trigger] counts@[l]) as nat == length_count(lines@, l as nat),
{
    let mut counts: Vec<usize> = Vec::new();
    let mut l: usize = 0;
    while l <= longest as usize
        invariant
            l <= longest + 1,
            counts@.len() == l,
            forall|k: int| 0 <= k < l ==> counts@[k] == 0,
        decreases longest + 1 - l,
    {
        counts.push(0);
        l = l + 1;
    }
    let mut i: usize = 0;
    while i < lines.len()
        invariant
            i <= lines@.len(),
            counts@.len() == longest + 1,
            forall|k: int|
                0 <= k < lines@.len() ==> (#[trigger] lines@[k]).prefix_length <= longest,
            forall|l: int|
                0 <= l <= longest ==> (#[trigger] counts@[l]) as nat == length_count(
                    lines@.take(i as int),
                    l as nat,
                ),
        decreases lines@.len() - i,
    {
        let length: usize = lines[i].prefix_length as usize;
        proof {
            let longer = lines@.take(i + 1);
            assert forall|l: int| 0 <= l <= longest implies #[trigger] length_count(
                longer,
                l as nat,
            ) == length_count(lines@.take(i as int), l as nat) + if length == l {
                1nat
            } else {
                0nat
            } && length_count(lines@.take(i as int), l as nat) <= i by {
                lemma_count_step(lines@, i as int, l as nat);
                lemma_count_monotone(lines@, i as int, i as int, l as nat);
            }
        }
        proof {
            lemma_count_monotone(lines@, i as int, i as int, length as nat);
            assert(counts@[length as int] <= i);
        }
        counts[length] = counts[length] + 1;
        i = i + 1;
    }
    proof {
        assert(lines@.take(lines@.len() as int) =~= lines@);
    }
    counts
}

/// Whether there are enough codes for all lines.
///
/// Once the available slots exceed the number of lines, no remaining assignments can exhaust
/// them; the count is capped there to avoid overflow at deep levels.
fn codes_fit(lines: &[TableLine], longest: u8) -> (fit: bool)
    requires
        forall|i: int| 0 <= i < lines@.len() ==> (#[trigger] lines@[i]).prefix_length <= longest,
    ensures
        fit == !overfilled(lines@),
{
    let counts = length_counts(lines, longest);
    let mut available: usize = 1;
    let mut length: usize = 0;
    proof {
        lemma_longer_step(lines@, 0);
    }
    while length < longest as usize
        invariant
            length <= longest,
            counts@.len() == longest + 1,
            forall|l: int|
                0 <= l <= longest ==> (#[trigger] counts@[l]) as nat == length_count(
                    lines@,
                    l as nat,
                ),
            free_codes(lines@, length as nat) >= available,
            available == free_codes(lines@, length as nat) || available >= longer_count(
                lines@,
                length as nat,
            ),
            available <= 1 || available <= lines@.len(),
        decreases longest - length,
    {
        proof {
            lemma_free_step(lines@, length as nat);
            lemma_longer_step(lines@, length as nat);
        }
        length = length + 1;
        let doubled: usize = if available > lines.len() / 2 {
            lines.len()
        } else {
            available * 2
        };
        let count: usize = counts[length];
        if count > doubled {
            proof {
                assert(overfilled_at(lines@, length as nat));
            }
            return false;
        }
        available = doubled - count;
    }
    proof {
        assert forall|l: nat| 1 <= l <= 255 implies !(#[trigger] overfilled_at(lines@, l)) by {
            if l <= longest {
                lemma_overfull_stays(lines@, l, longest as nat);
            } else {
                lemma_free_beyond(lines@, longest as nat, l);
            }
        }
    }
    true
}

impl LeafData {
    /// The table line of the leaf, but for its code.
    spec fn line(self) -> TableLine {
        TableLine {
            range_low: self.range_low as i64,
            prefix_length: 0,
            range_length: self.range_length,
            is_lower: self.is_lower,
            is_out_of_band: self.is_out_of_band,
        }
    }

    /// Read what belongs to the leaf behind its code.
    fn decode_suffix(&self, reader: &mut Reader<'_>) -> (result: Result<Option<i32>>)
        ensures
            final(reader).data() == old(reader).data(),
            0 <= old(reader).pos() <= final(reader).pos() <= old(reader).total(),
            result == line_value(self.line(), old(reader).rest()),
            result is Ok ==> final(reader).pos() == old(reader).pos() + suffix_width(self.line()),
    {
        // 3) "If HTOOB is 1 for this table, and table line I is the out-of-band
        //    table line for this table, then set: HTVAL = OOB"
        proof {
            use_type_invariant(&*reader);
            reader.lemma_pos();
        }
        if self.is_out_of_band {
            return Ok(None);
        }
        // 2) "Read RANGELEN[I] bits. Let HTOFFSET be the value read."
        // The field can declare up to 255 suffix bits. A nonzero bit above the low 32 cannot
        // yield a signed value with any base. Consume the zero extension in bounded chunks
        // without constructing a larger integer.

        let ghost start = reader.pos();
        let ghost data = reader.data();
        let ghost rest = reader.rest();
        let ghost width = self.range_length as int;
        let mut excess: u8 = if self.range_length > 32 {
            self.range_length - 32
        } else {
            0
        };
        assert(bits_value(bit_range(data, start, start)) == 0);
        while excess > 0
            invariant
                data == old(reader).data(),
                start == old(reader).pos(),
                rest == old(reader).rest(),
                reader.data() == data,
                width == self.range_length,
                !self.is_out_of_band,
                excess > 0 ==> width > 32,
                reader.pos() == start + (if width > 32 {
                    width - 32
                } else {
                    0
                }) - excess,
                0 <= start <= reader.pos() <= data.len() * 8,
                bits_value(bit_range(data, start, reader.pos())) == 0,
            decreases excess,
        {
            let count: u8 = if excess > 32 {
                32
            } else {
                excess
            };
            let ghost at = reader.pos();
            match reader.read_bits(count) {
                None => {
                    return Err(DecodeError::Huffman(HuffmanError::InvalidCode));
                },
                Some(value) => {
                    proof {
                        let low = bit_range(data, at, at + count);
                        assert(bit_range(data, start, at) + low =~= bit_range(
                            data,
                            start,
                            at + count,
                        ));
                        lemma_bits_value_concat(bit_range(data, start, at), low);
                    }
                    if value != 0 {
                        proof {
                            if rest.len() >= width {
                                let high = bit_range(data, start, at + count);
                                let low = bit_range(data, at + count, start + width);
                                assert(high + low =~= rest.take(width));
                                lemma_bits_value_concat(high, low);
                                lemma_large(bits_value(high), low.len());
                            }
                        }
                        return Err(DecodeError::Huffman(HuffmanError::InvalidCode));
                    }
                    excess = excess - count;
                },
            }
        }
        let count: u8 = if self.range_length > 32 {
            32
        } else {
            self.range_length
        };
        let ghost at = reader.pos();
        let offset: u32 = match reader.read_bits(count) {
            None => {
                return Err(DecodeError::Huffman(HuffmanError::InvalidCode));
            },
            Some(value) => value,
        };
        proof {
            let high = bit_range(data, start, at);
            let low = bit_range(data, at, at + count);
            assert(high + low =~= rest.take(width));
            lemma_bits_value_concat(high, low);
        }
        // 4) "Otherwise, if table line I is the lower range table line for this
        //    table, then set: HTVAL = RANGELOW[I] - HTOFFSET"
        // 5) "Otherwise, set: HTVAL = RANGELOW[I] + HTOFFSET"
        let value: i64 = if self.is_lower {
            self.range_low as i64 - offset as i64
        } else {
            self.range_low as i64 + offset as i64
        };
        if value < i32::MIN as i64 || value > i32::MAX as i64 {
            return Err(DecodeError::Huffman(HuffmanError::InvalidCode));
        }
        Ok(Some(value as i32))
    }
}

/// A nonzero number in front of at least 32 bits makes a number of at least 2^32.
proof fn lemma_large(high: nat, width: nat)
    requires
        high > 0,
        width >= 32,
    ensures
        high * pow2(width) >= 0x1_0000_0000,
{
    vstd::arithmetic::power2::lemma2_to64();
    if width > 32 {
        vstd::arithmetic::power2::lemma_pow2_strictly_increases(32, width);
    }
    assert(high * pow2(width) >= pow2(width)) by (nonlinear_arith)
        requires
            high > 0,
    ;
}

} // verus!
