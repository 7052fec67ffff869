//! The assignment of prefix codes to table lines (T.88, B.3).

use crate::bits::{bits_value, value_bits};
use crate::bits::{lemma_value_bits_length, lemma_value_of_value_bits};
use vstd::arithmetic::power2::{lemma_pow2_unfold, pow2};
use vstd::prelude::*;

verus! {

/// A table line definition used to build the Huffman tree.
#[derive(Debug, Clone, Copy)]
pub struct TableLine {
    /// `RANGELOW` - The base value for computing the decoded value.
    ///
    /// The lower open range may start at `i32::MIN - 1`: such a line keeps its code, though no
    /// value can be decoded from it.
    pub range_low: i64,
    /// `PREFLEN` - Prefix code length.
    pub prefix_length: u8,
    /// `RANGELEN` - Number of additional bits.
    pub range_length: u8,
    /// True if this is a lower range line (uses subtraction).
    pub is_lower: bool,
    /// `OOB` - True if this is the out-of-band marker.
    pub is_out_of_band: bool,
}

impl TableLine {
    /// Create a normal table line.
    pub fn new(range_low: i32, prefix_length: u8, range_length: u8) -> (line: Self)
        ensures
            line == (TableLine {
                range_low: range_low as i64,
                prefix_length,
                range_length,
                is_lower: false,
                is_out_of_band: false,
            }),
    {
        TableLine {
            range_low: range_low as i64,
            prefix_length,
            range_length,
            is_lower: false,
            is_out_of_band: false,
        }
    }

    /// Create a lower range line (up to and with `range_high`).
    pub fn lower(range_high: i64, prefix_length: u8, range_length: u8) -> (line: Self)
        ensures
            line == (TableLine {
                range_low: range_high,
                prefix_length,
                range_length,
                is_lower: true,
                is_out_of_band: false,
            }),
    {
        TableLine {
            range_low: range_high,
            prefix_length,
            range_length,
            is_lower: true,
            is_out_of_band: false,
        }
    }

    /// Create an upper range line (from `range_low` on).
    pub fn upper(range_low: i32, prefix_length: u8, range_length: u8) -> (line: Self)
        ensures
            line == (TableLine {
                range_low: range_low as i64,
                prefix_length,
                range_length,
                is_lower: false,
                is_out_of_band: false,
            }),
    {
        TableLine {
            range_low: range_low as i64,
            prefix_length,
            range_length,
            is_lower: false,
            is_out_of_band: false,
        }
    }

    /// Create an out-of-band marker line.
    pub fn oob(prefix_length: u8) -> (line: Self)
        ensures
            line == (TableLine {
                range_low: 0,
                prefix_length,
                range_length: 0,
                is_lower: false,
                is_out_of_band: true,
            }),
    {
        TableLine {
            range_low: 0,
            prefix_length,
            range_length: 0,
            is_lower: false,
            is_out_of_band: true,
        }
    }
}

/// `LENCOUNT` - How many lines have a code of the given length.
pub open spec fn length_count(lines: Seq<TableLine>, length: nat) -> nat
    decreases lines.len(),
{
    if lines.len() == 0 {
        0
    } else {
        length_count(lines.drop_last(), length) + if lines.last().prefix_length == length {
            1nat
        } else {
            0nat
        }
    }
}

/// `FIRSTCODE` - The first code of the given length. Lines of length zero have no code.
pub open spec fn first_code(lines: Seq<TableLine>, length: nat) -> nat
    decreases length,
{
    if length <= 1 {
        0
    } else {
        let shorter = (length - 1) as nat;
        2 * (first_code(lines, shorter) + length_count(lines, shorter))
    }
}

/// The line takes part in the assignment of codes.
pub open spec fn assigned(lines: Seq<TableLine>, index: int) -> bool {
    0 <= index < lines.len() && lines[index].prefix_length > 0
}

/// `CODES` - The code of a line as a number: codes of one length go up in the order of the lines.
pub open spec fn code_value(lines: Seq<TableLine>, index: int) -> nat {
    let length = lines[index].prefix_length as nat;
    first_code(lines, length) + length_count(lines.take(index), length)
}

/// The code of a line as a bit string.
pub open spec fn code(lines: Seq<TableLine>, index: int) -> Seq<bool> {
    value_bits(code_value(lines, index), lines[index].prefix_length as nat)
}

/// More codes of some length are asked for than there are bit strings left of it.
pub open spec fn overfilled_at(lines: Seq<TableLine>, length: nat) -> bool {
    first_code(lines, length) + length_count(lines, length) > pow2(length)
}

/// The lines ask for more codes than the code space has.
pub open spec fn overfilled(lines: Seq<TableLine>) -> bool {
    exists|length: nat| 1 <= length <= 255 && #[trigger] overfilled_at(lines, length)
}

/// The bit string starts the code of some line.
pub open spec fn is_path(lines: Seq<TableLine>, path: Seq<bool>) -> bool {
    exists|i: int| assigned(lines, i) && path.is_prefix_of(#[trigger] code(lines, i))
}

/// The bit strings that start the code of some line.
pub open spec fn code_paths(lines: Seq<TableLine>) -> Set<Seq<bool>> {
    Set::new(|path: Seq<bool>| path.len() > 0 && is_path(lines, path))
}

/// The size of the tree of the codes: a root, and a node for each bit string that starts a code.
pub open spec fn node_count(lines: Seq<TableLine>) -> nat {
    1 + code_paths(lines).len()
}

pub proof fn lemma_count_step(lines: Seq<TableLine>, index: int, length: nat)
    requires
        0 <= index < lines.len(),
    ensures
        length_count(lines.take(index + 1), length) == length_count(lines.take(index), length)
            + if lines[index].prefix_length == length {
            1nat
        } else {
            0nat
        },
{
    let longer = lines.take(index + 1);
    assert(longer.drop_last() =~= lines.take(index));
}

pub proof fn lemma_count_monotone(lines: Seq<TableLine>, low: int, high: int, length: nat)
    requires
        0 <= low <= high <= lines.len(),
    ensures
        length_count(lines.take(low), length) <= length_count(lines.take(high), length),
        length_count(lines.take(high), length) <= length_count(lines, length),
        length_count(lines.take(high), length) <= high,
    decreases high,
{
    if low < high {
        lemma_count_monotone(lines, low, high - 1, length);
        lemma_count_step(lines, high - 1, length);
    } else if high > 0 {
        lemma_count_monotone(lines, high - 1, high - 1, length);
        lemma_count_step(lines, high - 1, length);
    }
    lemma_count_top(lines, high, length);
}

proof fn lemma_count_top(lines: Seq<TableLine>, high: int, length: nat)
    requires
        0 <= high <= lines.len(),
    ensures
        length_count(lines.take(high), length) <= length_count(lines, length),
    decreases lines.len() - high,
{
    if high == lines.len() {
        assert(lines.take(high) =~= lines);
    } else {
        lemma_count_step(lines, high, length);
        lemma_count_top(lines, high + 1, length);
    }
}

/// The first code of a longer length lies behind all shorter codes, extended to that length.
proof fn lemma_first_code_growth(lines: Seq<TableLine>, short: nat, long: nat)
    requires
        1 <= short < long,
    ensures
        first_code(lines, long) >= (first_code(lines, short) + length_count(lines, short)) * pow2(
            (long - short) as nat,
        ),
    decreases long,
{
    let used = first_code(lines, short) + length_count(lines, short);
    if long == short + 1 {
        vstd::arithmetic::power2::lemma2_to64();
        let block = pow2((long - short) as nat);
        assert(block == 2);
        assert(first_code(lines, long) == 2 * used);
        assert(used * block == 2 * used) by (nonlinear_arith)
            requires
                block == 2,
        ;
    } else {
        let before = (long - 1) as nat;
        lemma_first_code_growth(lines, short, before);
        let distance = (before - short) as nat;
        lemma_pow2_unfold((long - short) as nat);
        assert(((long - short) as nat - 1) as nat == distance);
        let block = pow2((long - short) as nat);
        let half = pow2(distance);
        assert(block == 2 * half);
        assert(2 * (used * half) == used * block) by (nonlinear_arith)
            requires
                block == 2 * half,
        ;
        assert(first_code(lines, long) >= 2 * first_code(lines, before));
    }
}

/// The number of a bit string lies within the block of numbers that its start opens.
proof fn lemma_prefix_value(prefix: Seq<bool>, bits: Seq<bool>)
    requires
        prefix.is_prefix_of(bits),
    ensures
        bits_value(prefix) * pow2((bits.len() - prefix.len()) as nat) <= bits_value(bits),
        bits_value(bits) < (bits_value(prefix) + 1) * pow2((bits.len() - prefix.len()) as nat),
    decreases bits.len(),
{
    let distance = (bits.len() - prefix.len()) as nat;
    if distance == 0 {
        assert(prefix =~= bits);
        vstd::arithmetic::power2::lemma2_to64();
    } else {
        assert(prefix.is_prefix_of(bits.drop_last()));
        lemma_prefix_value(prefix, bits.drop_last());
        lemma_pow2_unfold(distance);
        let half = pow2((distance - 1) as nat) as int;
        let low = bits_value(prefix) as int;
        let value = bits_value(bits.drop_last()) as int;
        assert(2 * value + 1 < (low + 1) * (2 * half)) by (nonlinear_arith)
            requires
                value < (low + 1) * half,
        ;
        assert(low * (2 * half) <= 2 * value) by (nonlinear_arith)
            requires
                low * half <= value,
        ;
    }
}

/// Each code has the length that its line asks for and fits into it.
pub proof fn lemma_code_fits(lines: Seq<TableLine>, index: int)
    requires
        assigned(lines, index),
        !overfilled(lines),
    ensures
        code_value(lines, index) < first_code(lines, lines[index].prefix_length as nat)
            + length_count(lines, lines[index].prefix_length as nat),
        code_value(lines, index) < pow2(lines[index].prefix_length as nat),
        code(lines, index).len() == lines[index].prefix_length,
        bits_value(code(lines, index)) == code_value(lines, index),
{
    let length = lines[index].prefix_length as nat;
    assert(!overfilled_at(lines, length));
    lemma_count_step(lines, index, length);
    lemma_count_monotone(lines, index + 1, index + 1, length);
    lemma_value_of_value_bits(code_value(lines, index), length);
}

/// The code of no line starts the code of another line.
pub proof fn lemma_codes_prefix_free(lines: Seq<TableLine>, i: int, j: int)
    requires
        !overfilled(lines),
        assigned(lines, i),
        assigned(lines, j),
        i != j,
    ensures
        !code(lines, i).is_prefix_of(code(lines, j)),
{
    lemma_code_fits(lines, i);
    lemma_code_fits(lines, j);
    if code(lines, i).is_prefix_of(code(lines, j)) {
        let short = lines[i].prefix_length as nat;
        let long = lines[j].prefix_length as nat;
        if short == long {
            assert(code(lines, i) =~= code(lines, j));
            assert(code_value(lines, i) == code_value(lines, j));
            let (low, high) = if i < j {
                (i, j)
            } else {
                (j, i)
            };
            lemma_count_step(lines, low, short);
            lemma_count_monotone(lines, low + 1, high, short);
        } else {
            lemma_prefix_value(code(lines, i), code(lines, j));
            lemma_first_code_growth(lines, short, long);
            let block = pow2((long - short) as nat) as int;
            let used = (first_code(lines, short) + length_count(lines, short)) as int;
            let value = code_value(lines, i) as int;
            assert((value + 1) * block <= used * block) by (nonlinear_arith)
                requires
                    value + 1 <= used,
                    block >= 0,
            ;
        }
    }
}

/// Different lines have different codes.
pub proof fn lemma_codes_distinct(lines: Seq<TableLine>, i: int, j: int)
    requires
        !overfilled(lines),
        assigned(lines, i),
        assigned(lines, j),
        code(lines, i) == code(lines, j),
    ensures
        i == j,
{
    if i != j {
        lemma_codes_prefix_free(lines, i, j);
    }
}

/// The bit strings of a length that no code of at most that length starts.
pub open spec fn free_codes(lines: Seq<TableLine>, length: nat) -> int {
    if length == 0 {
        1
    } else {
        pow2(length) - first_code(lines, length) - length_count(lines, length)
    }
}

pub proof fn lemma_free_step(lines: Seq<TableLine>, length: nat)
    ensures
        free_codes(lines, length + 1) == 2 * free_codes(lines, length) - length_count(
            lines,
            length + 1,
        ),
{
    vstd::arithmetic::power2::lemma_pow2_unfold(length + 1);
    vstd::arithmetic::power2::lemma2_to64();
}

/// Once the space is overfilled, it stays so for all longer codes.
pub proof fn lemma_overfull_stays(lines: Seq<TableLine>, low: nat, high: nat)
    requires
        low <= high,
        free_codes(lines, high) >= 0,
    ensures
        free_codes(lines, low) >= 0,
    decreases high - low,
{
    if low < high {
        lemma_free_step(lines, low);
        lemma_overfull_stays(lines, low + 1, high);
    }
}

/// Beyond the longest length no line asks for a code.
proof fn lemma_no_longer(lines: Seq<TableLine>, longest: nat, length: nat)
    requires
        forall|i: int| 0 <= i < lines.len() ==> (#[trigger] lines[i]).prefix_length <= longest,
        longest < length,
    ensures
        length_count(lines, length) == 0,
    decreases lines.len(),
{
    if lines.len() > 0 {
        assert forall|i: int| 0 <= i < lines.drop_last().len() implies (
        #[trigger] lines.drop_last()[i]).prefix_length <= longest by {
            assert(lines[i].prefix_length <= longest);
        }
        lemma_no_longer(lines.drop_last(), longest, length);
        assert(lines[lines.len() - 1].prefix_length <= longest);
    }
}

pub proof fn lemma_free_beyond(lines: Seq<TableLine>, longest: nat, length: nat)
    requires
        forall|i: int| 0 <= i < lines.len() ==> (#[trigger] lines[i]).prefix_length <= longest,
        longest <= length,
        free_codes(lines, longest) >= 0,
    ensures
        free_codes(lines, length) >= 0,
    decreases length,
{
    if longest < length {
        lemma_free_beyond(lines, longest, (length - 1) as nat);
        lemma_free_step(lines, (length - 1) as nat);
        lemma_no_longer(lines, longest, length);
    }
}

/// The share of the strings of length `longest` that the codes of the lines take up.
pub open spec fn code_weight(lines: Seq<TableLine>, longest: nat) -> nat
    decreases lines.len(),
{
    if lines.len() == 0 {
        0
    } else {
        let length = lines.last().prefix_length as nat;
        code_weight(lines.drop_last(), longest) + if 0 < length <= longest {
            pow2((longest - length) as nat)
        } else {
            0
        }
    }
}

proof fn lemma_weight_step(lines: Seq<TableLine>, longest: nat)
    ensures
        code_weight(lines, longest + 1) == 2 * code_weight(lines, longest) + length_count(
            lines,
            longest + 1,
        ),
    decreases lines.len(),
{
    if lines.len() > 0 {
        lemma_weight_step(lines.drop_last(), longest);
        let length = lines.last().prefix_length as nat;
        vstd::arithmetic::power2::lemma2_to64();
        if 0 < length <= longest {
            lemma_pow2_unfold((longest + 1 - length) as nat);
            assert((longest + 1 - length - 1) as nat == (longest - length) as nat);
        }
    }
}

proof fn lemma_weight_free(lines: Seq<TableLine>, longest: nat)
    ensures
        free_codes(lines, longest) == pow2(longest) - code_weight(lines, longest),
    decreases longest,
{
    if longest == 0 {
        vstd::arithmetic::power2::lemma2_to64();
        lemma_weight_zero(lines);
    } else {
        let shorter = (longest - 1) as nat;
        lemma_weight_free(lines, shorter);
        lemma_weight_step(lines, shorter);
        lemma_free_step(lines, shorter);
        lemma_pow2_unfold(longest);
    }
}

proof fn lemma_weight_zero(lines: Seq<TableLine>)
    ensures
        code_weight(lines, 0) == 0,
    decreases lines.len(),
{
    if lines.len() > 0 {
        lemma_weight_zero(lines.drop_last());
    }
}

/// The codes fit if and only if their shares add up to at most the whole code space.
pub proof fn lemma_overfilled_by_weight(lines: Seq<TableLine>, longest: nat)
    requires
        1 <= longest <= 255,
        forall|i: int| 0 <= i < lines.len() ==> (#[trigger] lines[i]).prefix_length <= longest,
    ensures
        overfilled(lines) <==> code_weight(lines, longest) > pow2(longest),
{
    lemma_weight_free(lines, longest);
    if code_weight(lines, longest) > pow2(longest) {
        assert(overfilled_at(lines, longest));
    } else {
        assert forall|l: nat| 1 <= l <= 255 implies !(#[trigger] overfilled_at(lines, l)) by {
            if l <= longest {
                lemma_overfull_stays(lines, l, longest);
            } else {
                lemma_free_beyond(lines, longest, l);
            }
        }
    }
}

spec fn starts(bits: Seq<bool>, longest: nat) -> Set<Seq<bool>> {
    Set::new(|path: Seq<bool>| 0 < path.len() <= longest && path.is_prefix_of(bits))
}

proof fn lemma_starts(bits: Seq<bool>, longest: nat)
    requires
        longest <= bits.len(),
    ensures
        starts(bits, longest).finite(),
        starts(bits, longest).len() <= longest,
    decreases longest,
{
    if longest == 0 {
        assert(starts(bits, 0) =~= Set::empty());
    } else {
        let shorter = (longest - 1) as nat;
        lemma_starts(bits, shorter);
        let whole = bits.take(longest as int);
        assert forall|path: Seq<bool>| #[trigger] starts(bits, longest).contains(path) == starts(
            bits,
            shorter,
        ).insert(whole).contains(path) by {
            if path.len() == longest && path.is_prefix_of(bits) {
                assert(path =~= whole);
            }
        }
        assert(starts(bits, longest) =~= starts(bits, shorter).insert(whole));
    }
}

/// The bit strings that start the code of one of the first lines.
spec fn first_paths(lines: Seq<TableLine>, count: nat) -> Set<Seq<bool>> {
    Set::new(
        |path: Seq<bool>|
            path.len() > 0 && exists|i: int|
                i < count && assigned(lines, i) && path.is_prefix_of(#[trigger] code(lines, i)),
    )
}

proof fn lemma_first_paths(lines: Seq<TableLine>, count: nat)
    requires
        count <= lines.len(),
    ensures
        first_paths(lines, count).finite(),
        first_paths(lines, count).len() <= 255 * count,
    decreases count,
{
    let paths = first_paths(lines, count);
    if count == 0 {
        assert(paths =~= Set::empty());
    } else {
        let last = count - 1;
        let bits = code(lines, last);
        let before = first_paths(lines, last as nat);
        let more = starts(bits, bits.len());
        lemma_first_paths(lines, last as nat);
        lemma_starts(bits, bits.len());
        lemma_value_bits_length(code_value(lines, last), lines[last].prefix_length as nat);
        vstd::set_lib::lemma_len_union(before, more);
        assert forall|path: Seq<bool>| #[trigger] paths.contains(path) implies before.union(
            more,
        ).contains(path) by {
            let i = choose|i: int|
                i < count && assigned(lines, i) && path.is_prefix_of(#[trigger] code(lines, i));
            if i < last {
                assert(before.contains(path));
            }
        }
        vstd::set_lib::lemma_set_subset_finite(before.union(more), paths);
        vstd::set_lib::lemma_len_subset(paths, before.union(more));
    }
}

/// A tree has a root, and for each line at most as many nodes as its code may have bits.
pub proof fn lemma_node_bound(lines: Seq<TableLine>)
    ensures
        code_paths(lines).finite(),
        node_count(lines) <= 1 + 255 * lines.len(),
{
    lemma_first_paths(lines, lines.len());
    assert(first_paths(lines, lines.len()) =~= code_paths(lines));
}

} // verus!
