//! What holds of the values of single functions, of the bounds of stitched ones, and of the text
//! of programs.

use crate::function::argument::{Argument, RealCall};
use crate::function::bounds::{
    arranged, bounds_of, child_bounds, increases, lemma_arranged, nested_bounds,
};
use crate::function::definition::{FunctionModel, Type4Model};
use crate::function::eval::{calculated, outputs_of, value_of, Affine, Results};
use crate::function::eval_laws::{brought_into, is_interval, lemma_all_brought_into};
use crate::function::evaluate::{evaluated, step};
use crate::function::inspection::{defines_function, FunctionDefinition};
use crate::function::instruction::CalculatorInstruction;
use crate::function::numeric::{all_clamped, ClamperModel, Interval};
use crate::function::program::{is_op_at, is_procedure_at, is_rest_at, OpModel, Parsed, ParsedOp};
use crate::function::sampling::offset;
use crate::function::single::{finite, lemma_rank, rank, scaled};
use crate::function::tokens::{
    comment_end, hex_digit, is_delimiter, is_regular, is_white_space, operator_name, skip_trivia,
};
use crate::function::type0::{
    check_of, contributions, cubic_count, neighbors, sampled_function, total, SampledCheck,
    Type0Model,
};
use crate::function::type2::Type2Model;
use crate::object::{Document, Stream};
use vstd::prelude::*;

verus! {

/// Sampled and exponential functions are computed from what was read of them and the input itself.
pub proof fn lemma_computed_values(
    sampled: Type0Model,
    exponential: Type2Model,
    input: Seq<u32>,
    x: u32,
    results: Results,
)
    requires
        forall|i: int| 0 <= i < input.len() ==> finite(#[trigger] input[i]),
        input.len() == sampled.sizes.len(),
        finite(x),
    ensures
        value_of(FunctionModel::Sampled(sampled), input, results) == (results.sampled)(
            sampled,
            input,
        ),
        value_of(FunctionModel::Exponential(exponential), seq![x], results) == (
        results.exponential)(exponential, x),
{
    let one = seq![x];
    assert(one[0] == x);
}

/// A calculator starts with its inputs, brought into its domain, as operands in order. What it
/// leaves are its outputs: as they are without a range, and else brought into it, if there are as
/// many.
pub proof fn lemma_calculator_value(
    f: Type4Model,
    input: Seq<u32>,
    inside: Seq<u32>,
    compute: spec_fn(RealCall) -> u32,
)
    requires
        input.len() == f.clamper.domain.len(),
        input.len() <= 64,
        inside.len() == input.len(),
        forall|i: int| 0 <= i < input.len() ==> finite(#[trigger] input[i]),
        forall|i: int| 0 <= i < inside.len() ==> finite(#[trigger] inside[i]),
        forall|i: int|
            0 <= i < f.clamper.domain.len() ==> is_interval(#[trigger] f.clamper.domain[i]),
        forall|i: int|
            0 <= i < input.len() ==> brought_into(
                input[i],
                #[trigger] inside[i],
                f.clamper.domain[i],
            ),
        f.clamper.range matches Some(range) ==> forall|i: int|
            0 <= i < range.len() ==> is_interval(#[trigger] range[i]),
    ensures
        ({
            let operands = Seq::new(inside.len(), |i: int| Argument::Float(inside[i]));
            match evaluated(f.program, 0, operands, compute) {
                None => calculated(f, input, compute) is None,
                Some(left) => match outputs_of(left, compute) {
                    None => calculated(f, input, compute) is None,
                    Some(given) => match f.clamper.range {
                        None => calculated(f, input, compute) == Some(given),
                        Some(range) => if range.len() == given.len() {
                            calculated(f, input, compute) matches Some(output) && output.len()
                                == given.len() && forall|i: int|
                                0 <= i < given.len() ==> brought_into(
                                    given[i],
                                    #[trigger] output[i],
                                    range[i],
                                )
                        } else {
                            calculated(f, input, compute) is None
                        },
                    },
                },
            }
        }),
{
    let domain = f.clamper.domain;
    lemma_all_brought_into(input, domain);
    assert(all_clamped(input, domain) =~= inside);
    let operands = Seq::new(inside.len(), |i: int| Argument::Float(inside[i]));
    match evaluated(f.program, 0, operands, compute) {
        Some(left) => match outputs_of(left, compute) {
            Some(given) => match f.clamper.range {
                Some(range) => {
                    lemma_all_brought_into(given, range);
                },
                None => {},
            },
            None => {},
        },
        None => {},
    }
}

/// A number is among others.
pub open spec fn has_value(values: Seq<u32>, value: int) -> bool {
    exists|k: int| 0 <= k < values.len() && scaled(#[trigger] values[k]) == value
}

/// Functions that are not stitched have no bounds. The bounds of a stitched function increase, and
/// those between its own children are among them.
pub proof fn lemma_own_bounds(
    functions: Seq<FunctionModel>,
    bounds: Seq<u32>,
    encode: Seq<Interval>,
    clamper: ClamperModel,
    affine: spec_fn(Affine) -> u32,
    i: int,
    j: int,
)
    requires
        bounds.len() == functions.len() + 1,
        functions.len() > 0,
        1 <= i < functions.len(),
    ensures
        ({
            let all = bounds_of(
                FunctionModel::Stitching { functions, bounds, encode, clamper },
                affine,
            );
            &&& has_value(all, scaled(bounds[i]))
            &&& 0 <= j < all.len() - 1 ==> scaled(all[j]) < scaled(all[j + 1])
        }),
{
    let f = FunctionModel::Stitching { functions, bounds, encode, clamper };
    let own = bounds.subrange(1, bounds.len() - 1);
    let nested = nested_bounds(functions, bounds, encode, affine, functions.len());
    let given = own + nested;
    lemma_arranged(given);
    let all = bounds_of(f, affine);
    assert(f->functions == functions);
    assert(all == arranged(given));
    assert(given[i - 1] == bounds[i]);
    assert(crate::function::bounds::has_rank(given, rank(bounds[i])));
    assert(crate::function::bounds::has_rank(all, rank(bounds[i])));
    let k = choose|k: int| 0 <= k < all.len() && rank(#[trigger] all[k]) == rank(bounds[i]);
    lemma_rank(all[k], bounds[i]);
    assert(scaled(all[k]) == scaled(bounds[i]));
    if 0 <= j < all.len() - 1 {
        assert(increases(all));
        assert(rank(all[j]) < rank(all[j + 1]));
        lemma_rank(all[j], all[j + 1]);
    }
}

/// Functions of other kinds change over nowhere.
pub proof fn lemma_no_bounds(f: FunctionModel, affine: spec_fn(Affine) -> u32)
    requires
        !(f is Stitching),
    ensures
        bounds_of(f, affine).len() == 0,
{
}

/// A bound of a child is mapped from the encoding of the child to its interval, and counts if it
/// is strictly inside.
pub proof fn lemma_child_bounds(
    inner: Seq<u32>,
    map: Interval,
    low: u32,
    high: u32,
    affine: spec_fn(Affine) -> u32,
    count: nat,
    i: int,
)
    requires
        0 <= i < count <= inner.len(),
    ensures
        ({
            let bound = affine(
                Affine { x: inner[i], low: map.low, high: map.high, start: low, end: high },
            );
            scaled(low) < scaled(bound) < scaled(high) ==> child_bounds(
                inner,
                map,
                low,
                high,
                affine,
                count,
            ).contains(bound)
        }),
        forall|k: int|
            0 <= k < child_bounds(inner, map, low, high, affine, count).len() ==> scaled(low)
                < scaled(#[trigger] child_bounds(inner, map, low, high, affine, count)[k])
                < scaled(high),
    decreases count,
{
    let before = child_bounds(inner, map, low, high, affine, (count - 1) as nat);
    let all = child_bounds(inner, map, low, high, affine, count);
    let last = affine(
        Affine { x: inner[count - 1], low: map.low, high: map.high, start: low, end: high },
    );
    lemma_rank(low, last);
    lemma_rank(last, high);
    if count > 1 {
        if i < count - 1 {
            lemma_child_bounds(inner, map, low, high, affine, (count - 1) as nat, i);
        } else {
            lemma_child_bounds(inner, map, low, high, affine, (count - 1) as nat, 0);
        }
    }
    assert(forall|k: int| 0 <= k < before.len() ==> #[trigger] all[k] == before[k]);
    if all.len() > before.len() {
        assert(all[before.len() as int] == last);
        assert(all.contains(last));
    }
    if i < count - 1 {
        let bound = affine(
            Affine { x: inner[i], low: map.low, high: map.high, start: low, end: high },
        );
        if before.contains(bound) {
            let k = choose|k: int| 0 <= k < before.len() && before[k] == bound;
            assert(all[k] == bound);
        }
    }
}

/// A procedure starts with a brace behind white space and comments.
pub proof fn lemma_procedure_opened(data: Seq<u8>, at: int, depth: int, count: int, parsed: Parsed)
    requires
        is_procedure_at(data, at, depth, count, Some(parsed)),
    ensures
        depth <= 128,
        0 <= skip_trivia(data, at) < data.len(),
        data[skip_trivia(data, at)] == 0x7B,
        is_rest_at(
            data,
            skip_trivia(data, at) + 1,
            depth,
            count,
            Seq::empty(),
            Seq::empty(),
            Some(parsed),
        ),
{
    if 0 <= at <= data.len() {
        crate::function::tokens::lemma_skip_trivia(data, at);
    }
}

/// A procedure ends with its closing brace; then it is the operations that were read. A procedure
/// that waits for its operator there is dropped.
pub proof fn lemma_procedure_closed(
    data: Seq<u8>,
    at: int,
    depth: int,
    count: int,
    pending: Seq<Seq<OpModel>>,
    ops: Seq<OpModel>,
    parsed: Option<Parsed>,
)
    requires
        is_rest_at(data, at, depth, count, pending, ops, parsed),
        0 <= at,
        0 <= skip_trivia(data, at) < data.len(),
        data[skip_trivia(data, at)] == 0x7D,
    ensures
        parsed matches Some(parsed) && parsed.ops == ops && parsed.at == skip_trivia(data, at) + 1
            && parsed.count == count,
{
}

/// An operation is appended to those that were read before, and counts once.
pub proof fn lemma_operation_appended(
    data: Seq<u8>,
    at: int,
    depth: int,
    count: int,
    pending: Seq<Seq<OpModel>>,
    ops: Seq<OpModel>,
    parsed: Parsed,
)
    requires
        is_rest_at(data, at, depth, count, pending, ops, Some(parsed)),
        0 <= at,
        0 <= skip_trivia(data, at) < data.len(),
        data[skip_trivia(data, at)] != 0x7D,
        data[skip_trivia(data, at)] != 0x7B,
    ensures
        count < 16384,
        exists|next: ParsedOp|
            #[trigger] is_op_at(data, skip_trivia(data, at), pending, Some(next)) && is_rest_at(
                data,
                next.at,
                depth,
                count + 1,
                next.pending,
                ops.push(next.op),
                Some(parsed),
            ),
{
    let start = skip_trivia(data, at);
    let next = choose|next: Option<ParsedOp>|
        {
            &&& #[trigger] is_op_at(data, start, pending, next)
            &&& match next {
                None => Some(parsed) is None,
                Some(next) => if count + 1 > 16384 || !(start < next.at <= data.len()) {
                    Some(parsed) is None
                } else {
                    is_rest_at(
                        data,
                        next.at,
                        depth,
                        count + 1,
                        next.pending,
                        ops.push(next.op),
                        Some(parsed),
                    )
                },
            }
        };
    assert(is_op_at(data, start, pending, Some(next->0)));
}

/// White space separates, delimiters stand for themselves, and all other bytes make up names.
pub proof fn lemma_byte_kinds(byte: u8)
    ensures
        is_regular(byte) == (!is_white_space(byte) && !is_delimiter(byte)),
        !(is_white_space(byte) && is_delimiter(byte)),
        is_white_space(byte) <==> byte == 0 || byte == 9 || byte == 10 || byte == 12 || byte == 13
            || byte == 32,
        byte == 0x7B || byte == 0x7D || byte == 0x25 || byte == 0x2F ==> is_delimiter(byte),
        0x30 <= byte <= 0x39 || 0x41 <= byte <= 0x5A || 0x61 <= byte <= 0x7A ==> is_regular(byte),
{
}

/// The value of a hexadecimal digit is below sixteen; letters follow the ten digits, in either
/// case.
pub proof fn lemma_hex_digits(byte: u8)
    ensures
        hex_digit(byte) matches Some(value) ==> 0 <= value < 16,
        hex_digit(byte) matches Some(value) ==> value < 10 ==> byte == 0x30 + value,
        hex_digit(byte) matches Some(value) ==> value >= 10 ==> byte == 0x41 + value - 10 || byte
            == 0x61 + value - 10,
        0x30 <= byte <= 0x39 || 0x41 <= byte <= 0x46 || 0x61 <= byte <= 0x66 <==> hex_digit(
            byte,
        ) is Some,
{
}

/// Characters of a name stand for themselves, but for a number sign with two hexadecimal digits,
/// which stands for the byte that they denote.
pub proof fn lemma_operator_name(first: u8, high: u8, low: u8, rest: Seq<u8>)
    ensures
        operator_name(Seq::empty()).len() == 0,
        first != 0x23 ==> operator_name(seq![first] + rest) == seq![first] + operator_name(rest),
        hex_digit(high) is Some && hex_digit(low) is Some ==> operator_name(
            seq![0x23u8, high, low] + rest,
        ) == seq![(16 * hex_digit(high)->0 + hex_digit(low)->0) as u8] + operator_name(rest),
{
    assert((seq![first] + rest).skip(1) =~= rest);
    assert((seq![0x23u8, high, low] + rest).skip(3) =~= rest);
    let escaped = seq![0x23u8, high, low] + rest;
    assert(escaped[0] == 0x23 && escaped[1] == high && escaped[2] == low);
    assert((seq![first] + rest)[0] == first);
}

/// What is skipped ends at the end of the data or at a byte that is neither white space nor the
/// beginning of a comment, and nothing is skipped before such a byte.
pub proof fn lemma_skipped(data: Seq<u8>, at: int)
    requires
        0 <= at <= data.len(),
    ensures
        at <= skip_trivia(data, at) <= data.len(),
        skip_trivia(data, at) < data.len() ==> !is_white_space(data[skip_trivia(data, at)])
            && data[skip_trivia(data, at)] != 0x25,
        at < data.len() && !is_white_space(data[at]) && data[at] != 0x25 ==> skip_trivia(data, at)
            == at,
        at < data.len() && is_white_space(data[at]) ==> skip_trivia(data, at) == skip_trivia(
            data,
            at + 1,
        ),
        at < data.len() && data[at] == 0x25 ==> skip_trivia(data, at) == skip_trivia(
            data,
            comment_end(data, at + 1),
        ),
    decreases data.len() - at,
{
    crate::function::tokens::lemma_skip_trivia(data, at);
    if at < data.len() {
        if is_white_space(data[at]) {
            lemma_skipped(data, at + 1);
        } else if data[at] == 0x25 {
            crate::function::tokens::lemma_comment_end(data, at + 1);
            lemma_skipped(data, comment_end(data, at + 1));
        }
    }
}

/// A comment goes on to the end of its line.
pub proof fn lemma_comment(data: Seq<u8>, at: int)
    requires
        0 <= at <= data.len(),
    ensures
        at <= comment_end(data, at) <= data.len(),
        comment_end(data, at) < data.len() ==> data[comment_end(data, at)] == 0x0A
            || data[comment_end(data, at)] == 0x0D,
        forall|i: int|
            at <= i < comment_end(data, at) ==> (#[trigger] data[i]) != 0x0A && data[i] != 0x0D,
    decreases data.len() - at,
{
    if at < data.len() && data[at] != 0x0A && data[at] != 0x0D {
        lemma_comment(data, at + 1);
    }
}

/// What is told of a function is what was read of it.
pub proof fn lemma_told(definition: FunctionDefinition, f: FunctionModel)
    requires
        defines_function(definition, f),
    ensures
        match definition {
            FunctionDefinition::Sampled {
                sizes,
                samples,
                sample_maximum,
                order,
                domain,
                range,
                encode,
                decode,
            } => f matches FunctionModel::Sampled(sampled) && {
                &&& sizes@ == sampled.sizes
                &&& samples@ == sampled.table
                &&& sample_maximum + 1 == vstd::arithmetic::power2::pow2(sampled.bits as nat)
                &&& order == 3 <==> sampled.cubic
                &&& order == 1 || order == 3
                &&& domain@ == sampled.domain && range@ == sampled.range
                &&& encode@ == sampled.encode && decode@ == sampled.decode
            },
            FunctionDefinition::Exponential {
                domain,
                range,
                c0,
                c1,
                exponent,
                odd_integer_exponent,
            } => f matches FunctionModel::Exponential(exponential) && {
                &&& c0@ == exponential.c0
                &&& c1@ == exponential.c1
                &&& exponent == exponential.exponent
                &&& odd_integer_exponent == exponential.odd
                &&& domain == exponential.clamper.domain[0]
                &&& range is Some <==> exponential.clamper.range is Some
            },
            FunctionDefinition::Stitching { domain, range, functions, bounds, encode } => {
                &&& f matches FunctionModel::Stitching {
                    functions: children,
                    bounds: all,
                    encode: maps,
                    clamper,
                }
                &&& functions@.len() == children.len()
                &&& all.len() >= 2 ==> bounds@.len() == all.len() - 2
                &&& all.len() >= 2 ==> forall|i: int|
                    0 <= i < bounds@.len() ==> #[trigger] bounds@[i] == all[i + 1]
                &&& encode@ == maps
                &&& domain == clamper.domain[0]
                &&& range is Some <==> clamper.range is Some
            },
            FunctionDefinition::Calculator(_) => f is Calculator,
        },
{
}

/// The samples at the first place start the table, and the samples of the next place along a
/// dimension are as far away as the dimension's stride.
pub proof fn lemma_offset(f: Type0Model, coordinates: Seq<usize>, i: int, next: usize, count: nat)
    requires
        0 <= i < coordinates.len(),
        coordinates.len() == f.strides.len(),
        count <= coordinates.len(),
        next == coordinates[i] + 1,
    ensures
        offset(f, coordinates.update(i, next), count) == offset(f, coordinates, count) + if i
            < count {
            f.strides[i] as int
        } else {
            0
        },
        (forall|k: int| 0 <= k < coordinates.len() ==> #[trigger] coordinates[k] == 0) ==> offset(
            f,
            coordinates,
            count,
        ) == 0,
    decreases count,
{
    if count > 0 {
        lemma_offset(f, coordinates, i, next, (count - 1) as nat);
        let a = coordinates[count - 1] as int;
        let b = f.strides[count - 1] as int;
        assert((a + 1) * b == a * b + b) by (nonlinear_arith);
        assert(0 * b == 0) by (nonlinear_arith);
    }
}

/// A calculator has no more operands than its stack holds: nothing more is pushed, copied or
/// duplicated on a full one.
pub proof fn lemma_full_stack(stack: Seq<Argument>, compute: spec_fn(RealCall) -> u32)
    requires
        stack.len() == 64,
    ensures
        step(CalculatorInstruction::Dup, stack, compute) is None,
        step(CalculatorInstruction::True, stack, compute) is None,
        step(CalculatorInstruction::False, stack, compute) is None,
        forall|number: crate::object::Number|
            evaluated(#[trigger] seq![OpModel::Number(number)], 0, stack, compute) is None,
{
    assert forall|number: crate::object::Number|
        evaluated(#[trigger] seq![OpModel::Number(number)], 0, stack, compute) is None by {
        let program = seq![OpModel::Number(number)];
        assert(program[0] == OpModel::Number(number));
        reveal_with_fuel(evaluated, 2);
    }
}

/// A sampled function depends on no more samples than it may. A dimension of several samples has
/// an extent, intervals have their bounds in order, and every output is precise enough or constant.
pub proof fn lemma_sampled_limits(
    doc: Document,
    stream: Stream,
    precise: spec_fn(SampledCheck) -> bool,
    i: int,
)
    ensures
        sampled_function(doc, stream, precise) matches Some(f) ==> {
            let outputs = f.range.len() as int;
            &&& contributions(outputs, f.sizes, f.cubic, f.sizes.len()) <= 65536
            &&& 0 <= i < f.sizes.len() && f.sizes[i] > 1 ==> scaled(f.domain[i].low) != scaled(
                f.domain[i].high,
            )
            &&& f.sizes.len() == f.domain.len()
            &&& 0 <= i < f.domain.len() ==> scaled(f.domain[i].low) <= scaled(f.domain[i].high)
            &&& 0 <= i < f.range.len() ==> scaled(f.range[i].low) <= scaled(f.range[i].high)
            &&& 0 <= i < f.decode.len() && scaled(f.decode[i].low) != scaled(f.decode[i].high)
                ==> precise(check_of(f.sizes, outputs, f.cubic, f.decode[i]))
        },
{
    if sampled_function(doc, stream, precise) is Some {
        let f = sampled_function(doc, stream, precise)->0;
        if 0 <= i < f.sizes.len() {
            assert(crate::function::type0::has_extent(f.sizes[i], f.domain[i]));
            lemma_rank(f.domain[i].low, f.domain[i].high);
        }
        if 0 <= i < f.range.len() {
            assert(crate::function::numeric::in_order(f.range[i]));
            lemma_rank(f.range[i].low, f.range[i].high);
        }
        if 0 <= i < f.domain.len() {
            assert(crate::function::numeric::in_order(f.domain[i]));
        }
        if 0 <= i < f.decode.len() {
            lemma_rank(f.decode[i].low, f.decode[i].high);
            assert(crate::function::type0::is_precise(
                check_of(f.sizes, f.range.len() as int, f.cubic, f.decode[i]),
                precise,
            ));
        }
    }
}

/// The samples that outputs depend on multiply over the dimensions; sizes and cubic dimensions add
/// up.
pub proof fn lemma_sampled_counts(outputs: int, sizes: Seq<usize>, cubic: bool, count: nat)
    requires
        count < sizes.len(),
    ensures
        contributions(outputs, sizes, cubic, 0) == outputs,
        contributions(outputs, sizes, cubic, count + 1) == contributions(
            outputs,
            sizes,
            cubic,
            count,
        ) * neighbors(sizes[count as int] as int, cubic),
        total(sizes, 0) == 0,
        total(sizes, count + 1) == total(sizes, count) + sizes[count as int],
        cubic_count(sizes, cubic, 0) == 0,
        cubic_count(sizes, cubic, count + 1) == cubic_count(sizes, cubic, count) + if cubic
            && sizes[count as int] >= 4 {
            1int
        } else {
            0int
        },
{
}

} // verus!
