//! What holds of the values of functions.

use crate::function::argument::RealCall;
use crate::function::definition::{arity_of, FunctionModel, Type4Model};
use crate::function::eval::{calculated, child_place, value_of, Affine, Results};
use crate::function::numeric::{all_clamped, clamped, ClamperModel, Interval};
use crate::function::single::{finite, lemma_rank, rank, scaled};
use vstd::prelude::*;

verus! {

/// A number lies between the ends of an interval.
pub open spec fn lies_in(bits: u32, interval: Interval) -> bool {
    scaled(interval.low) <= scaled(bits) <= scaled(interval.high)
}

/// One number is another brought into an interval: the number itself if it lies there, and else
/// the end that it lies beyond.
pub open spec fn brought_into(from: u32, to: u32, interval: Interval) -> bool {
    if scaled(from) < scaled(interval.low) {
        to == interval.low
    } else if scaled(from) > scaled(interval.high) {
        to == interval.high
    } else {
        to == from
    }
}

/// The ends of an interval are in order.
pub open spec fn is_interval(interval: Interval) -> bool {
    scaled(interval.low) <= scaled(interval.high)
}

/// Numbers are brought into their intervals.
pub proof fn lemma_brought_into(bits: u32, interval: Interval)
    requires
        is_interval(interval),
    ensures
        brought_into(bits, clamped(bits, interval), interval),
        lies_in(clamped(bits, interval), interval),
        clamped(clamped(bits, interval), interval) == clamped(bits, interval),
{
    lemma_rank(bits, interval.low);
    lemma_rank(bits, interval.high);
    lemma_rank(interval.low, bits);
    lemma_rank(interval.high, bits);
    lemma_rank(interval.low, interval.high);
    lemma_rank(interval.high, interval.low);
    lemma_rank(clamped(bits, interval), interval.high);
    lemma_rank(clamped(bits, interval), interval.low);
    lemma_rank(interval.low, clamped(bits, interval));
    lemma_rank(interval.high, clamped(bits, interval));
}

/// Every number is brought into the interval at its own place, and numbers without one stay.
pub proof fn lemma_all_brought_into(values: Seq<u32>, intervals: Seq<Interval>)
    requires
        forall|i: int| 0 <= i < intervals.len() ==> is_interval(#[trigger] intervals[i]),
    ensures
        all_clamped(values, intervals).len() == values.len(),
        forall|i: int|
            0 <= i < values.len() && i < intervals.len() ==> brought_into(
                values[i],
                #[trigger] all_clamped(values, intervals)[i],
                intervals[i],
            ) && lies_in(all_clamped(values, intervals)[i], intervals[i]),
        forall|i: int|
            intervals.len() <= i < values.len() ==> #[trigger] all_clamped(values, intervals)[i]
                == values[i],
        all_clamped(all_clamped(values, intervals), intervals) == all_clamped(values, intervals),
{
    let once = all_clamped(values, intervals);
    assert forall|i: int| 0 <= i < values.len() && i < intervals.len() implies brought_into(
        values[i],
        #[trigger] once[i],
        intervals[i],
    ) && lies_in(once[i], intervals[i]) by {
        lemma_brought_into(values[i], intervals[i]);
    }
    assert forall|i: int| 0 <= i < values.len() implies #[trigger] all_clamped(once, intervals)[i]
        == once[i] by {
        if i < intervals.len() {
            lemma_brought_into(values[i], intervals[i]);
        }
    }
    assert(all_clamped(once, intervals) =~= once);
}

/// The range of a function that has one of its own.
pub open spec fn own_range(f: FunctionModel) -> Option<Seq<Interval>> {
    match f {
        FunctionModel::Stitching { clamper, .. } => clamper.range,
        FunctionModel::Calculator(calculator) => calculator.clamper.range,
        _ => None,
    }
}

/// What a stitching or a calculator function gives lies in its range.
pub proof fn lemma_output_in_range(f: FunctionModel, input: Seq<u32>, results: Results)
    requires
        own_range(f) matches Some(range) ==> forall|i: int|
            0 <= i < range.len() ==> is_interval(#[trigger] range[i]),
    ensures
        value_of(f, input, results) matches Some(output) ==> (own_range(f) matches Some(range)
            ==> forall|i: int|
            0 <= i < output.len() && i < range.len() ==> lies_in(#[trigger] output[i], range[i])),
        f is Calculator ==> (value_of(f, input, results) matches Some(output) ==> (own_range(
            f,
        ) matches Some(range) ==> output.len() == range.len())),
{
    match f {
        FunctionModel::Stitching { functions, bounds, encode, clamper } => {
            if value_of(f, input, results) is Some && clamper.range is Some {
                let range = clamper.range->0;
                let x = clamped(input[0], clamper.domain[0]);
                let place = child_place(bounds, x, (functions.len() - 1) as nat);
                let inner = value_of(
                    functions[place],
                    seq![
                        crate::function::eval::child_input(
                            bounds,
                            encode,
                            place,
                            x,
                            results.affine,
                        ),
                    ],
                    results,
                )->0;
                lemma_all_brought_into(inner, range);
            }
        },
        FunctionModel::Calculator(calculator) => {
            if value_of(f, input, results) is Some && calculator.clamper.range is Some {
                let range = calculator.clamper.range->0;
                let inputs = all_clamped(input, calculator.clamper.domain);
                let stack = Seq::new(
                    inputs.len(),
                    |i: int| crate::function::argument::Argument::Float(inputs[i]),
                );
                let after = crate::function::evaluate::evaluated(
                    calculator.program,
                    0,
                    stack,
                    results.compute,
                )->0;
                let output = crate::function::eval::outputs_of(after, results.compute)->0;
                lemma_all_brought_into(output, range);
            }
        },
        _ => {},
    }
}

/// A stitching function gives what the child gives in whose interval the input lies, with the
/// input mapped to the encoding of the child, brought into the range. Inputs beyond the domain
/// stand for its ends. Inner intervals are closed below, and the last one at both ends.
pub proof fn lemma_stitching_value(
    functions: Seq<FunctionModel>,
    bounds: Seq<u32>,
    encode: Seq<Interval>,
    clamper: ClamperModel,
    input: u32,
    x: u32,
    place: int,
    results: Results,
)
    requires
        functions.len() > 0,
        bounds.len() == functions.len() + 1,
        encode.len() == functions.len(),
        clamper.domain.len() == 1,
        is_interval(clamper.domain[0]),
        forall|i: int, j: int|
            1 <= i < j < functions.len() ==> scaled(#[trigger] bounds[i]) < scaled(
                #[trigger] bounds[j],
            ),
        clamper.range matches Some(range) ==> forall|i: int|
            0 <= i < range.len() ==> is_interval(#[trigger] range[i]),
        finite(input),
        arity_of(functions[0]) is Some,
        brought_into(input, x, clamper.domain[0]),
        0 <= place < functions.len(),
        place == 0 || scaled(bounds[place]) <= scaled(x),
        place + 1 == functions.len() || scaled(x) < scaled(bounds[place + 1]),
    ensures
        ({
            let f = FunctionModel::Stitching { functions, bounds, encode, clamper };
            let encoded = if scaled(bounds[place]) == scaled(bounds[place + 1]) {
                encode[place].low
            } else {
                (results.affine)(
                    Affine {
                        x,
                        low: bounds[place],
                        high: bounds[place + 1],
                        start: encode[place].low,
                        end: encode[place].high,
                    },
                )
            };
            match value_of(functions[place], seq![encoded], results) {
                None => value_of(f, seq![input], results) is None,
                Some(inner) => {
                    &&& value_of(f, seq![input], results) matches Some(output)
                    &&& output.len() == inner.len()
                    &&& clamper.range is None ==> output == inner
                    &&& clamper.range matches Some(range) ==> forall|i: int|
                        0 <= i < output.len() && i < range.len() ==> brought_into(
                            inner[i],
                            #[trigger] output[i],
                            range[i],
                        )
                },
            }
        }),
{
    let f = FunctionModel::Stitching { functions, bounds, encode, clamper };
    lemma_brought_into(input, clamper.domain[0]);
    assert(clamped(input, clamper.domain[0]) == x);
    let n = functions.len();
    assert forall|i: int, j: int| 1 <= i < j < n implies rank(#[trigger] bounds[i]) < rank(
        #[trigger] bounds[j],
    ) by {
        lemma_rank(bounds[i], bounds[j]);
    }
    crate::function::eval::lemma_child_interval(bounds, x, n);
    let chosen = child_place(bounds, x, (n - 1) as nat);
    if chosen > 0 {
        lemma_rank(x, bounds[chosen]);
    }
    if chosen + 1 < n {
        lemma_rank(x, bounds[chosen + 1]);
    }
    assert(chosen == place) by {
        if chosen < place {
            lemma_rank(x, bounds[chosen + 1]);
            if chosen + 1 < place {
                assert(scaled(bounds[chosen + 1]) < scaled(bounds[place]));
            }
        } else if place < chosen {
            lemma_rank(x, bounds[place + 1]);
            if place + 1 < chosen {
                assert(scaled(bounds[place + 1]) < scaled(bounds[chosen]));
            }
        }
    }
    lemma_rank(bounds[place], bounds[place + 1]);
    let given = seq![input];
    assert(given[0] == input);
    assert(f->functions == functions);
    match clamper.range {
        Some(range) => {
            let encoded = crate::function::eval::child_input(
                bounds,
                encode,
                place,
                x,
                results.affine,
            );
            match value_of(functions[place], seq![encoded], results) {
                Some(inner) => {
                    lemma_all_brought_into(inner, range);
                },
                None => {},
            }
        },
        None => {},
    }
}

/// A function has no value for inputs that are not finite, nor for more or fewer inputs than it
/// declares.
pub proof fn lemma_no_value(f: FunctionModel, input: Seq<u32>, results: Results)
    ensures
        (exists|i: int| 0 <= i < input.len() && !finite(#[trigger] input[i])) ==> value_of(
            f,
            input,
            results,
        ) is None,
        (arity_of(f) matches Some((inputs, _)) && inputs != input.len()) ==> value_of(
            f,
            input,
            results,
        ) is None,
        (f matches FunctionModel::Calculator(c) && c.clamper.domain.len() != input.len())
            ==> value_of(f, input, results) is None,
{
}

/// A calculator sees its inputs brought into its domain: inputs that are the same there give the
/// same.
pub proof fn lemma_domain_clamped(
    f: Type4Model,
    input: Seq<u32>,
    other: Seq<u32>,
    compute: spec_fn(RealCall) -> u32,
)
    requires
        input.len() == f.clamper.domain.len(),
        other.len() == input.len(),
        forall|i: int| 0 <= i < input.len() ==> finite(#[trigger] input[i]),
        forall|i: int| 0 <= i < other.len() ==> finite(#[trigger] other[i]),
        forall|i: int|
            0 <= i < f.clamper.domain.len() ==> is_interval(#[trigger] f.clamper.domain[i]),
        forall|i: int|
            0 <= i < input.len() ==> brought_into(
                input[i],
                #[trigger] other[i],
                f.clamper.domain[i],
            ),
    ensures
        calculated(f, input, compute) == calculated(f, other, compute),
{
    let domain = f.clamper.domain;
    lemma_all_brought_into(input, domain);
    assert(all_clamped(input, domain) =~= other);
    assert(all_clamped(other, domain) =~= other);
}

/// The operands that a calculator leaves are its outputs in order: real ones as they are, whole
/// ones as real ones. A condition among them is no output.
pub proof fn lemma_operands_are_outputs(
    stack: Seq<crate::function::argument::Argument>,
    compute: spec_fn(RealCall) -> u32,
)
    ensures
        match crate::function::eval::outputs_of(stack, compute) {
            None => exists|i: int| 0 <= i < stack.len() && (#[trigger] stack[i]) is Bool,
            Some(output) => {
                &&& output.len() == stack.len()
                &&& forall|i: int|
                    0 <= i < stack.len() ==> !((#[trigger] stack[i]) is Bool) && (stack[i]
                        matches crate::function::argument::Argument::Float(bits) ==> output[i]
                        == bits) && (stack[i] is Integer ==> output[i] == compute(
                        RealCall::Unary(
                            crate::function::instruction::CalculatorInstruction::Cvr,
                            stack[i],
                        ),
                    ))
            },
        },
{
}

/// A number of a function's kind: sampled and exponential functions declare their numbers of
/// inputs and outputs, a stitching function has one input and the outputs of its children.
pub proof fn lemma_arity(f: FunctionModel)
    ensures
        match f {
            FunctionModel::Sampled(sampled) => arity_of(f) == Some(
                (sampled.sizes.len(), sampled.range.len()),
            ),
            FunctionModel::Exponential(exponential) => arity_of(f) == Some(
                (1nat, exponential.c0.len()),
            ),
            FunctionModel::Stitching { functions, .. } => arity_of(f) matches Some(arity) ==> {
                &&& arity.0 == 1
                &&& functions.len() > 0
                &&& arity_of(functions[0]) matches Some(child)
                &&& child.1 == arity.1
            },
            FunctionModel::Calculator(c) => match c.clamper.range {
                Some(range) => arity_of(f) == Some((c.clamper.domain.len(), range.len())),
                None => arity_of(f) is None,
            },
        },
{
}

} // verus!
