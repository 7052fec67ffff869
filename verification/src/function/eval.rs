//! Evaluating functions.
//!
//! Arithmetic on real numbers is the host's; numbers are given by their bits in single precision.

use crate::function::argument::{accepts, computes, Argument, RealCall};
use crate::function::definition::{
    arity_of, function_models, Function, FunctionModel, FunctionType, Type3, Type4, Type4Model,
};
use crate::function::evaluate::{eval_inner, evaluated, InterpreterStack};
use crate::function::instruction::CalculatorInstruction;
use crate::function::numeric::{all_clamped, clamp, clamped, Interval};
use crate::function::program::MAX_OPERANDS;
use crate::function::single::{finite, is_finite, rank, rank_of};
use crate::function::type0::{Type0, Type0Model};
use crate::function::type2::{Type2, Type2Model};
use vstd::prelude::*;

verus! {

/// The map of `x` that takes `low` to `start` and `high` to `end`.
#[derive(Debug, Clone, Copy, PartialEq, Eq, Structural)]
pub struct Affine {
    pub x: u32,
    pub low: u32,
    pub high: u32,
    pub start: u32,
    pub end: u32,
}

/// The arithmetic of a host.
pub struct Arithmetic<S, E, A, R> {
    /// Interpolate the samples of a function.
    pub sampled: S,
    /// Raise an input to the power of a function.
    pub exponential: E,
    /// Map a number.
    pub affine: A,
    /// Compute an operation of a calculator.
    pub compute: R,
}

/// What the arithmetic of a host computes.
pub struct Results {
    pub sampled: spec_fn(Type0Model, Seq<u32>) -> Option<Seq<u32>>,
    pub exponential: spec_fn(Type2Model, u32) -> Option<Seq<u32>>,
    pub affine: spec_fn(Affine) -> u32,
    pub compute: spec_fn(RealCall) -> u32,
}

/// An optional list as a sequence.
pub open spec fn list(values: Option<Vec<u32>>) -> Option<Seq<u32>> {
    match values {
        Some(values) => Some(values@),
        None => None,
    }
}

impl<
    S: Fn(&Type0, &Vec<u32>) -> Option<Vec<u32>>,
    E: Fn(&Type2, u32) -> Option<Vec<u32>>,
    A: Fn(Affine) -> u32,
    R: Fn(RealCall) -> u32,
> Arithmetic<S, E, A, R> {
    /// The arithmetic is defined for all inputs.
    pub open spec fn is_total(&self) -> bool {
        &&& forall|f: &Type0, input: &Vec<u32>| call_requires(self.sampled, (f, input))
        &&& forall|f: &Type2, x: u32| call_requires(self.exponential, (f, x))
        &&& forall|map: Affine| call_requires(self.affine, (map,))
        &&& accepts(self.compute)
    }

    /// The arithmetic computes the given results.
    pub open spec fn gives(&self, results: Results) -> bool {
        &&& forall|f: &Type0, input: &Vec<u32>, output: Option<Vec<u32>>| #[trigger]
            call_ensures(self.sampled, (f, input), output) ==> list(output) == (results.sampled)(
                f@,
                input@,
            )
        &&& forall|f: &Type2, x: u32, output: Option<Vec<u32>>| #[trigger]
            call_ensures(self.exponential, (f, x), output) ==> list(output) == (
            results.exponential)(f@, x)
        &&& forall|map: Affine, y: u32| #[trigger]
            call_ensures(self.affine, (map,), y) ==> y == (results.affine)(map)
        &&& computes(self.compute, results.compute)
    }
}

/// All numbers are finite.
pub open spec fn all_finite(values: Seq<u32>) -> bool {
    forall|i: int| 0 <= i < values.len() ==> finite(#[trigger] values[i])
}

/// Whether all numbers are finite.
pub fn are_finite(values: &Vec<u32>) -> (result: bool)
    ensures
        result == all_finite(values@),
{
    let mut i: usize = 0;
    while i < values.len()
        invariant
            i <= values@.len(),
            forall|k: int| 0 <= k < i ==> finite(#[trigger] values@[k]),
        decreases values@.len() - i,
    {
        if !is_finite(values[i]) {
            assert(!finite(values@[i as int]));
            return false;
        }
        i = i + 1;
    }
    true
}

/// An operand as a real number.
pub open spec fn output_value(a: Argument, compute: spec_fn(RealCall) -> u32) -> u32 {
    match a {
        Argument::Integer(_) => compute(RealCall::Unary(CalculatorInstruction::Cvr, a)),
        Argument::Float(bits) => bits,
        Argument::Bool(_) => 0,
    }
}

/// Operands as outputs, unless a condition is among them.
pub open spec fn outputs_of(
    stack: Seq<Argument>,
    compute: spec_fn(RealCall) -> u32,
) -> Option<Seq<u32>> {
    if exists|i: int| 0 <= i < stack.len() && (#[trigger] stack[i]) is Bool {
        None
    } else {
        Some(Seq::new(stack.len(), |i: int| output_value(stack[i], compute)))
    }
}

/// What a calculator function gives.
pub open spec fn calculated(
    f: Type4Model,
    input: Seq<u32>,
    compute: spec_fn(RealCall) -> u32,
) -> Option<Seq<u32>> {
    if input.len() != f.clamper.domain.len() || !all_finite(input) || input.len() > MAX_OPERANDS {
        None
    } else {
        let inputs = all_clamped(input, f.clamper.domain);
        let stack = Seq::new(inputs.len(), |i: int| Argument::Float(inputs[i]));
        if !all_finite(inputs) {
            None
        } else {
            match evaluated(f.program, 0, stack, compute) {
                None => None,
                Some(after) => match outputs_of(after, compute) {
                    None => None,
                    Some(output) => match f.clamper.range {
                        Some(range) => if range.len() != output.len() {
                            None
                        } else {
                            Some(all_clamped(output, range))
                        },
                        None => Some(output),
                    },
                },
            }
        }
    }
}

/// The number of inner bounds that are not above an input: the place of the child that it
/// belongs to.
pub open spec fn child_place(bounds: Seq<u32>, input: u32, count: nat) -> int
    decreases count,
{
    if count == 0 {
        0
    } else {
        child_place(bounds, input, (count - 1) as nat) + if rank(bounds[count as int]) <= rank(
            input,
        ) {
            1int
        } else {
            0int
        }
    }
}

/// The input of a child.
pub open spec fn child_input(
    bounds: Seq<u32>,
    encode: Seq<Interval>,
    place: int,
    input: u32,
    affine: spec_fn(Affine) -> u32,
) -> u32 {
    let map = encode[place];
    if rank(bounds[place]) == rank(bounds[place + 1]) {
        map.low
    } else {
        affine(
            Affine {
                x: input,
                low: bounds[place],
                high: bounds[place + 1],
                start: map.low,
                end: map.high,
            },
        )
    }
}

/// What a function gives.
pub open spec fn value_of(f: FunctionModel, input: Seq<u32>, results: Results) -> Option<Seq<u32>>
    decreases f,
{
    if !all_finite(input) || (arity_of(f) matches Some((count, _)) && count != input.len()) {
        None
    } else {
        match f {
            FunctionModel::Sampled(sampled) => (results.sampled)(sampled, input),
            FunctionModel::Exponential(exponential) => if input.len() == 0 {
                None
            } else {
                (results.exponential)(exponential, input[0])
            },
            FunctionModel::Stitching { functions, bounds, encode, clamper } => if input.len() == 0 {
                None
            } else {
                let x = clamped(input[0], clamper.domain[0]);
                let place = child_place(bounds, x, (functions.len() - 1) as nat);
                if 0 <= place < functions.len() {
                    match value_of(
                        functions[place],
                        seq![child_input(bounds, encode, place, x, results.affine)],
                        results,
                    ) {
                        None => None,
                        Some(output) => Some(
                            match clamper.range {
                                Some(range) => all_clamped(output, range),
                                None => output,
                            },
                        ),
                    }
                } else {
                    None
                }
            },
            FunctionModel::Calculator(calculator) => calculated(
                calculator,
                input,
                results.compute,
            ),
        }
    }
}

/// The parts of all stitching functions belong together.
pub open spec fn is_stitched(f: FunctionModel) -> bool
    decreases f,
{
    match f {
        FunctionModel::Stitching { functions, bounds, encode, clamper } => {
            &&& functions.len() > 0
            &&& bounds.len() == functions.len() + 1
            &&& encode.len() == functions.len()
            &&& clamper.domain.len() == 1
            &&& forall|i: int| 0 <= i < functions.len() ==> is_stitched(#[trigger] functions[i])
        },
        _ => true,
    }
}

/// Bounds that increase: the child whose interval an input is in is the last one that starts at
/// or below it.
pub proof fn lemma_child_interval(bounds: Seq<u32>, input: u32, children: nat)
    requires
        children >= 1,
        bounds.len() == children + 1,
        forall|i: int, j: int|
            1 <= i < j < children ==> rank(#[trigger] bounds[i]) < rank(#[trigger] bounds[j]),
    ensures
        ({
            let place = child_place(bounds, input, (children - 1) as nat);
            &&& 0 <= place < children
            &&& place > 0 ==> rank(bounds[place]) <= rank(input)
            &&& place + 1 < children ==> rank(input) < rank(bounds[place + 1])
        }),
    decreases children,
{
    lemma_child_interval_prefix(bounds, input, (children - 1) as nat);
}

proof fn lemma_child_interval_prefix(bounds: Seq<u32>, input: u32, count: nat)
    requires
        count + 1 < bounds.len(),
        forall|i: int, j: int|
            1 <= i < j <= count ==> rank(#[trigger] bounds[i]) < rank(#[trigger] bounds[j]),
    ensures
        ({
            let place = child_place(bounds, input, count);
            &&& 0 <= place <= count
            &&& place > 0 ==> rank(bounds[place]) <= rank(input)
            &&& place < count ==> rank(input) < rank(bounds[place + 1])
        }),
    decreases count,
{
    if count > 0 {
        lemma_child_interval_prefix(bounds, input, (count - 1) as nat);
        let before = child_place(bounds, input, (count - 1) as nat);
        if before < count - 1 {
            let a = bounds[before + 1];
            let b = bounds[count as int];
            if before + 1 < count {
                assert(rank(bounds[before + 1]) < rank(bounds[count as int]));
            }
        }
    }
}

impl Type4 {
    /// Evaluate the function with the given input.
    pub fn eval<R: Fn(RealCall) -> u32>(&self, input: &Vec<u32>, compute: &R) -> (output: Option<
        Vec<u32>,
    >)
        requires
            accepts(*compute),
        ensures
            forall|r: spec_fn(RealCall) -> u32| #[trigger]
                computes(*compute, r) ==> list(output) == calculated(self@, input@, r),
    {
        if input.len() != self.clamper.domain.len() || !are_finite(input) || input.len()
            > MAX_OPERANDS {
            return None;
        }
        let inputs = self.clamper.clamp_input(input);
        if !are_finite(&inputs) {
            return None;
        }
        let mut stack: InterpreterStack = InterpreterStack::new();
        let ghost expected = Seq::new(inputs@.len(), |i: int| Argument::Float(inputs@[i]));
        let mut i: usize = 0;
        assert(stack@ =~= expected.take(0));
        while i < inputs.len()
            invariant
                i <= inputs@.len() <= MAX_OPERANDS,
                expected == Seq::new(inputs@.len(), |k: int| Argument::Float(inputs@[k])),
                all_finite(inputs@),
                stack@ == expected.take(i as int),
            decreases inputs@.len() - i,
        {
            let pushed = stack.push(Argument::Float(inputs[i]));
            assert(stack@ =~= expected.take(i + 1));
            i = i + 1;
        }
        assert(stack@ =~= expected);
        match eval_inner(&self.program, &mut stack, compute) {
            None => {
                return None;
            },
            Some(()) => {},
        }
        let items = stack.items();
        let ghost after = items@;
        let mut output: Vec<u32> = Vec::new();
        let mut k: usize = 0;
        while k < items.len()
            invariant
                k <= items@.len(),
                after == items@,
                accepts(*compute),
                output@.len() == k,
                forall|j: int| 0 <= j < k ==> !((#[trigger] after[j]) is Bool),
                forall|r: spec_fn(RealCall) -> u32| #[trigger]
                    computes(*compute, r) ==> forall|j: int|
                        0 <= j < k ==> #[trigger] output@[j] == output_value(after[j], r),
                forall|r: spec_fn(RealCall) -> u32| #[trigger]
                    computes(*compute, r) ==> calculated(self@, input@, r) == match outputs_of(
                        after,
                        r,
                    ) {
                        None => None,
                        Some(output) => match self@.clamper.range {
                            Some(range) => if range.len() != output.len() {
                                None
                            } else {
                                Some(all_clamped(output, range))
                            },
                            None => Some(output),
                        },
                    },
            decreases items@.len() - k,
        {
            match items[k] {
                Argument::Integer(_) => {
                    let value: u32 = compute(
                        RealCall::Unary(CalculatorInstruction::Cvr, items[k]),
                    );
                    output.push(value);
                },
                Argument::Float(bits) => {
                    output.push(bits);
                },
                Argument::Bool(_) => {
                    assert(after[k as int] is Bool);
                    return None;
                },
            }
            k = k + 1;
        }
        proof {
            assert forall|r: spec_fn(RealCall) -> u32| #[trigger]
                computes(*compute, r) implies outputs_of(after, r) == Some(output@) by {
                assert(output@ =~= Seq::new(after.len(), |j: int| output_value(after[j], r)));
            }
        }
        match &self.clamper.range {
            Some(range) => {
                if range.len() != output.len() {
                    return None;
                }
            },
            None => {},
        }
        Some(self.clamper.clamp_output(output))
    }
}

impl Type3 {
    /// The place of the child that an input of the domain belongs to.
    ///
    /// Inner intervals are closed on the left. The last interval is closed at both ends,
    /// including the permitted singleton at the high end of the domain.
    pub fn child(&self, input: u32) -> (place: usize)
        requires
            self.functions@.len() > 0,
            self.bounds@.len() == self.functions@.len() + 1,
        ensures
            place == child_place(self.bounds@, input, (self.functions@.len() - 1) as nat),
            place < self.functions@.len(),
    {
        let mut place: usize = 0;
        let mut i: usize = 0;
        while i < self.functions.len() - 1
            invariant
                i < self.functions@.len(),
                self.bounds@.len() == self.functions@.len() + 1,
                place <= i,
                place == child_place(self.bounds@, input, i as nat),
            decreases self.functions@.len() - i,
        {
            if rank_of(self.bounds[i + 1]) <= rank_of(input) {
                place = place + 1;
            }
            i = i + 1;
        }
        place
    }
}

impl Function {
    /// Evaluate the function with the given input.
    pub fn eval<
        S: Fn(&Type0, &Vec<u32>) -> Option<Vec<u32>>,
        E: Fn(&Type2, u32) -> Option<Vec<u32>>,
        A: Fn(Affine) -> u32,
        R: Fn(RealCall) -> u32,
    >(&self, input: &Vec<u32>, arithmetic: &Arithmetic<S, E, A, R>) -> (output: Option<Vec<u32>>)
        requires
            arithmetic.is_total(),
            is_stitched(self@),
        ensures
            forall|results: Results| #[trigger]
                arithmetic.gives(results) ==> list(output) == value_of(self@, input@, results),
        decreases *self,
    {
        if !are_finite(input) {
            return None;
        }
        match self.arity() {
            Some((count, _)) => {
                if count != input.len() {
                    return None;
                }
            },
            None => {},
        }
        match &self.0 {
            FunctionType::Type0(sampled) => (arithmetic.sampled)(sampled, input),
            FunctionType::Type2(exponential) => {
                if input.len() == 0 {
                    None
                } else {
                    (arithmetic.exponential)(exponential, input[0])
                }
            },
            FunctionType::Type3(stitching) => {
                if input.len() == 0 {
                    return None;
                }
                let ghost models = function_models(stitching.functions@);
                proof {
                    crate::function::definition::lemma_stitching_model(*stitching);
                    assert(self@->functions == models);
                }
                let x: u32 = clamp(input[0], stitching.clamper.domain[0]);
                let place: usize = stitching.child(x);
                let last: usize = stitching.bounds.len() - 1;
                assert(place < last);
                let low: u32 = stitching.bounds[place];
                let high: u32 = stitching.bounds[place + 1];
                let map = stitching.encode[place];
                let encoded: u32 = if rank_of(low) == rank_of(high) {
                    map.low
                } else {
                    (arithmetic.affine)(
                        Affine { x, low, high, start: map.low, end: map.high },
                    )
                };
                let mut inner: Vec<u32> = Vec::new();
                inner.push(encoded);
                assert(inner@ =~= seq![encoded]);
                assert(models[place as int] == stitching.functions@[place as int]@);
                assert(decreases_to!(*self => stitching.functions@[place as int]));
                match stitching.functions[place].eval(&inner, arithmetic) {
                    None => None,
                    Some(output) => Some(stitching.clamper.clamp_output(output)),
                }
            },
            FunctionType::Type4(calculator) => calculator.eval(input, &arithmetic.compute),
        }
    }
}

} // verus!
