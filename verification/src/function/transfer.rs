//! Transfer functions.

use crate::function::argument::RealCall;
use crate::function::definition::{arity_of, Function, FunctionModel};
use crate::function::eval::{is_stitched, value_of, Affine, Arithmetic, Results};
use crate::function::numeric::{clamp, clamped, Interval};
use crate::function::single::{finite, is_finite, rank, rank_of};
use crate::function::type0::Type0;
use crate::function::type2::Type2;
use crate::object::{Dict, Document, Object};
use vstd::prelude::*;

verus! {

/// The bits of one.
pub const ONE: u32 = 0x3F80_0000;

/// A value that a key leads to, unless it is null.
pub open spec fn non_null(doc: Document, dict: Dict, key: Seq<char>) -> Option<Object> {
    match doc.value(dict, key) {
        Some(Object::Null) => None,
        value => value,
    }
}

/// The entry of a graphics state that holds its transfer function.
pub open spec fn selected_transfer(doc: Document, dict: Dict) -> Option<(Seq<char>, Object)> {
    match (non_null(doc, dict, "TR2"@), non_null(doc, dict, "TR"@)) {
        (Some(object), _) => Some(("TR2"@, object)),
        (None, Some(object)) => Some(("TR"@, object)),
        (None, None) => None,
    }
}

/// Select the effective graphics-state transfer entry.
///
/// Null and undefined optional dictionary entries are absent; a non-null TR2 takes precedence.
pub fn selected_transfer_function<'a>(doc: &'a Document, dict: &'a Dict) -> (selected: Option<
    (&'static str, &'a Object),
>)
    ensures
        match selected_transfer(*doc, *dict) {
            None => selected is None,
            Some((key, object)) => selected matches Some((given, value)) && given@ == key && *value
                == object,
        },
{
    match doc.lookup(dict, "TR2") {
        Some(object) => match object {
            Object::Null => {},
            _ => {
                return Some(("TR2", object));
            },
        },
        None => {},
    }
    match doc.lookup(dict, "TR") {
        Some(object) => match object {
            Object::Null => None,
            _ => Some(("TR", object)),
        },
        None => None,
    }
}

/// How a host turns bytes into numbers from zero to one, and such numbers into bytes.
pub struct Quantization<U, B> {
    pub unit: U,
    pub byte: B,
}

/// How bytes turn into numbers from zero to one, and such numbers into bytes.
pub struct QuantizationResults {
    pub unit: spec_fn(u8) -> u32,
    pub byte: spec_fn(u32) -> u8,
}

impl<U: Fn(u8) -> u32, B: Fn(u32) -> u8> Quantization<U, B> {
    /// All bytes and numbers can be turned.
    pub open spec fn is_total(&self) -> bool {
        &&& forall|index: u8| call_requires(self.unit, (index,))
        &&& forall|bits: u32| call_requires(self.byte, (bits,))
    }

    /// Bytes and numbers are turned in a given way.
    pub open spec fn gives(&self, results: QuantizationResults) -> bool {
        &&& forall|index: u8, bits: u32| #[trigger]
            call_ensures(self.unit, (index,), bits) ==> bits == (results.unit)(index)
        &&& forall|bits: u32, byte: u8| #[trigger]
            call_ensures(self.byte, (bits,), byte) ==> byte == (results.byte)(bits)
    }
}

/// A one-input, one-output transfer function with an exact byte-input table.
#[derive(Debug)]
pub struct TransferFunction {
    pub function: Option<Function>,
    pub samples: Vec<u8>,
    pub clamp_output: bool,
}

/// What a function transfers a number to.
///
/// An output beyond zero and one is brought into the interval, or rejected.
pub open spec fn transferred(
    f: FunctionModel,
    value: u32,
    clamp_output: bool,
    results: Results,
) -> Option<u32> {
    match value_of(f, seq![value], results) {
        None => None,
        Some(output) => if output.len() != 1 || !finite(output[0]) {
            None
        } else if clamp_output {
            Some(clamped(output[0], Interval { low: 0, high: ONE }))
        } else if rank(0) <= rank(output[0]) <= rank(ONE) {
            Some(output[0])
        } else {
            None
        },
    }
}

/// The sample of a transfer function for a byte.
pub open spec fn sample_of(
    f: FunctionModel,
    index: u8,
    clamp_output: bool,
    results: Results,
    quantized: QuantizationResults,
) -> Option<u8> {
    match transferred(f, (quantized.unit)(index), clamp_output, results) {
        None => None,
        Some(output) => Some((quantized.byte)(output)),
    }
}

/// A function can be a transfer function.
pub open spec fn is_transfer(
    f: FunctionModel,
    clamp_output: bool,
    results: Results,
    quantized: QuantizationResults,
) -> bool {
    &&& arity_of(f) == Some((1nat, 1nat))
    &&& forall|index: u8| #[trigger]
        sample_of(f, index, clamp_output, results, quantized) is Some
}

/// Evaluate a function for a transfer.
fn evaluate<
    S: Fn(&Type0, &Vec<u32>) -> Option<Vec<u32>>,
    E: Fn(&Type2, u32) -> Option<Vec<u32>>,
    A: Fn(Affine) -> u32,
    R: Fn(RealCall) -> u32,
>(
    function: &Function,
    value: u32,
    clamp_output: bool,
    arithmetic: &Arithmetic<S, E, A, R>,
) -> (output: Option<u32>)
    requires
        arithmetic.is_total(),
        is_stitched(function@),
    ensures
        forall|results: Results| #[trigger]
            arithmetic.gives(results) ==> output == transferred(
                function@,
                value,
                clamp_output,
                results,
            ),
{
    let mut input: Vec<u32> = Vec::new();
    input.push(value);
    assert(input@ =~= seq![value]);
    match function.eval(&input, arithmetic) {
        None => None,
        Some(result) => {
            if result.len() != 1 {
                return None;
            }
            let output: u32 = result[0];
            if !is_finite(output) {
                return None;
            }
            if clamp_output {
                Some(clamp(output, Interval { low: 0, high: ONE }))
            } else if rank_of(0) <= rank_of(output) && rank_of(output) <= rank_of(ONE) {
                Some(output)
            } else {
                None
            }
        },
    }
}

impl TransferFunction {
    /// There is a sample for every byte, and the parts of the function belong together.
    pub open spec fn wf(&self) -> bool {
        &&& self.samples@.len() == 256
        &&& self.function matches Some(f) ==> is_stitched(f@)
    }

    /// A transfer function. Outputs beyond zero and one are rejected.
    pub fn new<
        S: Fn(&Type0, &Vec<u32>) -> Option<Vec<u32>>,
        E: Fn(&Type2, u32) -> Option<Vec<u32>>,
        A: Fn(Affine) -> u32,
        R: Fn(RealCall) -> u32,
        U: Fn(u8) -> u32,
        B: Fn(u32) -> u8,
    >(
        function: Function,
        arithmetic: &Arithmetic<S, E, A, R>,
        quantization: &Quantization<U, B>,
    ) -> (transfer: Option<Self>)
        requires
            arithmetic.is_total(),
            quantization.is_total(),
            is_stitched(function@),
        ensures
            transfer matches Some(transfer) ==> transfer.wf(),
            forall|results: Results, quantized: QuantizationResults| #[trigger]
                arithmetic.gives(results) && #[trigger] quantization.gives(quantized)
                    ==> transfer_result(transfer, function, false, results, quantized),
    {
        Self::new_with_output_policy(function, false, arithmetic, quantization)
    }

    /// The transfer function of a soft mask. Outputs are brought to the unit interval.
    pub fn new_soft_mask<
        S: Fn(&Type0, &Vec<u32>) -> Option<Vec<u32>>,
        E: Fn(&Type2, u32) -> Option<Vec<u32>>,
        A: Fn(Affine) -> u32,
        R: Fn(RealCall) -> u32,
        U: Fn(u8) -> u32,
        B: Fn(u32) -> u8,
    >(
        function: Function,
        arithmetic: &Arithmetic<S, E, A, R>,
        quantization: &Quantization<U, B>,
    ) -> (transfer: Option<Self>)
        requires
            arithmetic.is_total(),
            quantization.is_total(),
            is_stitched(function@),
        ensures
            transfer matches Some(transfer) ==> transfer.wf(),
            forall|results: Results, quantized: QuantizationResults| #[trigger]
                arithmetic.gives(results) && #[trigger] quantization.gives(quantized)
                    ==> transfer_result(transfer, function, true, results, quantized),
    {
        Self::new_with_output_policy(function, true, arithmetic, quantization)
    }

    fn new_with_output_policy<
        S: Fn(&Type0, &Vec<u32>) -> Option<Vec<u32>>,
        E: Fn(&Type2, u32) -> Option<Vec<u32>>,
        A: Fn(Affine) -> u32,
        R: Fn(RealCall) -> u32,
        U: Fn(u8) -> u32,
        B: Fn(u32) -> u8,
    >(
        function: Function,
        clamp_output: bool,
        arithmetic: &Arithmetic<S, E, A, R>,
        quantization: &Quantization<U, B>,
    ) -> (transfer: Option<Self>)
        requires
            arithmetic.is_total(),
            quantization.is_total(),
            is_stitched(function@),
        ensures
            transfer matches Some(transfer) ==> transfer.wf(),
            forall|results: Results, quantized: QuantizationResults| #[trigger]
                arithmetic.gives(results) && #[trigger] quantization.gives(quantized)
                    ==> transfer_result(transfer, function, clamp_output, results, quantized),
    {
        match function.arity() {
            Some((inputs, outputs)) => {
                if inputs != 1 || outputs != 1 {
                    return None;
                }
            },
            None => {
                return None;
            },
        }
        let mut samples: Vec<u8> = Vec::new();
        let mut i: usize = 0;
        while i < 256
            invariant
                i <= 256,
                samples@.len() == i,
                arithmetic.is_total(),
                quantization.is_total(),
                is_stitched(function@),
                arity_of(function@) == Some((1nat, 1nat)),
                forall|results: Results, quantized: QuantizationResults| #[trigger]
                    arithmetic.gives(results) && #[trigger] quantization.gives(quantized)
                        ==> forall|index: u8|
                        index < i ==> #[trigger] sample_of(
                            function@,
                            index,
                            clamp_output,
                            results,
                            quantized,
                        ) == Some(samples@[index as int]),
            decreases 256 - i,
        {
            let index: u8 = i as u8;
            let value: u32 = (quantization.unit)(index);
            match evaluate(&function, value, clamp_output, arithmetic) {
                None => {
                    assert forall|results: Results, quantized: QuantizationResults| #[trigger]
                        arithmetic.gives(results) && #[trigger] quantization.gives(
                            quantized,
                        ) implies !is_transfer(function@, clamp_output, results, quantized) by {
                        assert(sample_of(function@, index, clamp_output, results, quantized) is None);
                    }
                    return None;
                },
                Some(output) => {
                    let sample: u8 = (quantization.byte)(output);
                    samples.push(sample);
                },
            }
            i = i + 1;
        }
        Some(TransferFunction { function: Some(function), samples, clamp_output })
    }

    /// The transfer function that changes nothing.
    pub fn identity() -> (transfer: Self)
        ensures
            transfer.wf(),
            transfer.function is None,
            !transfer.clamp_output,
            forall|index: u8| #[trigger] transfer.samples@[index as int] == index,
    {
        let mut samples: Vec<u8> = Vec::new();
        let mut i: usize = 0;
        while i < 256
            invariant
                i <= 256,
                samples@.len() == i,
                forall|index: u8| index < i ==> #[trigger] samples@[index as int] == index,
            decreases 256 - i,
        {
            samples.push(i as u8);
            i = i + 1;
        }
        TransferFunction { function: None, samples, clamp_output: false }
    }

    /// Apply to components that have already been represented as bytes.
    pub fn apply_to(&self, values: &mut Vec<u8>)
        requires
            self.wf(),
        ensures
            final(values)@.len() == old(values)@.len(),
            forall|i: int|
                0 <= i < old(values)@.len() ==> #[trigger] final(values)@[i]
                    == self.samples@[old(values)@[i] as int],
    {
        self.apply_to_stride(values, 1);
        assert forall|i: int| 0 <= i < old(values)@.len() implies #[trigger] values@[i]
            == self.samples@[old(values)@[i] as int] by {
            assert(i % 1 == 0);
        }
    }

    /// Apply to every component at a multiple of a stride.
    pub fn apply_to_stride(&self, values: &mut Vec<u8>, stride: usize)
        requires
            self.wf(),
            stride > 0,
        ensures
            final(values)@.len() == old(values)@.len(),
            forall|i: int|
                0 <= i < old(values)@.len() ==> #[trigger] final(values)@[i] == if i % (
                stride as int) == 0 {
                    self.samples@[old(values)@[i] as int]
                } else {
                    old(values)@[i]
                },
    {
        let mut i: usize = 0;
        let count: usize = values.len();
        let mut wait: usize = 0;
        proof {
            vstd::arithmetic::div_mod::lemma_small_mod(0, stride as nat);
        }
        while i < count
            invariant
                i <= count == values@.len() == old(values)@.len(),
                self.wf(),
                stride > 0,
                wait < stride,
                (i + wait) % (stride as int) == 0,
                forall|k: int|
                    0 <= k < count ==> #[trigger] values@[k] == if k < i && k % (stride as int)
                        == 0 {
                        self.samples@[old(values)@[k] as int]
                    } else {
                        old(values)@[k]
                    },
            decreases count - i,
        {
            if wait == 0 {
                let value: u8 = values[i];
                assert(value == old(values)@[i as int]);
                values.set(i, self.samples[value as usize]);
                proof {
                    vstd::arithmetic::div_mod::lemma_mod_add_multiples_vanish(
                        i as int,
                        stride as int,
                    );
                }
                assert((i + stride) % (stride as int) == 0);
                wait = stride - 1;
            } else {
                proof {
                    lemma_between_multiples(i as int, wait as int, stride as int);
                }
                wait = wait - 1;
            }
            i = i + 1;
        }
    }

    /// Transfer a number.
    ///
    /// Sampling a byte table first would move discontinuities, and could amplify quantization
    /// through nonlinear functions.
    pub fn apply_f32<
        S: Fn(&Type0, &Vec<u32>) -> Option<Vec<u32>>,
        E: Fn(&Type2, u32) -> Option<Vec<u32>>,
        A: Fn(Affine) -> u32,
        R: Fn(RealCall) -> u32,
    >(&self, value: u32, arithmetic: &Arithmetic<S, E, A, R>) -> (output: Option<u32>)
        requires
            self.wf(),
            arithmetic.is_total(),
        ensures
            forall|results: Results| #[trigger]
                arithmetic.gives(results) ==> output == applied(*self, value, results),
            self.function is None ==> output == (if finite(value) {
                Some(clamped(value, Interval { low: 0, high: ONE }))
            } else {
                None
            }),
    {
        if !is_finite(value) {
            return None;
        }
        let value: u32 = clamp(value, Interval { low: 0, high: ONE });
        match &self.function {
            None => Some(value),
            Some(function) => evaluate(function, value, self.clamp_output, arithmetic),
        }
    }
}

/// What a transfer function makes of a number.
pub open spec fn applied(transfer: TransferFunction, value: u32, results: Results) -> Option<u32> {
    let inside = clamped(value, Interval { low: 0, high: ONE });
    if !finite(value) {
        None
    } else {
        match transfer.function {
            None => Some(inside),
            Some(f) => transferred(f@, inside, transfer.clamp_output, results),
        }
    }
}

/// The transfer function of a function, if it can be one.
pub open spec fn transfer_result(
    transfer: Option<TransferFunction>,
    function: Function,
    clamp_output: bool,
    results: Results,
    quantized: QuantizationResults,
) -> bool {
    match transfer {
        None => !is_transfer(function@, clamp_output, results, quantized),
        Some(transfer) => {
            &&& is_transfer(function@, clamp_output, results, quantized)
            &&& transfer.function == Some(function)
            &&& transfer.clamp_output == clamp_output
            &&& forall|index: u8| #[trigger]
                sample_of(function@, index, clamp_output, results, quantized) == Some(
                    transfer.samples@[index as int],
                )
        },
    }
}

proof fn lemma_between_multiples(i: int, wait: int, stride: int)
    requires
        0 < wait < stride,
        (i + wait) % stride == 0,
    ensures
        i % stride != 0,
{
    vstd::arithmetic::div_mod::lemma_fundamental_div_mod(i, stride);
    vstd::arithmetic::div_mod::lemma_fundamental_div_mod(i + wait, stride);
    let a = i / stride;
    let b = (i + wait) / stride;
    if i % stride == 0 {
        assert(wait == stride * b - stride * a);
        assert(stride * b - stride * a == stride * (b - a)) by (nonlinear_arith);
        assert(stride * (b - a) <= 0 || stride * (b - a) >= stride) by (nonlinear_arith)
            requires
                stride > 0,
        ;
    }
}

/// Applying a transfer function to a number gives a number from zero to one.
pub proof fn lemma_applied_unit(transfer: TransferFunction, value: u32, results: Results)
    ensures
        applied(transfer, value, results) matches Some(output) ==> rank(0) <= rank(output) <= rank(
            ONE,
        ),
{
    assert(rank(0) <= rank(ONE));
}

/// A host turns bytes into finite numbers from zero to one.
pub open spec fn has_units(quantized: QuantizationResults) -> bool {
    forall|index: u8|
        {
            let unit = #[trigger] (quantized.unit)(index);
            finite(unit) && rank(0) <= rank(unit) <= rank(ONE)
        }
}

/// What a transfer function makes of a byte is the byte of what it makes of the number that the
/// byte stands for.
pub proof fn lemma_bytes_follow_numbers(
    transfer: TransferFunction,
    function: Function,
    results: Results,
    quantized: QuantizationResults,
    value: u8,
)
    requires
        has_units(quantized),
        transfer_result(Some(transfer), function, transfer.clamp_output, results, quantized),
    ensures
        applied(transfer, (quantized.unit)(value), results) matches Some(output)
            && transfer.samples@[value as int] == (quantized.byte)(output),
{
    let unit = (quantized.unit)(value);
    assert(finite(unit));
    assert(sample_of(function@, value, transfer.clamp_output, results, quantized) == Some(
        transfer.samples@[value as int],
    ));
}

} // verus!
