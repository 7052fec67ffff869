//! The validated data of functions.

use crate::function::definition::{
    are_children_at, dict_and_stream, function_models, is_function, is_function_at,
    is_stitching_at, lemma_stitching_model, program_result, stitching_of, with_child,
    CalculatorFunction, Function, FunctionModel, FunctionType, Judgements, Read, ReadAll,
    MAX_FUNCTIONS,
};
use crate::function::eval::is_stitched;
use crate::function::flatten::flattened;
use crate::function::numeric::{array_objects, clamper_of, Interval};
use crate::function::program::outcome;
use crate::object::{Dict, Document, Object};
use vstd::arithmetic::power2::{lemma2_to64, lemma_pow2_unfold, pow2};
use vstd::prelude::*;
use vstd::slice::slice_subrange;

verus! {

/// Validated function data for retained execution and cache serialization.
///
/// Sample tables and stitching children are borrowed to let a caller check its own resource
/// budget before copying them.
#[derive(Debug)]
#[non_exhaustive]
pub enum FunctionDefinition<'a> {
    /// A sampled function.
    Sampled {
        /// Number of samples along each input dimension.
        sizes: &'a Vec<usize>,
        /// Exact unsigned samples. Outputs are adjacent; the first input dimension varies
        /// fastest among multidimensional table indices.
        samples: &'a Vec<u32>,
        /// Largest sample value for the declared number of bits.
        sample_maximum: u32,
        /// Declared interpolation order, 1 or 3. Dimensions smaller than four samples ignore
        /// cubic order.
        order: u8,
        /// Inclusive input clamps.
        domain: &'a Vec<Interval>,
        /// Inclusive output clamps.
        range: &'a Vec<Interval>,
        /// Input-to-table-coordinate maps.
        encode: &'a Vec<Interval>,
        /// Sample-to-output maps, before the range clamps.
        decode: &'a Vec<Interval>,
    },
    /// An exponential function.
    Exponential {
        /// Inclusive scalar input clamp.
        domain: Interval,
        /// Optional inclusive output clamps.
        range: Option<&'a Vec<Interval>>,
        /// Output constants at power zero.
        c0: &'a Vec<u32>,
        /// Output constants at power one.
        c1: &'a Vec<u32>,
        /// The bits of the exponent in double precision.
        exponent: u64,
        /// Exact odd-integer parity for negative inputs.
        odd_integer_exponent: bool,
    },
    /// A stitching function.
    Stitching {
        /// Inclusive scalar input clamp.
        domain: Interval,
        /// Optional inclusive output clamps, applied after the child function.
        range: Option<&'a Vec<Interval>>,
        /// Ordered children. Their own domain and range remain significant.
        functions: &'a Vec<Function>,
        /// Internal interval boundaries. A boundary belongs to the later child, including a
        /// singleton final interval at the high end of the domain.
        bounds: &'a [u32],
        /// One input encoding pair for each child.
        encode: &'a Vec<Interval>,
    },
    /// An owned, bounded program with typed instructions and clamps.
    Calculator(CalculatorFunction),
}

/// The parts of a function belong together.
pub open spec fn is_whole_function(f: FunctionModel) -> bool {
    &&& is_stitched(f)
    &&& match f {
        FunctionModel::Sampled(sampled) => sampled.bits <= 32,
        FunctionModel::Exponential(exponential) => exponential.clamper.domain.len() > 0,
        _ => true,
    }
}

/// An optional list of intervals is the given one.
pub open spec fn same_intervals(given: Option<&Vec<Interval>>, expected: Option<Seq<Interval>>) -> bool {
    match expected {
        Some(expected) => given matches Some(given) && given@ == expected,
        None => given is None,
    }
}

/// The data of a function are the given ones.
pub open spec fn defines_function(definition: FunctionDefinition, f: FunctionModel) -> bool {
    match f {
        FunctionModel::Sampled(sampled) => definition matches FunctionDefinition::Sampled {
            sizes,
            samples,
            sample_maximum,
            order,
            domain,
            range,
            encode,
            decode,
        } && sizes@ == sampled.sizes && samples@ == sampled.table && sample_maximum == pow2(
            sampled.bits as nat,
        ) - 1 && order == (if sampled.cubic {
            3u8
        } else {
            1u8
        }) && domain@ == sampled.domain && range@ == sampled.range && encode@ == sampled.encode
            && decode@ == sampled.decode,
        FunctionModel::Exponential(exponential) => definition matches FunctionDefinition::Exponential {
            domain,
            range,
            c0,
            c1,
            exponent,
            odd_integer_exponent,
        } && domain == exponential.clamper.domain[0] && same_intervals(
            range,
            exponential.clamper.range,
        ) && c0@ == exponential.c0 && c1@ == exponential.c1 && exponent == exponential.exponent
            && odd_integer_exponent == exponential.odd,
        FunctionModel::Stitching { functions: children, bounds: all, encode: maps, clamper } => {
            definition matches FunctionDefinition::Stitching {
                domain,
                range,
                functions,
                bounds,
                encode,
            } && domain == clamper.domain[0] && same_intervals(range, clamper.range)
                && function_models(functions@) == children && bounds@ == all.subrange(
                1,
                all.len() - 1,
            ) && encode@ == maps
        },
        FunctionModel::Calculator(calculator) => definition matches FunctionDefinition::Calculator(
            program,
        ) && program_result(Some(program), calculator),
    }
}

/// The greatest sample of a number of bits.
fn greatest_sample(bits: u8) -> (greatest: u32)
    requires
        bits <= 32,
    ensures
        greatest == pow2(bits as nat) - 1,
{
    let mut greatest: u64 = 0;
    let mut i: u8 = 0;
    proof {
        lemma2_to64();
    }
    while i < bits
        invariant
            i <= bits <= 32,
            greatest == pow2(i as nat) - 1,
            pow2(32) == 0x1_0000_0000,
            greatest <= 0xFFFF_FFFF,
        decreases bits - i,
    {
        proof {
            lemma_pow2_unfold((i + 1) as nat);
            if i + 1 < 32 {
                vstd::arithmetic::power2::lemma_pow2_strictly_increases((i + 1) as nat, 32);
            }
        }
        greatest = 2 * greatest + 1;
        i = i + 1;
    }
    greatest as u32
}

impl Function {
    /// The complete validated data needed for owned retained execution.
    ///
    /// Unlike a byte lookup table, this preserves real-input discontinuities and the original
    /// sample precision. There are none of a calculator function that cannot expose a bounded
    /// typed program.
    pub fn definition<'a>(&'a self) -> (definition: Option<FunctionDefinition<'a>>)
        requires
            is_whole_function(self@),
        ensures
            match definition {
                Some(definition) => defines_function(definition, self@),
                None => self@ matches FunctionModel::Calculator(calculator) && flattened(
                    calculator.program,
                ) is None,
            },
    {
        match &self.0 {
            FunctionType::Type0(sampled) => {
                let bits: u8 = sampled.bits;
                let sample_maximum: u32 = greatest_sample(bits);
                Some(
                    FunctionDefinition::Sampled {
                        sizes: &sampled.sizes,
                        samples: &sampled.table,
                        sample_maximum,
                        order: if sampled.cubic {
                            3
                        } else {
                            1
                        },
                        domain: &sampled.domain,
                        range: &sampled.range,
                        encode: &sampled.encode,
                        decode: &sampled.decode,
                    },
                )
            },
            FunctionType::Type2(exponential) => Some(
                FunctionDefinition::Exponential {
                    domain: exponential.clamper.domain[0],
                    range: match &exponential.clamper.range {
                        Some(range) => Some(range),
                        None => None,
                    },
                    c0: &exponential.c0,
                    c1: &exponential.c1,
                    exponent: exponential.exponent,
                    odd_integer_exponent: exponential.odd,
                },
            ),
            FunctionType::Type3(stitching) => {
                proof {
                    lemma_stitching_model(*stitching);
                }
                let last: usize = stitching.bounds.len() - 1;
                Some(
                    FunctionDefinition::Stitching {
                        domain: stitching.clamper.domain[0],
                        range: match &stitching.clamper.range {
                            Some(range) => Some(range),
                            None => None,
                        },
                        functions: &stitching.functions,
                        bounds: slice_subrange(stitching.bounds.as_slice(), 1, last),
                        encode: &stitching.encode,
                    },
                )
            },
            FunctionType::Type4(calculator) => match calculator.calculator_function() {
                Some(program) => Some(FunctionDefinition::Calculator(program)),
                None => None,
            },
        }
    }
}

proof fn lemma_children_whole(
    doc: Document,
    children: Seq<Object>,
    depth: int,
    remaining: int,
    host: Judgements,
    count: nat,
    read: ReadAll,
)
    requires
        are_children_at(doc, children, depth, remaining, host, count, Some(read)),
    ensures
        forall|i: int|
            0 <= i < read.functions.len() ==> is_stitched(#[trigger] read.functions[i]),
    decreases 33 - depth, 3nat, count,
{
    if count > 0 {
        let before = choose|before: Option<ReadAll>|
            {
                &&& #[trigger] outcome(before)
                &&& are_children_at(
                    doc,
                    children,
                    depth,
                    remaining,
                    host,
                    (count - 1) as nat,
                    before,
                )
                &&& before matches Some(before)
                &&& exists|child: Option<Read>|
                    {
                        &&& #[trigger] outcome(child)
                        &&& is_function_at(
                            doc,
                            children[count - 1],
                            depth,
                            before.remaining,
                            host,
                            child,
                        )
                        &&& Some(read) == with_child(before, child)
                    }
            };
        let before = before->0;
        let child = choose|child: Option<Read>|
            {
                &&& #[trigger] outcome(child)
                &&& is_function_at(
                    doc,
                    children[count - 1],
                    depth,
                    before.remaining,
                    host,
                    child,
                )
                &&& Some(read) == with_child(before, child)
            };
        lemma_children_whole(doc, children, depth, remaining, host, (count - 1) as nat, before);
        lemma_function_whole_at(
            doc,
            children[count - 1],
            depth,
            before.remaining,
            host,
            child->0,
        );
    }
}

proof fn lemma_stitching_whole(
    doc: Document,
    dict: Dict,
    depth: int,
    remaining: int,
    host: Judgements,
    read: Read,
)
    requires
        is_stitching_at(doc, dict, depth, remaining, host, Some(read)),
    ensures
        is_whole_function(read.function),
    decreases 33 - depth, 1nat, 0nat,
{
    let clamper = clamper_of(doc, dict)->0;
    let children = array_objects(doc, dict, "Functions"@, remaining)->0;
    let all = choose|all: Option<ReadAll>|
        {
            &&& #[trigger] outcome(all)
            &&& are_children_at(
                doc,
                children,
                depth + 1,
                remaining,
                host,
                children.len(),
                all,
            )
            &&& Some(read) == match all {
                Some(all) => stitching_of(doc, dict, clamper, all),
                None => None,
            }
        };
    lemma_children_whole(doc, children, depth + 1, remaining, host, children.len(), all->0);
}

proof fn lemma_function_whole_at(
    doc: Document,
    object: Object,
    depth: int,
    remaining: int,
    host: Judgements,
    read: Read,
)
    requires
        is_function_at(doc, object, depth, remaining, host, Some(read)),
    ensures
        is_whole_function(read.function),
    decreases 33 - depth, 2nat, 0nat,
{
    if read.function is Stitching {
        match dict_and_stream(object) {
            Some((dict, _)) => {
                lemma_stitching_whole(doc, dict, depth, remaining - 1, host, read);
            },
            None => {},
        }
    }
}

/// The parts of a function that was read belong together.
pub proof fn lemma_function_whole(
    doc: Document,
    object: Object,
    host: Judgements,
    function: FunctionModel,
)
    requires
        is_function(doc, object, host, Some(function)),
    ensures
        is_whole_function(function),
{
    let read = choose|read: Option<Read>|
        {
            &&& #[trigger] is_function_at(doc, object, 0, MAX_FUNCTIONS as int, host, read)
            &&& Some(function) == match read {
                Some(read) => Some(read.function),
                None => None,
            }
        };
    lemma_function_whole_at(doc, object, 0, MAX_FUNCTIONS as int, host, read->0);
}

} // verus!
