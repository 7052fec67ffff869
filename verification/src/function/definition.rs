//! Functions and their definitions.

use crate::function::eval::is_stitched;
use crate::function::flatten::{flatten, flattened};
use crate::function::instruction::CalculatorInstruction;
use crate::function::numeric::{
    array_objects, array_pairs, array_values, clamper_of, objects, pairs, values,
    Clamper, ClamperModel, Interval,
};
use crate::function::program::{
    is_program, op_models, outcome, parse_procedure, program_model, OpModel, PostScriptOp,
};
use crate::function::single::{rank, rank_of};
use crate::function::type0::{
    integer, integer_of, judges, judges_all, sampled_function, SampledCheck, Type0, Type0Model,
};
use crate::function::type2::{bounds, bounds_all, exponential_function, Type2, Type2Model};
use crate::list::copied;
use crate::object::{Dict, Document, Object, Stream};
use vstd::prelude::*;

verus! {

/// The greatest depth of functions within functions.
pub const MAX_FUNCTION_DEPTH: usize = 32;

/// The greatest number of functions that a function consists of.
pub const MAX_FUNCTIONS: usize = 4096;

/// A type 3 function (stitching function).
#[derive(Debug)]
pub struct Type3 {
    pub functions: Vec<Function>,
    /// The bounds of the intervals, with the domain around them.
    pub bounds: Vec<u32>,
    /// One input encoding pair for each child.
    pub encode: Vec<Interval>,
    pub clamper: Clamper,
}

/// A type 4 function (postscript function).
#[derive(Debug)]
pub struct Type4 {
    pub program: Vec<PostScriptOp>,
    pub clamper: Clamper,
}

/// The types of functions.
#[derive(Debug)]
pub enum FunctionType {
    Type0(Type0),
    Type2(Type2),
    Type3(Type3),
    Type4(Type4),
}

/// A PDF function.
#[derive(Debug)]
pub struct Function(pub FunctionType);

/// A calculator function with sequences.
#[verifier::ext_equal]
pub struct Type4Model {
    pub program: Seq<OpModel>,
    pub clamper: ClamperModel,
}

impl View for Type4 {
    type V = Type4Model;

    open spec fn view(&self) -> Type4Model {
        Type4Model { program: op_models(self.program@), clamper: self.clamper@ }
    }
}

/// A function with sequences.
pub enum FunctionModel {
    Sampled(Type0Model),
    Exponential(Type2Model),
    Stitching {
        functions: Seq<FunctionModel>,
        bounds: Seq<u32>,
        encode: Seq<Interval>,
        clamper: ClamperModel,
    },
    Calculator(Type4Model),
}

/// The model of a function.
pub open spec fn function_model(f: Function) -> FunctionModel
    decreases f,
{
    match f.0 {
        FunctionType::Type0(sampled) => FunctionModel::Sampled(sampled@),
        FunctionType::Type2(exponential) => FunctionModel::Exponential(exponential@),
        FunctionType::Type3(stitching) => FunctionModel::Stitching {
            functions: Seq::new(
                stitching.functions@.len(),
                |i: int|
                    if 0 <= i < stitching.functions@.len() {
                        function_model(stitching.functions[i])
                    } else {
                        arbitrary()
                    },
            ),
            bounds: stitching.bounds@,
            encode: stitching.encode@,
            clamper: stitching.clamper@,
        },
        FunctionType::Type4(calculator) => FunctionModel::Calculator(calculator@),
    }
}

/// The models of functions.
pub open spec fn function_models(fs: Seq<Function>) -> Seq<FunctionModel> {
    Seq::new(fs.len(), |i: int| function_model(fs[i]))
}

pub proof fn lemma_stitching_model(s: Type3)
    ensures
        function_model(Function(FunctionType::Type3(s))) == (FunctionModel::Stitching {
            functions: function_models(s.functions@),
            bounds: s.bounds@,
            encode: s.encode@,
            clamper: s.clamper@,
        }),
{
    assert(function_model(Function(FunctionType::Type3(s)))->functions =~= function_models(
        s.functions@,
    ));
}

impl View for Function {
    type V = FunctionModel;

    open spec fn view(&self) -> FunctionModel {
        function_model(*self)
    }
}

/// The declared numbers of inputs and outputs.
///
/// A calculator without a range has no known number of outputs.
pub open spec fn arity_of(f: FunctionModel) -> Option<(nat, nat)>
    decreases f,
{
    match f {
        FunctionModel::Sampled(sampled) => Some((sampled.sizes.len(), sampled.range.len())),
        FunctionModel::Exponential(exponential) => Some((1, exponential.c0.len())),
        FunctionModel::Stitching { functions, .. } => if functions.len() == 0 {
            None
        } else {
            match arity_of(functions[0]) {
                Some((_, outputs)) => Some((1, outputs)),
                None => None,
            }
        },
        FunctionModel::Calculator(calculator) => match calculator.clamper.range {
            Some(range) => Some((calculator.clamper.domain.len(), range.len())),
            None => None,
        },
    }
}

/// The declared number of outputs.
pub open spec fn output_count(f: FunctionModel) -> nat {
    match arity_of(f) {
        Some((_, outputs)) => outputs,
        None => 0,
    }
}

/// The judgements of a host: of the precision of sampled functions, and of the outputs of
/// exponential functions.
pub struct Judgements {
    pub precise: spec_fn(SampledCheck) -> bool,
    pub bounded: spec_fn(Type2Model) -> bool,
}

/// A function that was read, and the number of functions that may still follow.
pub struct Read {
    pub function: FunctionModel,
    pub remaining: int,
}

/// Functions that were read, and the number of functions that may still follow.
pub struct ReadAll {
    pub functions: Seq<FunctionModel>,
    pub remaining: int,
}

/// Bounds increase strictly above the low end of the domain, and do not go beyond its high end.
pub open spec fn bounds_increase(internal: Seq<u32>, low: u32, high: u32) -> bool {
    forall|i: int| 0 <= i < internal.len() ==> #[trigger] bound_increases(internal, low, high, i)
}

/// A bound lies above the one before it, and not beyond the high end of the domain.
pub open spec fn bound_increases(internal: Seq<u32>, low: u32, high: u32, i: int) -> bool {
    let previous = if i == 0 {
        low
    } else {
        internal[i - 1]
    };
    rank(previous) < rank(internal[i]) <= rank(high)
}

/// All children have one input and the same number of outputs.
pub open spec fn children_agree(functions: Seq<FunctionModel>) -> bool {
    &&& functions.len() > 0
    &&& arity_of(functions[0]) matches Some((_, outputs))
    &&& forall|i: int|
        0 <= i < functions.len() ==> arity_of(#[trigger] functions[i]) == Some((1nat, outputs))
}

/// The stitching function of children.
pub open spec fn stitched(
    clamper: ClamperModel,
    functions: Seq<FunctionModel>,
    internal: Seq<u32>,
    encode: Seq<Interval>,
) -> Option<FunctionModel> {
    let domain = clamper.domain[0];
    if children_agree(functions) && (clamper.range matches Some(range) ==> range.len() == output_count(
        functions[0],
    )) && internal.len() + 1 == functions.len() && encode.len() == functions.len() && (
    functions.len() == 1 || rank(domain.low) != rank(domain.high)) && bounds_increase(
        internal,
        domain.low,
        domain.high,
    ) {
        Some(
            FunctionModel::Stitching {
                functions,
                bounds: seq![domain.low] + internal + seq![domain.high],
                encode,
                clamper,
            },
        )
    } else {
        None
    }
}

/// The calculator function of a stream may be the given one.
///
/// Only numbers with many digits behind their points leave a choice.
pub open spec fn is_calculator_function(
    doc: Document,
    stream: Stream,
    result: Option<Type4Model>,
) -> bool {
    match (clamper_of(doc, stream.dict), stream.data) {
        (Some(clamper), Some(data)) => exists|program: Option<Seq<OpModel>>|
            {
                &&& #[trigger] is_program(data@, program)
                &&& result == match program {
                    Some(program) => Some(Type4Model { program, clamper }),
                    None => None,
                }
            },
        _ => result is None,
    }
}

/// The dictionary of a function, and its stream if it is one.
pub open spec fn dict_and_stream(object: Object) -> Option<(Dict, Option<Stream>)> {
    match object {
        Object::Dict(dict) => Some((dict, None)),
        Object::Stream(stream) => Some((stream.dict, Some(stream))),
        _ => None,
    }
}

/// The function that an object is, `depth` functions down, may be the given one.
pub open spec fn is_function_at(
    doc: Document,
    object: Object,
    depth: int,
    remaining: int,
    host: Judgements,
    result: Option<Read>,
) -> bool
    decreases 33 - depth, 2nat, 0nat,
{
    if depth >= MAX_FUNCTION_DEPTH || remaining <= 0 {
        result is None
    } else {
        match dict_and_stream(object) {
            None => result is None,
            Some((dict, stream)) => match (integer_of(doc, dict, "FunctionType"@), stream) {
                (Some(0), Some(stream)) => result == match sampled_function(
                    doc,
                    stream,
                    host.precise,
                ) {
                    Some(sampled) => Some(
                        Read {
                            function: FunctionModel::Sampled(sampled),
                            remaining: remaining - 1,
                        },
                    ),
                    None => None,
                },
                (Some(2), _) => result == match exponential_function(doc, dict, host.bounded) {
                    Some(exponential) => Some(
                        Read {
                            function: FunctionModel::Exponential(exponential),
                            remaining: remaining - 1,
                        },
                    ),
                    None => None,
                },
                (Some(3), _) => is_stitching_at(doc, dict, depth, remaining - 1, host, result),
                (Some(4), Some(stream)) => exists|calculator: Option<Type4Model>|
                    {
                        &&& #[trigger] is_calculator_function(doc, stream, calculator)
                        &&& result == match calculator {
                            Some(calculator) => Some(
                                Read {
                                    function: FunctionModel::Calculator(calculator),
                                    remaining: remaining - 1,
                                },
                            ),
                            None => None,
                        }
                    },
                _ => result is None,
            },
        }
    }
}

/// The stitching function of children that were read.
pub open spec fn stitching_of(
    doc: Document,
    dict: Dict,
    clamper: ClamperModel,
    read: ReadAll,
) -> Option<Read> {
    match (
        array_values(doc, dict, "Bounds"@, read.functions.len() - 1),
        array_pairs(doc, dict, "Encode"@, read.functions.len() as int),
    ) {
        (Some(internal), Some(encode)) => match stitched(
            clamper,
            read.functions,
            internal,
            encode,
        ) {
            Some(function) => Some(Read { function, remaining: read.remaining }),
            None => None,
        },
        _ => None,
    }
}

/// The stitching function of a dictionary may be the given one.
pub open spec fn is_stitching_at(
    doc: Document,
    dict: Dict,
    depth: int,
    remaining: int,
    host: Judgements,
    result: Option<Read>,
) -> bool
    decreases 33 - depth, 1nat, 0nat,
{
    match (clamper_of(doc, dict), array_objects(doc, dict, "Functions"@, remaining)) {
        (Some(clamper), Some(children)) => if clamper.domain.len() != 1 || children.len() == 0
            || depth >= MAX_FUNCTION_DEPTH {
            result is None
        } else {
            exists|read: Option<ReadAll>|
                {
                    &&& #[trigger] outcome(read)
                    &&& are_children_at(
                        doc,
                        children,
                        depth + 1,
                        remaining,
                        host,
                        children.len(),
                        read,
                    )
                    &&& result == match read {
                        Some(read) => stitching_of(doc, dict, clamper, read),
                        None => None,
                    }
                }
        },
        _ => result is None,
    }
}

/// The functions that were read before, and another one.
pub open spec fn with_child(before: ReadAll, read: Option<Read>) -> Option<ReadAll> {
    match read {
        Some(read) => Some(
            ReadAll {
                functions: before.functions.push(read.function),
                remaining: read.remaining,
            },
        ),
        None => None,
    }
}

/// The functions that the first `count` objects are may be the given ones.
pub open spec fn are_children_at(
    doc: Document,
    children: Seq<Object>,
    depth: int,
    remaining: int,
    host: Judgements,
    count: nat,
    result: Option<ReadAll>,
) -> bool
    decreases 33 - depth, 3nat, count,
{
    if count == 0 {
        result == Some(ReadAll { functions: Seq::empty(), remaining })
    } else {
        exists|before: Option<ReadAll>|
            {
                &&& #[trigger] outcome(before)
                &&& are_children_at(
                    doc,
                    children,
                    depth,
                    remaining,
                    host,
                    (count - 1) as nat,
                    before,
                )
                &&& match before {
                    None => result is None,
                    Some(before) => exists|read: Option<Read>|
                        {
                            &&& #[trigger] outcome(read)
                            &&& is_function_at(
                                doc,
                                children[count - 1],
                                depth,
                                before.remaining,
                                host,
                                read,
                            )
                            &&& result == with_child(before, read)
                        },
                }
            }
    }
}

/// The function that an object is may be the given one.
pub open spec fn is_function(
    doc: Document,
    object: Object,
    host: Judgements,
    function: Option<FunctionModel>,
) -> bool {
    exists|read: Option<Read>|
        {
            &&& #[trigger] is_function_at(doc, object, 0, MAX_FUNCTIONS as int, host, read)
            &&& function == match read {
                Some(read) => Some(read.function),
                None => None,
            }
        }
}

proof fn lemma_failed_child(
    doc: Document,
    children: Seq<Object>,
    depth: int,
    remaining: int,
    host: Judgements,
    count: nat,
    more: nat,
)
    requires
        count <= more,
        are_children_at(doc, children, depth, remaining, host, count, None),
    ensures
        are_children_at(doc, children, depth, remaining, host, more, None),
    decreases more,
{
    if count < more {
        lemma_failed_child(doc, children, depth, remaining, host, count, (more - 1) as nat);
        assert(outcome(None::<ReadAll>));
    }
}

proof fn lemma_next_child(
    doc: Document,
    children: Seq<Object>,
    depth: int,
    remaining: int,
    host: Judgements,
    count: nat,
    before: ReadAll,
    read: Option<Read>,
)
    requires
        are_children_at(doc, children, depth, remaining, host, count, Some(before)),
        is_function_at(doc, children[count as int], depth, before.remaining, host, read),
    ensures
        are_children_at(
            doc,
            children,
            depth,
            remaining,
            host,
            count + 1,
            with_child(before, read),
        ),
{
    assert(outcome(Some(before)));
    assert(outcome(read));
    assert((count + 1 - 1) as nat == count);
}

/// The judgements of a host's functions.
pub open spec fn hosted<F: Fn(SampledCheck) -> bool, G: Fn(&Type2) -> bool>(
    judge: F,
    bound: G,
    host: Judgements,
) -> bool {
    judges(judge, host.precise) && bounds(bound, host.bounded)
}

/// Whether bounds increase strictly above the low end of a domain, and do not go beyond its high
/// end.
fn do_bounds_increase(internal: &Vec<u32>, low: u32, high: u32) -> (result: bool)
    ensures
        result == bounds_increase(internal@, low, high),
{
    let mut previous: u32 = low;
    let mut i: usize = 0;
    while i < internal.len()
        invariant
            i <= internal@.len(),
            previous == if i == 0 {
                low
            } else {
                internal@[i - 1]
            },
            forall|k: int| 0 <= k < i ==> #[trigger] bound_increases(internal@, low, high, k),
        decreases internal@.len() - i,
    {
        let bound: u32 = internal[i];
        if rank_of(bound) <= rank_of(previous) || rank_of(bound) > rank_of(high) {
            assert(!bound_increases(internal@, low, high, i as int));
            return false;
        }
        previous = bound;
        i = i + 1;
    }
    true
}

/// The number of outputs of all children, if they agree.
fn agreed_outputs(functions: &Vec<Function>) -> (outputs: Option<usize>)
    ensures
        match outputs {
            None => !children_agree(function_models(functions@)),
            Some(outputs) => {
                &&& children_agree(function_models(functions@))
                &&& output_count(function_models(functions@)[0]) == outputs
            },
        },
{
    let ghost models = function_models(functions@);
    if functions.len() == 0 {
        return None;
    }
    assert(models[0] == functions@[0]@);
    let outputs: usize = match functions[0].arity() {
        None => {
            return None;
        },
        Some((_, outputs)) => outputs,
    };
    let mut i: usize = 0;
    while i < functions.len()
        invariant
            i <= functions@.len(),
            models == function_models(functions@),
            functions@.len() > 0,
            arity_of(models[0]) matches Some((_, expected)) && expected == outputs,
            forall|k: int|
                0 <= k < i ==> arity_of(#[trigger] models[k]) == Some((1nat, outputs as nat)),
        decreases functions@.len() - i,
    {
        assert(models[i as int] == functions@[i as int]@);
        let agrees = match functions[i].arity() {
            None => false,
            Some((inputs, given)) => inputs == 1 && given == outputs,
        };
        if !agrees {
            assert(arity_of(models[i as int]) != Some((1nat, outputs as nat)));
            return None;
        }
        i = i + 1;
    }
    Some(outputs)
}

/// The model of an optional function.
pub open spec fn optional_model(result: Option<Function>) -> Option<FunctionModel> {
    match result {
        Some(function) => Some(function@),
        None => None,
    }
}

/// The model of a function that was read.
spec fn read_model(result: Option<Function>, remaining: usize) -> Option<Read> {
    match result {
        Some(function) => Some(Read { function: function@, remaining: remaining as int }),
        None => None,
    }
}

impl Function {
    /// Read a function.
    ///
    /// `judge` says whether the precision of a sampled output is enough, and `bound` whether all
    /// outputs of an exponential function are finite and precise enough.
    pub fn new<F: Fn(SampledCheck) -> bool, G: Fn(&Type2) -> bool>(
        doc: &Document,
        object: &Object,
        judge: &F,
        bound: &G,
    ) -> (result: Option<Self>)
        requires
            judges_all(*judge),
            bounds_all(*bound),
        ensures
            result matches Some(function) ==> is_stitched(function@),
            forall|host: Judgements| #[trigger]
                hosted(*judge, *bound, host) ==> is_function(
                    *doc,
                    *object,
                    host,
                    optional_model(result),
                ),
    {
        let mut remaining: usize = MAX_FUNCTIONS;
        let result = Self::parse(doc, object, 0, &mut remaining, judge, bound);
        assert forall|host: Judgements| #[trigger] hosted(*judge, *bound, host) implies is_function(
            *doc,
            *object,
            host,
            optional_model(result),
        ) by {
            let read = read_model(result, remaining);
            assert(is_function_at(*doc, *object, 0, MAX_FUNCTIONS as int, host, read));
        }
        result
    }

    fn parse<F: Fn(SampledCheck) -> bool, G: Fn(&Type2) -> bool>(
        doc: &Document,
        object: &Object,
        depth: usize,
        remaining: &mut usize,
        judge: &F,
        bound: &G,
    ) -> (result: Option<Self>)
        requires
            judges_all(*judge),
            bounds_all(*bound),
            *old(remaining) <= MAX_FUNCTIONS,
        ensures
            *final(remaining) <= *old(remaining),
            result matches Some(function) ==> is_stitched(function@),
            forall|host: Judgements| #[trigger]
                hosted(*judge, *bound, host) ==> is_function_at(
                    *doc,
                    *object,
                    depth as int,
                    *old(remaining) as int,
                    host,
                    read_model(result, *final(remaining)),
                ),
        decreases 33 - depth, 2nat, 0nat,
    {
        if depth >= MAX_FUNCTION_DEPTH || *remaining == 0 {
            return None;
        }
        *remaining = *remaining - 1;
        let (dict, stream) = match object {
            Object::Dict(dict) => (dict, None),
            Object::Stream(stream) => (&stream.dict, Some(stream)),
            _ => {
                return None;
            },
        };
        match integer(doc, dict, "FunctionType") {
            None => None,
            Some(kind) => {
                if kind == 0 {
                    match stream {
                        None => None,
                        Some(stream) => match Type0::new(doc, stream, judge) {
                            None => None,
                            Some(sampled) => Some(Function(FunctionType::Type0(sampled))),
                        },
                    }
                } else if kind == 2 {
                    match Type2::new(doc, dict, bound) {
                        None => None,
                        Some(exponential) => Some(Function(FunctionType::Type2(exponential))),
                    }
                } else if kind == 3 {
                    match Type3::new(doc, dict, depth, remaining, judge, bound) {
                        None => None,
                        Some(stitching) => Some(Function(FunctionType::Type3(stitching))),
                    }
                } else if kind == 4 {
                    match stream {
                        None => None,
                        Some(stream) => match Type4::new(doc, stream) {
                            None => None,
                            Some(calculator) => Some(Function(FunctionType::Type4(calculator))),
                        },
                    }
                } else {
                    None
                }
            },
        }
    }

    /// The declared numbers of inputs and outputs.
    ///
    /// A calculator without a range has no known number of outputs.
    pub fn arity(&self) -> (arity: Option<(usize, usize)>)
        ensures
            match arity {
                None => arity_of(self@) is None,
                Some((inputs, outputs)) => arity_of(self@) == Some((inputs as nat, outputs as nat)),
            },
        decreases *self,
    {
        match &self.0 {
            FunctionType::Type0(sampled) => Some((sampled.sizes.len(), sampled.range.len())),
            FunctionType::Type2(exponential) => Some(exponential.arity()),
            FunctionType::Type3(stitching) => {
                proof {
                    lemma_stitching_model(*stitching);
                }
                if stitching.functions.len() == 0 {
                    return None;
                }
                assert(function_models(stitching.functions@)[0] == stitching.functions@[0]@);
                assert(self@->functions == function_models(stitching.functions@));
                assert(decreases_to!(*self => stitching.functions@[0]));
                match stitching.functions[0].arity() {
                    None => None,
                    Some((_, outputs)) => Some((1, outputs)),
                }
            },
            FunctionType::Type4(calculator) => calculator.arity(),
        }
    }

    /// An owned calculator program when this is a calculator function.
    pub fn calculator_function(&self) -> (program: Option<CalculatorFunction>)
        ensures
            match self@ {
                FunctionModel::Calculator(calculator) => program_result(program, calculator),
                _ => program is None,
            },
    {
        match &self.0 {
            FunctionType::Type4(calculator) => calculator.calculator_function(),
            _ => None,
        }
    }
}

/// The program of a calculator function.
pub open spec fn program_result(
    program: Option<CalculatorFunction>,
    calculator: Type4Model,
) -> bool {
    match flattened(calculator.program) {
        None => program is None,
        Some(instructions) => {
            &&& program matches Some(given)
            &&& given.instructions@ == instructions
            &&& given.input_domain@ == calculator.clamper.domain
            &&& match calculator.clamper.range {
                Some(range) => given.output_range matches Some(given) && given@ == range,
                None => given.output_range is None,
            }
        },
    }
}

/// An owned, bounded PDF Type 4 calculator function.
#[derive(Debug)]
pub struct CalculatorFunction {
    /// Inclusive input clamps from the function dictionary's `/Domain`.
    pub input_domain: Vec<Interval>,
    /// Inclusive output clamps from `/Range`, when one is present.
    pub output_range: Option<Vec<Interval>>,
    /// Forward-only calculator bytecode.
    pub instructions: Vec<CalculatorInstruction>,
}

/// Read the children of a stitching function.
fn read_children<F: Fn(SampledCheck) -> bool, G: Fn(&Type2) -> bool>(
    doc: &Document,
    children: &Vec<&Object>,
    depth: usize,
    remaining: &mut usize,
    judge: &F,
    bound: &G,
    Ghost(expected): Ghost<Seq<Object>>,
) -> (result: Option<Vec<Function>>)
    requires
        judges_all(*judge),
        bounds_all(*bound),
        depth <= MAX_FUNCTION_DEPTH,
        *old(remaining) <= MAX_FUNCTIONS,
        children@.len() == expected.len(),
        forall|k: int| 0 <= k < children@.len() ==> *#[trigger] children@[k] == expected[k],
    ensures
        *final(remaining) <= *old(remaining),
        result matches Some(functions) ==> functions@.len() == expected.len() && are_stitched(
            function_models(functions@),
        ),
        forall|host: Judgements| #[trigger]
            hosted(*judge, *bound, host) ==> are_children_at(
                *doc,
                expected,
                depth as int,
                *old(remaining) as int,
                host,
                expected.len(),
                match result {
                    Some(functions) => Some(
                        ReadAll {
                            functions: function_models(functions@),
                            remaining: *final(remaining) as int,
                        },
                    ),
                    None => None,
                },
            ),
    decreases 33 - depth, 3nat, 0nat,
{
    let ghost start = *remaining as int;
    let mut functions: Vec<Function> = Vec::new();
    let mut i: usize = 0;
    assert(function_models(functions@) =~= Seq::empty());
    while i < children.len()
        invariant
            i <= children@.len() == expected.len(),
            depth <= MAX_FUNCTION_DEPTH,
            judges_all(*judge),
            bounds_all(*bound),
            start == *old(remaining),
            *remaining <= *old(remaining) <= MAX_FUNCTIONS,
            forall|k: int| 0 <= k < children@.len() ==> *#[trigger] children@[k] == expected[k],
            functions@.len() == i,
            are_stitched(function_models(functions@)),
            forall|host: Judgements| #[trigger]
                hosted(*judge, *bound, host) ==> are_children_at(
                    *doc,
                    expected,
                    depth as int,
                    start,
                    host,
                    i as nat,
                    Some(
                        ReadAll {
                            functions: function_models(functions@),
                            remaining: *remaining as int,
                        },
                    ),
                ),
        decreases children@.len() - i,
    {
        assert(*children@[i as int] == expected[i as int]);
        let ghost before = ReadAll {
            functions: function_models(functions@),
            remaining: *remaining as int,
        };
        let child = Function::parse(doc, children[i], depth, remaining, judge, bound);
        let ghost read = read_model(child, *remaining);
        assert forall|host: Judgements| #[trigger]
            hosted(*judge, *bound, host) implies are_children_at(
            *doc,
            expected,
            depth as int,
            start,
            host,
            (i + 1) as nat,
            with_child(before, read),
        ) by {
            lemma_next_child(
                *doc,
                expected,
                depth as int,
                start,
                host,
                i as nat,
                before,
                read,
            );
        }
        match child {
            None => {
                proof {
                    assert forall|host: Judgements| #[trigger]
                        hosted(*judge, *bound, host) implies are_children_at(
                        *doc,
                        expected,
                        depth as int,
                        start,
                        host,
                        expected.len(),
                        None,
                    ) by {
                        lemma_failed_child(
                            *doc,
                            expected,
                            depth as int,
                            start,
                            host,
                            (i + 1) as nat,
                            expected.len(),
                        );
                    }
                }
                return None;
            },
            Some(function) => {
                let ghost earlier = functions@;
                functions.push(function);
                assert(function_models(functions@) =~= function_models(earlier).push(function@));
            },
        }
        i = i + 1;
    }
    Some(functions)
}

/// The parts of all stitching functions among these and within them belong together.
pub open spec fn are_stitched(functions: Seq<FunctionModel>) -> bool {
    forall|i: int| 0 <= i < functions.len() ==> is_stitched(#[trigger] functions[i])
}

/// Stitch functions together.
fn stitch(
    clamper: Clamper,
    functions: Vec<Function>,
    internal: &Vec<u32>,
    encode: Vec<Interval>,
) -> (result: Option<Type3>)
    requires
        clamper@.domain.len() == 1,
        are_stitched(function_models(functions@)),
    ensures
        result matches Some(stitching) ==> is_stitched(
            function_model(Function(FunctionType::Type3(stitching))),
        ),
        match stitched(clamper@, function_models(functions@), internal@, encode@) {
            None => result is None,
            Some(expected) => {
                &&& result matches Some(stitching)
                &&& function_model(Function(FunctionType::Type3(stitching))) == expected
            },
        },
{
    let count: usize = functions.len();
    let outputs: usize = match agreed_outputs(&functions) {
        None => {
            return None;
        },
        Some(outputs) => outputs,
    };
    let range_fits = match &clamper.range {
        Some(range) => range.len() == outputs,
        None => true,
    };
    let low: u32 = clamper.domain[0].low;
    let high: u32 = clamper.domain[0].high;
    if !range_fits || internal.len() != count - 1 || encode.len() != count || (count > 1 && rank_of(
        low,
    ) == rank_of(high)) || !do_bounds_increase(internal, low, high) {
        return None;
    }
    let mut bounds: Vec<u32> = Vec::new();
    bounds.push(low);
    let mut k: usize = 0;
    assert(bounds@ =~= seq![low] + internal@.take(0));
    while k < internal.len()
        invariant
            k <= internal@.len(),
            bounds@ == seq![low] + internal@.take(k as int),
        decreases internal@.len() - k,
    {
        bounds.push(internal[k]);
        assert(bounds@ =~= seq![low] + internal@.take(k + 1));
        k = k + 1;
    }
    bounds.push(high);
    assert(bounds@ =~= seq![low] + internal@ + seq![high]);
    let stitching = Type3 { functions, bounds, encode, clamper };
    proof {
        lemma_stitching_model(stitching);
    }
    Some(stitching)
}

impl Type3 {
    /// Read a stitching function.
    fn new<F: Fn(SampledCheck) -> bool, G: Fn(&Type2) -> bool>(
        doc: &Document,
        dict: &Dict,
        depth: usize,
        remaining: &mut usize,
        judge: &F,
        bound: &G,
    ) -> (result: Option<Self>)
        requires
            judges_all(*judge),
            bounds_all(*bound),
            depth < MAX_FUNCTION_DEPTH,
            *old(remaining) <= MAX_FUNCTIONS,
        ensures
            *final(remaining) <= *old(remaining),
            result matches Some(stitching) ==> is_stitched(
                function_model(Function(FunctionType::Type3(stitching))),
            ),
            forall|host: Judgements| #[trigger]
                hosted(*judge, *bound, host) ==> is_stitching_at(
                    *doc,
                    *dict,
                    depth as int,
                    *old(remaining) as int,
                    host,
                    match result {
                        Some(stitching) => Some(
                            Read {
                                function: function_model(
                                    Function(FunctionType::Type3(stitching)),
                                ),
                                remaining: *final(remaining) as int,
                            },
                        ),
                        None => None,
                    },
                ),
        decreases 33 - depth, 1nat, 0nat,
    {
        let clamper = match Clamper::new(doc, dict) {
            None => {
                return None;
            },
            Some(clamper) => clamper,
        };
        if clamper.domain.len() != 1 {
            return None;
        }
        let children = match objects(doc, dict, "Functions", *remaining) {
            None => {
                return None;
            },
            Some(children) => children,
        };
        if children.len() == 0 {
            return None;
        }
        let ghost expected = array_objects(*doc, *dict, "Functions"@, *remaining as int)->0;
        let functions = match read_children(
            doc,
            &children,
            depth + 1,
            remaining,
            judge,
            bound,
            Ghost(expected),
        ) {
            None => {
                assert(outcome(None::<ReadAll>));
                return None;
            },
            Some(functions) => functions,
        };
        let ghost read = ReadAll {
            functions: function_models(functions@),
            remaining: *remaining as int,
        };
        assert(outcome(Some(read)));
        let count: usize = functions.len();
        let internal = match values(doc, dict, "Bounds", count - 1) {
            None => {
                return None;
            },
            Some(internal) => internal,
        };
        let encode = match pairs(doc, dict, "Encode", count) {
            None => {
                return None;
            },
            Some(encode) => encode,
        };
        stitch(clamper, functions, &internal, encode)
    }
}

impl Type4 {
    /// Read a calculator function.
    pub fn new(doc: &Document, stream: &Stream) -> (result: Option<Self>)
        ensures
            is_calculator_function(
                *doc,
                *stream,
                match result {
                    Some(calculator) => Some(calculator@),
                    None => None,
                },
            ),
    {
        let clamper = match Clamper::new(doc, &stream.dict) {
            None => {
                return None;
            },
            Some(clamper) => clamper,
        };
        match &stream.data {
            None => None,
            Some(data) => {
                let program = parse_procedure(data.as_slice());
                assert(is_program(data@, program_model(program)));
                match program {
                    None => None,
                    Some(program) => Some(Type4 { program, clamper }),
                }
            },
        }
    }

    /// The declared numbers of inputs and outputs, if there is a range.
    pub fn arity(&self) -> (arity: Option<(usize, usize)>)
        ensures
            match arity {
                None => arity_of(FunctionModel::Calculator(self@)) is None,
                Some((inputs, outputs)) => arity_of(FunctionModel::Calculator(self@)) == Some(
                    (inputs as nat, outputs as nat),
                ),
            },
    {
        match &self.clamper.range {
            Some(range) => Some((self.clamper.domain.len(), range.len())),
            None => None,
        }
    }

    /// The program as owned, forward-only instructions.
    pub fn calculator_function(&self) -> (program: Option<CalculatorFunction>)
        ensures
            program_result(program, self@),
    {
        match flatten(&self.program) {
            None => None,
            Some(instructions) => Some(
                CalculatorFunction {
                    input_domain: copied(self.clamper.domain.as_slice()),
                    output_range: match &self.clamper.range {
                        Some(range) => Some(copied(range.as_slice())),
                        None => None,
                    },
                    instructions,
                },
            ),
        }
    }
}

} // verus!
