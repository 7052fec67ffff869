//! What holds of the reading of functions as a whole.

use crate::function::definition::{
    are_children_at, dict_and_stream, is_calculator_function, is_function, is_function_at,
    is_stitching_at, stitching_of, with_child, FunctionModel, Judgements, Read, ReadAll, Type4Model,
    MAX_FUNCTIONS, MAX_FUNCTION_DEPTH,
};
use crate::function::numeric::{array_objects, clamper_of};
use crate::function::program::{
    is_exact_program, is_program, lemma_one_program, outcome, OpModel,
};
use crate::function::type0::integer_of;
use crate::object::{Dict, Document, Object, Stream};
use vstd::prelude::*;

verus! {

/// No number of a calculator program that a function holds has too many digits behind its point
/// to be determined by its bytes.
pub open spec fn is_exact_function(doc: Document, object: Object, depth: int) -> bool
    decreases 33 - depth,
{
    depth >= MAX_FUNCTION_DEPTH || match dict_and_stream(object) {
        None => true,
        Some((dict, stream)) => match (integer_of(doc, dict, "FunctionType"@), stream) {
            (Some(3), _) => array_objects(doc, dict, "Functions"@, MAX_FUNCTIONS as int) matches Some(
                children,
            ) ==> forall|i: int|
                0 <= i < children.len() ==> is_exact_function(doc, #[trigger] children[i], depth + 1),
            (Some(4), Some(stream)) => stream.data matches Some(data) ==> is_exact_program(data@),
            _ => true,
        },
    }
}

proof fn lemma_one_calculator(
    doc: Document,
    stream: Stream,
    first: Option<Type4Model>,
    second: Option<Type4Model>,
)
    requires
        stream.data matches Some(data) ==> is_exact_program(data@),
        is_calculator_function(doc, stream, first),
        is_calculator_function(doc, stream, second),
    ensures
        first == second,
{
    match (clamper_of(doc, stream.dict), stream.data) {
        (Some(clamper), Some(data)) => {
            let a = choose|program: Option<Seq<OpModel>>|
                {
                    &&& #[trigger] is_program(data@, program)
                    &&& first == match program {
                        Some(program) => Some(Type4Model { program, clamper }),
                        None => None,
                    }
                };
            let b = choose|program: Option<Seq<OpModel>>|
                {
                    &&& #[trigger] is_program(data@, program)
                    &&& second == match program {
                        Some(program) => Some(Type4Model { program, clamper }),
                        None => None,
                    }
                };
            lemma_one_program(data@, a, b);
        },
        _ => {},
    }
}

proof fn lemma_one_read(
    doc: Document,
    object: Object,
    depth: int,
    remaining: int,
    host: Judgements,
    first: Option<Read>,
    second: Option<Read>,
)
    requires
        remaining <= MAX_FUNCTIONS,
        is_exact_function(doc, object, depth),
        is_function_at(doc, object, depth, remaining, host, first),
        is_function_at(doc, object, depth, remaining, host, second),
    ensures
        first == second,
        first matches Some(read) ==> read.remaining <= remaining,
    decreases 33 - depth, 2nat, 0nat,
{
    if depth < MAX_FUNCTION_DEPTH && remaining > 0 {
        match dict_and_stream(object) {
            None => {},
            Some((dict, stream)) => match (integer_of(doc, dict, "FunctionType"@), stream) {
                (Some(3), _) => {
                    lemma_one_stitching(doc, dict, depth, remaining - 1, host, first, second);
                },
                (Some(4), Some(stream)) => {
                    let a = choose|calculator: Option<Type4Model>|
                        {
                            &&& #[trigger] is_calculator_function(doc, stream, calculator)
                            &&& first == match calculator {
                                Some(calculator) => Some(
                                    Read {
                                        function: FunctionModel::Calculator(calculator),
                                        remaining: remaining - 1,
                                    },
                                ),
                                None => None,
                            }
                        };
                    let b = choose|calculator: Option<Type4Model>|
                        {
                            &&& #[trigger] is_calculator_function(doc, stream, calculator)
                            &&& second == match calculator {
                                Some(calculator) => Some(
                                    Read {
                                        function: FunctionModel::Calculator(calculator),
                                        remaining: remaining - 1,
                                    },
                                ),
                                None => None,
                            }
                        };
                    lemma_one_calculator(doc, stream, a, b);
                },
                _ => {},
            },
        }
    }
}

proof fn lemma_one_stitching(
    doc: Document,
    dict: Dict,
    depth: int,
    remaining: int,
    host: Judgements,
    first: Option<Read>,
    second: Option<Read>,
)
    requires
        remaining <= MAX_FUNCTIONS,
        array_objects(doc, dict, "Functions"@, MAX_FUNCTIONS as int) matches Some(children)
            ==> forall|i: int|
            0 <= i < children.len() ==> is_exact_function(doc, #[trigger] children[i], depth + 1),
        is_stitching_at(doc, dict, depth, remaining, host, first),
        is_stitching_at(doc, dict, depth, remaining, host, second),
    ensures
        first == second,
        first matches Some(read) ==> read.remaining <= remaining,
    decreases 33 - depth, 1nat, 0nat,
{
    match (clamper_of(doc, dict), array_objects(doc, dict, "Functions"@, remaining)) {
        (Some(clamper), Some(children)) => if clamper.domain.len() == 1 && children.len() > 0
            && depth < MAX_FUNCTION_DEPTH {
            let a = choose|read: Option<ReadAll>|
                {
                    &&& #[trigger] outcome(read)
                    &&& are_children_at(
                        doc,
                        children,
                        depth + 1,
                        remaining,
                        host,
                        children.len(),
                        read,
                    )
                    &&& first == match read {
                        Some(read) => stitching_of(doc, dict, clamper, read),
                        None => None,
                    }
                };
            let b = choose|read: Option<ReadAll>|
                {
                    &&& #[trigger] outcome(read)
                    &&& are_children_at(
                        doc,
                        children,
                        depth + 1,
                        remaining,
                        host,
                        children.len(),
                        read,
                    )
                    &&& second == match read {
                        Some(read) => stitching_of(doc, dict, clamper, read),
                        None => None,
                    }
                };
            assert(array_objects(doc, dict, "Functions"@, MAX_FUNCTIONS as int) == Some(children));
            lemma_same_children(
                doc,
                children,
                depth + 1,
                remaining,
                host,
                children.len(),
                a,
                b,
            );
        },
        _ => {},
    }
}

proof fn lemma_same_children(
    doc: Document,
    children: Seq<Object>,
    depth: int,
    remaining: int,
    host: Judgements,
    count: nat,
    first: Option<ReadAll>,
    second: Option<ReadAll>,
)
    requires
        remaining <= MAX_FUNCTIONS,
        count <= children.len(),
        forall|i: int|
            0 <= i < children.len() ==> is_exact_function(doc, #[trigger] children[i], depth),
        are_children_at(doc, children, depth, remaining, host, count, first),
        are_children_at(doc, children, depth, remaining, host, count, second),
    ensures
        first == second,
        first matches Some(read) ==> read.remaining <= remaining,
    decreases 33 - depth, 3nat, count,
{
    if count > 0 {
        let a = lemma_children_before(doc, children, depth, remaining, host, count, first);
        let b = lemma_children_before(doc, children, depth, remaining, host, count, second);
        lemma_same_children(
            doc,
            children,
            depth,
            remaining,
            host,
            (count - 1) as nat,
            a.0,
            b.0,
        );
        if a.0 is Some {
            lemma_one_read(
                doc,
                children[count - 1],
                depth,
                a.0->0.remaining,
                host,
                a.1,
                b.1,
            );
        }
    }
}

proof fn lemma_children_before(
    doc: Document,
    children: Seq<Object>,
    depth: int,
    remaining: int,
    host: Judgements,
    count: nat,
    result: Option<ReadAll>,
) -> (parts: (Option<ReadAll>, Option<Read>))
    requires
        count > 0,
        are_children_at(doc, children, depth, remaining, host, count, result),
    ensures
        are_children_at(doc, children, depth, remaining, host, (count - 1) as nat, parts.0),
        match parts.0 {
            None => result is None,
            Some(before) => {
                &&& is_function_at(
                    doc,
                    children[count - 1],
                    depth,
                    before.remaining,
                    host,
                    parts.1,
                )
                &&& result == with_child(before, parts.1)
            },
        },
{
    let before = choose|before: Option<ReadAll>|
        {
            &&& #[trigger] outcome(before)
            &&& are_children_at(
                doc,
                children,
                depth,
                remaining,
                host,
                (count - 1) as nat,
                before,
            )
            &&& match before {
                None => result is None,
                Some(before) => exists|read: Option<Read>|
                    {
                        &&& #[trigger] outcome(read)
                        &&& is_function_at(
                            doc,
                            children[count - 1],
                            depth,
                            before.remaining,
                            host,
                            read,
                        )
                        &&& result == with_child(before, read)
                    },
            }
        };
    let read = choose|read: Option<Read>|
        {
            &&& #[trigger] outcome(read)
            &&& is_function_at(
                doc,
                children[count - 1],
                depth,
                before->0.remaining,
                host,
                read,
            )
            &&& result == with_child(before->0, read)
        };
    (before, read)
}

/// An object is one function at most, unless a number in a calculator program has too many digits
/// behind its point.
pub proof fn lemma_one_function(
    doc: Document,
    object: Object,
    host: Judgements,
    first: Option<FunctionModel>,
    second: Option<FunctionModel>,
)
    requires
        is_exact_function(doc, object, 0),
        is_function(doc, object, host, first),
        is_function(doc, object, host, second),
    ensures
        first == second,
{
    let limit = MAX_FUNCTIONS as int;
    let a = choose|read: Option<Read>|
        {
            &&& #[trigger] is_function_at(doc, object, 0, limit, host, read)
            &&& first == match read {
                Some(read) => Some(read.function),
                None => None,
            }
        };
    let b = choose|read: Option<Read>|
        {
            &&& #[trigger] is_function_at(doc, object, 0, limit, host, read)
            &&& second == match read {
                Some(read) => Some(read.function),
                None => None,
            }
        };
    lemma_one_read(doc, object, 0, limit, host, a, b);
}

} // verus!
