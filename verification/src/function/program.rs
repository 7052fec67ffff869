//! Calculator programs.

use crate::function::instruction::{is_operator, CalculatorInstruction};
use crate::function::stack::ArgumentsStack;
use crate::function::tokens::{
    fraction_digits, has_countable_fraction, lemma_regular_run, lemma_skip_trivia, may_read, number_token, operator_name,
    read_number, read_operator, regular_run, skip_trivia, skip_white_spaces_and_comments,
    MAX_EXACT_FRACTION_DIGITS,
};
use crate::object::{spelled, spells, Number};
use vstd::prelude::*;

verus! {

/// The greatest number of operations of a program.
pub const MAX_CALCULATOR_OPERATIONS: usize = 16_384;

/// The greatest depth of procedures within procedures.
pub const MAX_CALCULATOR_NESTING: usize = 128;

/// The greatest number of operands.
pub const MAX_OPERANDS: usize = 64;

/// An operation of a program.
#[derive(Debug, PartialEq, Eq)]
pub enum PostScriptOp {
    Number(Number),
    /// An operator other than `if` and `ifelse`.
    Operator(CalculatorInstruction),
    If(Vec<PostScriptOp>),
    IfElse(Vec<PostScriptOp>, Vec<PostScriptOp>),
}

/// An operation with its procedures as sequences.
pub enum OpModel {
    Number(Number),
    Operator(CalculatorInstruction),
    If(Seq<OpModel>),
    IfElse(Seq<OpModel>, Seq<OpModel>),
}

/// The model of an operation.
pub open spec fn op_model(op: PostScriptOp) -> OpModel
    decreases op,
{
    match op {
        PostScriptOp::Number(number) => OpModel::Number(number),
        PostScriptOp::Operator(instruction) => OpModel::Operator(instruction),
        PostScriptOp::If(body) => OpModel::If(
            Seq::new(
                body@.len(),
                |i: int|
                    if 0 <= i < body@.len() {
                        op_model(body[i])
                    } else {
                        arbitrary()
                    },
            ),
        ),
        PostScriptOp::IfElse(yes, no) => OpModel::IfElse(
            Seq::new(
                yes@.len(),
                |i: int|
                    if 0 <= i < yes@.len() {
                        op_model(yes[i])
                    } else {
                        arbitrary()
                    },
            ),
            Seq::new(
                no@.len(),
                |i: int|
                    if 0 <= i < no@.len() {
                        op_model(no[i])
                    } else {
                        arbitrary()
                    },
            ),
        ),
    }
}

/// The models of operations.
pub open spec fn op_models(ops: Seq<PostScriptOp>) -> Seq<OpModel> {
    Seq::new(ops.len(), |i: int| op_model(ops[i]))
}

pub proof fn lemma_op_models(yes: Vec<PostScriptOp>, no: Vec<PostScriptOp>)
    ensures
        op_model(PostScriptOp::If(yes)) == OpModel::If(op_models(yes@)),
        op_model(PostScriptOp::IfElse(yes, no)) == OpModel::IfElse(
            op_models(yes@),
            op_models(no@),
        ),
{
    let branch = op_model(PostScriptOp::If(yes));
    assert(branch->If_0 =~= op_models(yes@));
    let both = op_model(PostScriptOp::IfElse(yes, no));
    assert(both->IfElse_0 =~= op_models(yes@));
    assert(both->IfElse_1 =~= op_models(no@));
}

/// The operator with a name.
pub open spec fn operator_named(name: Seq<u8>) -> Option<CalculatorInstruction> {
    if spelled(name, "abs"@) {
        Some(CalculatorInstruction::Abs)
    } else if spelled(name, "add"@) {
        Some(CalculatorInstruction::Add)
    } else if spelled(name, "atan"@) {
        Some(CalculatorInstruction::Atan)
    } else if spelled(name, "ceiling"@) {
        Some(CalculatorInstruction::Ceiling)
    } else if spelled(name, "cos"@) {
        Some(CalculatorInstruction::Cos)
    } else if spelled(name, "cvi"@) {
        Some(CalculatorInstruction::Cvi)
    } else if spelled(name, "cvr"@) {
        Some(CalculatorInstruction::Cvr)
    } else if spelled(name, "div"@) {
        Some(CalculatorInstruction::Div)
    } else if spelled(name, "exp"@) {
        Some(CalculatorInstruction::Exp)
    } else if spelled(name, "floor"@) {
        Some(CalculatorInstruction::Floor)
    } else if spelled(name, "idiv"@) {
        Some(CalculatorInstruction::Idiv)
    } else if spelled(name, "ln"@) {
        Some(CalculatorInstruction::Ln)
    } else if spelled(name, "log"@) {
        Some(CalculatorInstruction::Log)
    } else if spelled(name, "mod"@) {
        Some(CalculatorInstruction::Mod)
    } else if spelled(name, "mul"@) {
        Some(CalculatorInstruction::Mul)
    } else if spelled(name, "neg"@) {
        Some(CalculatorInstruction::Neg)
    } else if spelled(name, "round"@) {
        Some(CalculatorInstruction::Round)
    } else if spelled(name, "sin"@) {
        Some(CalculatorInstruction::Sin)
    } else if spelled(name, "sqrt"@) {
        Some(CalculatorInstruction::Sqrt)
    } else if spelled(name, "sub"@) {
        Some(CalculatorInstruction::Sub)
    } else if spelled(name, "truncate"@) {
        Some(CalculatorInstruction::Truncate)
    } else if spelled(name, "and"@) {
        Some(CalculatorInstruction::And)
    } else if spelled(name, "bitshift"@) {
        Some(CalculatorInstruction::Bitshift)
    } else if spelled(name, "eq"@) {
        Some(CalculatorInstruction::Eq)
    } else if spelled(name, "false"@) {
        Some(CalculatorInstruction::False)
    } else if spelled(name, "ge"@) {
        Some(CalculatorInstruction::Ge)
    } else if spelled(name, "gt"@) {
        Some(CalculatorInstruction::Gt)
    } else if spelled(name, "le"@) {
        Some(CalculatorInstruction::Le)
    } else if spelled(name, "lt"@) {
        Some(CalculatorInstruction::Lt)
    } else if spelled(name, "ne"@) {
        Some(CalculatorInstruction::Ne)
    } else if spelled(name, "not"@) {
        Some(CalculatorInstruction::Not)
    } else if spelled(name, "or"@) {
        Some(CalculatorInstruction::Or)
    } else if spelled(name, "true"@) {
        Some(CalculatorInstruction::True)
    } else if spelled(name, "xor"@) {
        Some(CalculatorInstruction::Xor)
    } else if spelled(name, "copy"@) {
        Some(CalculatorInstruction::Copy)
    } else if spelled(name, "dup"@) {
        Some(CalculatorInstruction::Dup)
    } else if spelled(name, "exch"@) {
        Some(CalculatorInstruction::Exch)
    } else if spelled(name, "index"@) {
        Some(CalculatorInstruction::Index)
    } else if spelled(name, "pop"@) {
        Some(CalculatorInstruction::Pop)
    } else if spelled(name, "roll"@) {
        Some(CalculatorInstruction::Roll)
    } else {
        None
    }
}

/// The operator with a name.
fn find_operator(name: &[u8]) -> (operator: Option<CalculatorInstruction>)
    ensures
        operator == operator_named(name@),
        operator matches Some(operator) ==> is_operator(operator),
{
    if spells(name, "abs") {
        Some(CalculatorInstruction::Abs)
    } else if spells(name, "add") {
        Some(CalculatorInstruction::Add)
    } else if spells(name, "atan") {
        Some(CalculatorInstruction::Atan)
    } else if spells(name, "ceiling") {
        Some(CalculatorInstruction::Ceiling)
    } else if spells(name, "cos") {
        Some(CalculatorInstruction::Cos)
    } else if spells(name, "cvi") {
        Some(CalculatorInstruction::Cvi)
    } else if spells(name, "cvr") {
        Some(CalculatorInstruction::Cvr)
    } else if spells(name, "div") {
        Some(CalculatorInstruction::Div)
    } else if spells(name, "exp") {
        Some(CalculatorInstruction::Exp)
    } else if spells(name, "floor") {
        Some(CalculatorInstruction::Floor)
    } else if spells(name, "idiv") {
        Some(CalculatorInstruction::Idiv)
    } else if spells(name, "ln") {
        Some(CalculatorInstruction::Ln)
    } else if spells(name, "log") {
        Some(CalculatorInstruction::Log)
    } else if spells(name, "mod") {
        Some(CalculatorInstruction::Mod)
    } else if spells(name, "mul") {
        Some(CalculatorInstruction::Mul)
    } else if spells(name, "neg") {
        Some(CalculatorInstruction::Neg)
    } else if spells(name, "round") {
        Some(CalculatorInstruction::Round)
    } else if spells(name, "sin") {
        Some(CalculatorInstruction::Sin)
    } else if spells(name, "sqrt") {
        Some(CalculatorInstruction::Sqrt)
    } else if spells(name, "sub") {
        Some(CalculatorInstruction::Sub)
    } else if spells(name, "truncate") {
        Some(CalculatorInstruction::Truncate)
    } else if spells(name, "and") {
        Some(CalculatorInstruction::And)
    } else if spells(name, "bitshift") {
        Some(CalculatorInstruction::Bitshift)
    } else if spells(name, "eq") {
        Some(CalculatorInstruction::Eq)
    } else if spells(name, "false") {
        Some(CalculatorInstruction::False)
    } else if spells(name, "ge") {
        Some(CalculatorInstruction::Ge)
    } else if spells(name, "gt") {
        Some(CalculatorInstruction::Gt)
    } else if spells(name, "le") {
        Some(CalculatorInstruction::Le)
    } else if spells(name, "lt") {
        Some(CalculatorInstruction::Lt)
    } else if spells(name, "ne") {
        Some(CalculatorInstruction::Ne)
    } else if spells(name, "not") {
        Some(CalculatorInstruction::Not)
    } else if spells(name, "or") {
        Some(CalculatorInstruction::Or)
    } else if spells(name, "true") {
        Some(CalculatorInstruction::True)
    } else if spells(name, "xor") {
        Some(CalculatorInstruction::Xor)
    } else if spells(name, "copy") {
        Some(CalculatorInstruction::Copy)
    } else if spells(name, "dup") {
        Some(CalculatorInstruction::Dup)
    } else if spells(name, "exch") {
        Some(CalculatorInstruction::Exch)
    } else if spells(name, "index") {
        Some(CalculatorInstruction::Index)
    } else if spells(name, "pop") {
        Some(CalculatorInstruction::Pop)
    } else if spells(name, "roll") {
        Some(CalculatorInstruction::Roll)
    } else {
        None
    }
}

/// A procedure that was parsed: its operations, the position behind it, and the number of
/// operations so far.
pub struct Parsed {
    pub ops: Seq<OpModel>,
    pub at: int,
    pub count: int,
}

/// An operation that was parsed: the procedures that are still waiting for an operator, and the
/// position behind it.
pub struct ParsedOp {
    pub op: OpModel,
    pub pending: Seq<Seq<OpModel>>,
    pub at: int,
}

/// The operation with a name, given the procedures that wait for it.
pub open spec fn named_op(name: Seq<u8>, pending: Seq<Seq<OpModel>>, at: int) -> Option<ParsedOp> {
    if spelled(name, "if"@) {
        if pending.len() == 0 {
            None
        } else {
            Some(
                ParsedOp {
                    op: OpModel::If(pending.last()),
                    pending: pending.drop_last(),
                    at,
                },
            )
        }
    } else if spelled(name, "ifelse"@) {
        if pending.len() < 2 {
            None
        } else {
            Some(
                ParsedOp {
                    op: OpModel::IfElse(pending[pending.len() - 2], pending.last()),
                    pending: pending.take(pending.len() - 2),
                    at,
                },
            )
        }
    } else {
        match operator_named(name) {
            None => None,
            Some(instruction) => Some(
                ParsedOp { op: OpModel::Operator(instruction), pending, at },
            ),
        }
    }
}

/// Something may come out of reading. Proofs name it by this.
pub open spec fn outcome<T>(read: T) -> bool {
    true
}

/// The operation at a position may be the given one.
///
/// Only a number with many digits behind its point leaves a choice. There is no operation where
/// the digits behind a point are too many to count.
pub open spec fn is_op_at(
    data: Seq<u8>,
    at: int,
    pending: Seq<Seq<OpModel>>,
    result: Option<ParsedOp>,
) -> bool {
    let rest = data.skip(at);
    if fraction_digits(rest) > u32::MAX {
        result is None
    } else {
        match number_token(rest) {
            Some((_, length)) => {
                &&& result matches Some(parsed)
                &&& parsed.op matches OpModel::Number(number)
                &&& may_read(rest, number)
                &&& parsed.pending == pending
                &&& parsed.at == at + length
            },
            None => {
                let run = regular_run(rest);
                if run == 0 {
                    result is None
                } else {
                    result == named_op(operator_name(rest.take(run as int)), pending, at + run)
                }
            },
        }
    }
}

/// The procedure that starts at a position may be the given one.
pub open spec fn is_procedure_at(
    data: Seq<u8>,
    at: int,
    depth: int,
    count: int,
    result: Option<Parsed>,
) -> bool
    decreases data.len() - at, 0nat,
    via is_procedure_at_ends
{
    let start = skip_trivia(data, at);
    if depth > MAX_CALCULATOR_NESTING || at < 0 || start >= data.len() || data[start] != 0x7B {
        result is None
    } else {
        is_rest_at(data, start + 1, depth, count, Seq::empty(), Seq::empty(), result)
    }
}

#[via_fn]
proof fn is_procedure_at_ends(
    data: Seq<u8>,
    at: int,
    depth: int,
    count: int,
    result: Option<Parsed>,
) {
    if 0 <= at <= data.len() {
        lemma_skip_trivia(data, at);
    }
}

/// A procedure whose rest starts at a position may be the given one.
pub open spec fn is_rest_at(
    data: Seq<u8>,
    at: int,
    depth: int,
    count: int,
    pending: Seq<Seq<OpModel>>,
    ops: Seq<OpModel>,
    result: Option<Parsed>,
) -> bool
    decreases data.len() - at, 1nat,
    via is_rest_at_ends
{
    let start = skip_trivia(data, at);
    if at < 0 || start >= data.len() {
        result is None
    } else if data[start] == 0x7D {
        result == Some(Parsed { ops, at: start + 1, count })
    } else if data[start] == 0x7B {
        exists|inner: Option<Parsed>|
            {
                &&& #[trigger] outcome(inner)
                &&& is_procedure_at(data, start, depth + 1, count, inner)
                &&& match inner {
                    None => result is None,
                    Some(inner) => if pending.len() >= 2 || !(start < inner.at <= data.len()) {
                        result is None
                    } else {
                        is_rest_at(
                            data,
                            inner.at,
                            depth,
                            inner.count,
                            pending.push(inner.ops),
                            ops,
                            result,
                        )
                    },
                }
            }
    } else {
        exists|parsed: Option<ParsedOp>|
            {
                &&& #[trigger] is_op_at(data, start, pending, parsed)
                &&& match parsed {
                    None => result is None,
                    Some(parsed) => if count + 1 > MAX_CALCULATOR_OPERATIONS || !(start
                        < parsed.at <= data.len()) {
                        result is None
                    } else {
                        is_rest_at(
                            data,
                            parsed.at,
                            depth,
                            count + 1,
                            parsed.pending,
                            ops.push(parsed.op),
                            result,
                        )
                    },
                }
            }
    }
}

#[via_fn]
proof fn is_rest_at_ends(
    data: Seq<u8>,
    at: int,
    depth: int,
    count: int,
    pending: Seq<Seq<OpModel>>,
    ops: Seq<OpModel>,
    result: Option<Parsed>,
) {
    if 0 <= at <= data.len() {
        lemma_skip_trivia(data, at);
    }
}

/// The operations of a program may be the given ones.
pub open spec fn is_program(data: Seq<u8>, program: Option<Seq<OpModel>>) -> bool {
    exists|parsed: Option<Parsed>|
        {
            &&& #[trigger] is_procedure_at(data, 0, 0, 0, parsed)
            &&& program == match parsed {
                Some(parsed) => Some(parsed.ops),
                None => None,
            }
        }
}

/// No number of a program has too many digits behind its point to be determined by its bytes.
pub open spec fn is_exact_program(data: Seq<u8>) -> bool {
    forall|at: int|
        0 <= at < data.len() ==> fraction_digits(#[trigger] data.skip(at))
            <= MAX_EXACT_FRACTION_DIGITS
}

proof fn lemma_one_procedure(
    data: Seq<u8>,
    at: int,
    depth: int,
    count: int,
    first: Option<Parsed>,
    second: Option<Parsed>,
)
    requires
        is_exact_program(data),
        0 <= at <= data.len(),
        is_procedure_at(data, at, depth, count, first),
        is_procedure_at(data, at, depth, count, second),
    ensures
        first == second,
    decreases data.len() - at, 0nat,
{
    lemma_skip_trivia(data, at);
    let start = skip_trivia(data, at);
    if !(depth > MAX_CALCULATOR_NESTING || start >= data.len() || data[start] != 0x7B) {
        lemma_one_rest(data, start + 1, depth, count, Seq::empty(), Seq::empty(), first, second);
    }
}

proof fn lemma_one_rest(
    data: Seq<u8>,
    at: int,
    depth: int,
    count: int,
    pending: Seq<Seq<OpModel>>,
    ops: Seq<OpModel>,
    first: Option<Parsed>,
    second: Option<Parsed>,
)
    requires
        is_exact_program(data),
        0 <= at <= data.len(),
        is_rest_at(data, at, depth, count, pending, ops, first),
        is_rest_at(data, at, depth, count, pending, ops, second),
    ensures
        first == second,
    decreases data.len() - at, 1nat,
{
    lemma_skip_trivia(data, at);
    let start = skip_trivia(data, at);
    if start >= data.len() || data[start] == 0x7D {
    } else if data[start] == 0x7B {
        let a = choose|inner: Option<Parsed>|
            {
                &&& #[trigger] outcome(inner)
                &&& is_procedure_at(data, start, depth + 1, count, inner)
                &&& match inner {
                    None => first is None,
                    Some(inner) => if pending.len() >= 2 || !(start < inner.at <= data.len()) {
                        first is None
                    } else {
                        is_rest_at(
                            data,
                            inner.at,
                            depth,
                            inner.count,
                            pending.push(inner.ops),
                            ops,
                            first,
                        )
                    },
                }
            };
        let b = choose|inner: Option<Parsed>|
            {
                &&& #[trigger] outcome(inner)
                &&& is_procedure_at(data, start, depth + 1, count, inner)
                &&& match inner {
                    None => second is None,
                    Some(inner) => if pending.len() >= 2 || !(start < inner.at <= data.len()) {
                        second is None
                    } else {
                        is_rest_at(
                            data,
                            inner.at,
                            depth,
                            inner.count,
                            pending.push(inner.ops),
                            ops,
                            second,
                        )
                    },
                }
            };
        lemma_one_procedure(data, start, depth + 1, count, a, b);
        if let Some(inner) = a {
            if pending.len() < 2 && start < inner.at <= data.len() {
                lemma_one_rest(
                    data,
                    inner.at,
                    depth,
                    inner.count,
                    pending.push(inner.ops),
                    ops,
                    first,
                    second,
                );
            }
        }
    } else {
        let a = choose|parsed: Option<ParsedOp>|
            {
                &&& #[trigger] is_op_at(data, start, pending, parsed)
                &&& match parsed {
                    None => first is None,
                    Some(parsed) => if count + 1 > MAX_CALCULATOR_OPERATIONS || !(start
                        < parsed.at <= data.len()) {
                        first is None
                    } else {
                        is_rest_at(
                            data,
                            parsed.at,
                            depth,
                            count + 1,
                            parsed.pending,
                            ops.push(parsed.op),
                            first,
                        )
                    },
                }
            };
        let b = choose|parsed: Option<ParsedOp>|
            {
                &&& #[trigger] is_op_at(data, start, pending, parsed)
                &&& match parsed {
                    None => second is None,
                    Some(parsed) => if count + 1 > MAX_CALCULATOR_OPERATIONS || !(start
                        < parsed.at <= data.len()) {
                        second is None
                    } else {
                        is_rest_at(
                            data,
                            parsed.at,
                            depth,
                            count + 1,
                            parsed.pending,
                            ops.push(parsed.op),
                            second,
                        )
                    },
                }
            };
        assert(fraction_digits(data.skip(start)) <= MAX_EXACT_FRACTION_DIGITS);
        assert(a == b);
        if let Some(parsed) = a {
            if count + 1 <= MAX_CALCULATOR_OPERATIONS && start < parsed.at <= data.len() {
                lemma_one_rest(
                    data,
                    parsed.at,
                    depth,
                    count + 1,
                    parsed.pending,
                    ops.push(parsed.op),
                    first,
                    second,
                );
            }
        }
    }
}

/// The bytes of a program determine its operations, unless a number has too many digits behind
/// its point.
pub proof fn lemma_one_program(
    data: Seq<u8>,
    first: Option<Seq<OpModel>>,
    second: Option<Seq<OpModel>>,
)
    requires
        is_exact_program(data),
        is_program(data, first),
        is_program(data, second),
    ensures
        first == second,
{
    let a = choose|parsed: Option<Parsed>|
        {
            &&& #[trigger] is_procedure_at(data, 0, 0, 0, parsed)
            &&& first == match parsed {
                Some(parsed) => Some(parsed.ops),
                None => None,
            }
        };
    let b = choose|parsed: Option<Parsed>|
        {
            &&& #[trigger] is_procedure_at(data, 0, 0, 0, parsed)
            &&& second == match parsed {
                Some(parsed) => Some(parsed.ops),
                None => None,
            }
        };
    lemma_one_procedure(data, 0, 0, 0, a, b);
}

/// The procedures that wait for an operator.
type ParseStack = ArgumentsStack<Vec<PostScriptOp>, 2>;

spec fn pending_models(pending: Seq<Vec<PostScriptOp>>) -> Seq<Seq<OpModel>> {
    Seq::new(pending.len(), |i: int| op_models(pending[i]@))
}

/// The operation with a name.
fn build_named(name: &[u8], pending: &mut ParseStack) -> (op: Option<PostScriptOp>)
    ensures
        forall|at: int|
            match (#[trigger] named_op(name@, pending_models(old(pending)@), at)) {
                None => op is None,
                Some(parsed) => {
                    &&& op matches Some(built)
                    &&& op_model(built) == parsed.op
                    &&& pending_models(final(pending)@) == parsed.pending
                    &&& parsed.at == at
                },
            },
{
    let ghost before = pending@;
    if spells(name, "if") {
        match pending.pop() {
            None => None,
            Some(body) => {
                proof {
                    lemma_op_models(body, body);
                    assert(pending_models(pending@) =~= pending_models(before).drop_last());
                    assert(pending_models(before).last() == op_models(body@));
                }
                Some(PostScriptOp::If(body))
            },
        }
    } else if spells(name, "ifelse") {
        let no = match pending.pop() {
            None => {
                return None;
            },
            Some(no) => no,
        };
        match pending.pop() {
            None => None,
            Some(yes) => {
                proof {
                    lemma_op_models(yes, no);
                    let models = pending_models(before);
                    assert(models.last() == op_models(no@));
                    assert(models[models.len() - 2] == op_models(yes@));
                    assert(pending_models(pending@) =~= models.take(models.len() - 2));
                }
                Some(PostScriptOp::IfElse(yes, no))
            },
        }
    } else {
        match find_operator(name) {
            None => None,
            Some(instruction) => Some(PostScriptOp::Operator(instruction)),
        }
    }
}

/// Parse the operation at a position.
fn parse_op(data: &[u8], at: usize, pending: &mut ParseStack) -> (result: Option<
    (PostScriptOp, usize),
>)
    requires
        at < data@.len(),
    ensures
        is_op_at(
            data@,
            at as int,
            pending_models(old(pending)@),
            match result {
                Some((op, end)) => Some(
                    ParsedOp {
                        op: op_model(op),
                        pending: pending_models(final(pending)@),
                        at: end as int,
                    },
                ),
                None => None,
            },
        ),
        result matches Some((_, end)) ==> at < end <= data@.len(),
{
    let rest = vstd::slice::slice_subrange(data, at, data.len());
    assert(rest@ =~= data@.skip(at as int));
    if !has_countable_fraction(rest) {
        return None;
    }
    match read_number(rest) {
        Some((number, length)) => Some((PostScriptOp::Number(number), at + length)),
        None => {
            proof {
                lemma_regular_run(rest@);
            }
            match read_operator(rest) {
                None => None,
                Some((name, length)) => {
                    let ghost pending_before = pending_models(pending@);
                    let ghost expected = named_op(name@, pending_before, at + length);
                    match build_named(name.as_slice(), pending) {
                        None => None,
                        Some(op) => Some((op, at + length)),
                    }
                },
            }
        },
    }
}

/// The model of a procedure that was parsed.
spec fn parsed_model(result: Option<(Vec<PostScriptOp>, usize, usize)>) -> Option<Parsed> {
    match result {
        Some((ops, at, count)) => Some(
            Parsed { ops: op_models(ops@), at: at as int, count: count as int },
        ),
        None => None,
    }
}

/// Parse a procedure, its operations, the position behind it, and the number of operations.
fn parse_procedure_inner(data: &[u8], start: usize, depth: usize, operations: usize) -> (result:
    Option<(Vec<PostScriptOp>, usize, usize)>)
    requires
        start <= data@.len(),
        depth <= MAX_CALCULATOR_NESTING + 1,
        operations <= MAX_CALCULATOR_OPERATIONS,
    ensures
        is_procedure_at(
            data@,
            start as int,
            depth as int,
            operations as int,
            parsed_model(result),
        ),
        result matches Some((_, end, count)) ==> start < end <= data@.len() && count
            <= MAX_CALCULATOR_OPERATIONS,
    decreases data@.len() - start, 0nat,
{
    if depth > MAX_CALCULATOR_NESTING {
        return None;
    }
    let mut at: usize = skip_white_spaces_and_comments(data, start);
    if at >= data.len() || data[at] != 0x7B {
        return None;
    }
    at = at + 1;
    let mut pending: ParseStack = ArgumentsStack::new();
    let mut ops: Vec<PostScriptOp> = Vec::new();
    let mut count: usize = operations;
    proof {
        assert(pending_models(pending@) =~= Seq::empty());
        assert(op_models(ops@) =~= Seq::empty());
    }
    loop
        invariant
            start < at <= data@.len(),
            depth <= MAX_CALCULATOR_NESTING,
            count <= MAX_CALCULATOR_OPERATIONS,
            forall|result: Option<Parsed>| #[trigger]
                is_rest_at(
                    data@,
                    at as int,
                    depth as int,
                    count as int,
                    pending_models(pending@),
                    op_models(ops@),
                    result,
                ) ==> is_procedure_at(
                    data@,
                    start as int,
                    depth as int,
                    operations as int,
                    result,
                ),
        decreases data@.len() - at,
    {
        let ghost waiting = pending_models(pending@);
        let ghost counted = count as int;
        let ghost from = at as int;
        let ghost done = op_models(ops@);
        let place: usize = skip_white_spaces_and_comments(data, at);
        if place >= data.len() {
            assert(is_rest_at(
                data@,
                at as int,
                depth as int,
                count as int,
                pending_models(pending@),
                op_models(ops@),
                None,
            ));
            return None;
        }
        if data[place] == 0x7D {
            assert(is_rest_at(
                data@,
                at as int,
                depth as int,
                count as int,
                pending_models(pending@),
                op_models(ops@),
                Some(Parsed { ops: op_models(ops@), at: place + 1, count: count as int }),
            ));
            return Some((ops, place + 1, count));
        }
        if data[place] == 0x7B {
            let inner = parse_procedure_inner(data, place, depth + 1, count);
            assert(outcome(parsed_model(inner)));
            match inner {
                None => {
                    assert(is_rest_at(
                        data@,
                        at as int,
                        depth as int,
                        counted,
                        waiting,
                        op_models(ops@),
                        None,
                    ));
                    return None;
                },
                Some((inner, end, total)) => {
                    let ghost before = pending@;
                    match pending.push(inner) {
                        None => {
                            assert(is_rest_at(
                                data@,
                                at as int,
                                depth as int,
                                counted,
                                waiting,
                                op_models(ops@),
                                None,
                            ));
                            return None;
                        },
                        Some(()) => {},
                    }
                    assert(pending_models(pending@) =~= pending_models(before).push(
                        op_models(inner@),
                    ));
                    at = end;
                    count = total;
                },
            }
        } else {
            match parse_op(data, place, &mut pending) {
                None => {
                    assert(is_rest_at(
                        data@,
                        at as int,
                        depth as int,
                        counted,
                        waiting,
                        op_models(ops@),
                        None,
                    ));
                    return None;
                },
                Some((op, end)) => {
                    if count == MAX_CALCULATOR_OPERATIONS {
                        assert(is_rest_at(
                            data@,
                            at as int,
                            depth as int,
                            counted,
                            waiting,
                            op_models(ops@),
                            None,
                        ));
                        return None;
                    }
                    count = count + 1;
                    let ghost before = ops@;
                    ops.push(op);
                    assert(op_models(ops@) =~= op_models(before).push(op_model(op)));
                    at = end;
                },
            }
        }
        assert forall|result: Option<Parsed>| #[trigger]
            is_rest_at(
                data@,
                at as int,
                depth as int,
                count as int,
                pending_models(pending@),
                op_models(ops@),
                result,
            ) implies is_rest_at(
            data@,
            from,
            depth as int,
            counted,
            waiting,
            done,
            result,
        ) by {}
    }
}

/// The model of a program.
pub open spec fn program_model(program: Option<Vec<PostScriptOp>>) -> Option<Seq<OpModel>> {
    match program {
        Some(ops) => Some(op_models(ops@)),
        None => None,
    }
}

/// Parse a program.
pub fn parse_procedure(data: &[u8]) -> (program: Option<Vec<PostScriptOp>>)
    ensures
        is_program(data@, program_model(program)),
{
    match parse_procedure_inner(data, 0, 0, 0) {
        None => None,
        Some((ops, _, _)) => Some(ops),
    }
}

} // verus!
