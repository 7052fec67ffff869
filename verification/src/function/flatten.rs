//! Flattening calculator programs into forward jumps.

use crate::function::argument::{number_argument, Argument, RealCall};
use crate::function::evaluate::{evaluated, pushed, step};
use crate::function::instruction::{is_operator, CalculatorInstruction};
use crate::function::program::{
    is_op_at, is_procedure_at, is_program, is_rest_at, lemma_op_models, op_model, op_models, outcome,
    OpModel, Parsed, ParsedOp, PostScriptOp,
};
use crate::function::tokens::{lemma_skip_trivia, skip_trivia};
use vstd::prelude::*;

verus! {

/// The greatest number of instructions of a flattened program.
pub const MAX_INSTRUCTIONS: usize = 32_768;

/// Every number of an operation can be pushed, and every operator is one.
pub open spec fn op_valid(op: OpModel) -> bool
    decreases op, 0nat,
{
    match op {
        OpModel::Number(number) => number_argument(number) is Some,
        OpModel::Operator(operator) => true,
        OpModel::If(body) => ops_valid(body, body.len()),
        OpModel::IfElse(yes, no) => ops_valid(yes, yes.len()) && ops_valid(no, no.len()),
    }
}

/// Every number of the first `count` operations can be pushed.
pub open spec fn ops_valid(ops: Seq<OpModel>, count: nat) -> bool
    decreases ops, count,
{
    if count == 0 || count > ops.len() {
        true
    } else {
        ops_valid(ops, (count - 1) as nat) && op_valid(ops[count - 1])
    }
}

/// The instruction that pushes a number.
pub open spec fn number_instruction(number: crate::object::Number) -> CalculatorInstruction {
    match number_argument(number) {
        Some(Argument::Integer(v)) => CalculatorInstruction::Integer(v),
        Some(Argument::Float(bits)) => CalculatorInstruction::Number(bits),
        _ => CalculatorInstruction::Pop,
    }
}

/// The instructions of an operation that stand from the place `at` on.
pub open spec fn flat_op(op: OpModel, at: nat) -> Seq<CalculatorInstruction>
    decreases op, 0nat,
{
    match op {
        OpModel::Number(number) => seq![number_instruction(number)],
        OpModel::Operator(operator) => seq![operator],
        OpModel::If(body) => {
            let inner = flat(body, body.len(), at + 1);
            seq![CalculatorInstruction::JumpIfFalse((at + 1 + inner.len()) as u32)] + inner
        },
        OpModel::IfElse(yes, no) => {
            let first = flat(yes, yes.len(), at + 1);
            let second = flat(no, no.len(), at + 2 + first.len());
            seq![CalculatorInstruction::JumpIfFalse((at + 2 + first.len()) as u32)] + first + seq![
                CalculatorInstruction::Jump((at + 2 + first.len() + second.len()) as u32),
            ] + second
        },
    }
}

/// The instructions of the first `count` operations that stand from the place `at` on.
pub open spec fn flat(ops: Seq<OpModel>, count: nat, at: nat) -> Seq<CalculatorInstruction>
    decreases ops, count,
{
    if count == 0 || count > ops.len() {
        Seq::empty()
    } else {
        let before = flat(ops, (count - 1) as nat, at);
        before + flat_op(ops[count - 1], at + before.len())
    }
}

/// The instructions of a program.
pub open spec fn flattened(ops: Seq<OpModel>) -> Option<Seq<CalculatorInstruction>> {
    let instructions = flat(ops, ops.len(), 0);
    if ops_valid(ops, ops.len()) && instructions.len() <= MAX_INSTRUCTIONS {
        Some(instructions)
    } else {
        None
    }
}

proof fn lemma_flat_grows(ops: Seq<OpModel>, count: nat, more: nat, at: nat)
    requires
        count <= more <= ops.len(),
    ensures
        flat(ops, count, at).len() <= flat(ops, more, at).len(),
        ops_valid(ops, more) ==> ops_valid(ops, count),
    decreases more,
{
    if count < more {
        lemma_flat_grows(ops, count, (more - 1) as nat, at);
    }
}

/// Push an instruction, unless there are too many.
fn emit(instructions: &mut Vec<CalculatorInstruction>, instruction: CalculatorInstruction) -> (ok:
    bool)
    requires
        old(instructions)@.len() <= MAX_INSTRUCTIONS,
    ensures
        final(instructions)@ == old(instructions)@.push(instruction),
        ok == (final(instructions)@.len() <= MAX_INSTRUCTIONS),
{
    instructions.push(instruction);
    instructions.len() <= MAX_INSTRUCTIONS
}

/// Append the instructions of an operation.
fn flatten_op(op: &PostScriptOp, instructions: &mut Vec<CalculatorInstruction>) -> (result: Option<
    (),
>)
    requires
        old(instructions)@.len() <= MAX_INSTRUCTIONS,
    ensures
        ({
            let added = flat_op(op_model(*op), old(instructions)@.len());
            match result {
                Some(_) => {
                    &&& op_valid(op_model(*op))
                    &&& final(instructions)@ == old(instructions)@ + added
                    &&& final(instructions)@.len() <= MAX_INSTRUCTIONS
                },
                None => !op_valid(op_model(*op)) || old(instructions)@.len() + added.len()
                    > MAX_INSTRUCTIONS,
            }
        }),
    decreases *op, 1nat,
{
    let ghost start = instructions@;
    match op {
        PostScriptOp::Number(number) => {
            let instruction = match Argument::from_number(*number) {
                Some(Argument::Integer(value)) => CalculatorInstruction::Integer(value),
                Some(Argument::Float(bits)) => CalculatorInstruction::Number(bits),
                _ => {
                    return None;
                },
            };
            let fits = emit(instructions, instruction);
            assert(instructions@ =~= start + seq![instruction]);
            if fits {
                Some(())
            } else {
                None
            }
        },
        PostScriptOp::Operator(operator) => {
            let fits = emit(instructions, *operator);
            assert(instructions@ =~= start + seq![*operator]);
            if fits {
                Some(())
            } else {
                None
            }
        },
        PostScriptOp::If(body) => {
            proof {
                lemma_op_models(*body, *body);
                assert(OpModel::If(op_models(body@))->If_0 == op_models(body@));
            }
            let ghost inner = flat(op_models(body@), body@.len(), start.len() + 1);
            let branch: usize = instructions.len();
            if !emit(instructions, CalculatorInstruction::JumpIfFalse(0)) {
                return None;
            }
            match flatten_program(body, instructions) {
                None => {
                    return None;
                },
                Some(()) => {},
            }
            let target: u32 = instructions.len() as u32;
            instructions.set(branch, CalculatorInstruction::JumpIfFalse(target));
            assert(instructions@ =~= start + (seq![CalculatorInstruction::JumpIfFalse(target)]
                + inner));
            Some(())
        },
        PostScriptOp::IfElse(yes, no) => {
            proof {
                lemma_op_models(*yes, *no);
                let both = OpModel::IfElse(op_models(yes@), op_models(no@));
                assert(both->IfElse_0 == op_models(yes@));
                assert(both->IfElse_1 == op_models(no@));
            }
            let ghost first = flat(op_models(yes@), yes@.len(), start.len() + 1);
            let ghost second = flat(op_models(no@), no@.len(), start.len() + 2 + first.len());
            let branch: usize = instructions.len();
            if !emit(instructions, CalculatorInstruction::JumpIfFalse(0)) {
                return None;
            }
            match flatten_program(yes, instructions) {
                None => {
                    return None;
                },
                Some(()) => {},
            }
            let jump: usize = instructions.len();
            let ghost before_jump = instructions@;
            if !emit(instructions, CalculatorInstruction::Jump(0)) {
                return None;
            }
            let else_target: u32 = instructions.len() as u32;
            instructions.set(branch, CalculatorInstruction::JumpIfFalse(else_target));
            let ghost before_else = instructions@;
            match flatten_program(no, instructions) {
                None => {
                    return None;
                },
                Some(()) => {},
            }
            let end_target: u32 = instructions.len() as u32;
            instructions.set(jump, CalculatorInstruction::Jump(end_target));
            assert(instructions@ =~= start + (seq![
                CalculatorInstruction::JumpIfFalse(else_target),
            ] + first + seq![CalculatorInstruction::Jump(end_target)] + second));
            Some(())
        },
    }
}

/// Append the instructions of a program.
pub fn flatten_program(program: &Vec<PostScriptOp>, instructions: &mut Vec<CalculatorInstruction>) -> (
result: Option<()>)
    requires
        old(instructions)@.len() <= MAX_INSTRUCTIONS,
    ensures
        ({
            let ops = op_models(program@);
            let added = flat(ops, ops.len(), old(instructions)@.len());
            match result {
                Some(_) => {
                    &&& ops_valid(ops, ops.len())
                    &&& final(instructions)@ == old(instructions)@ + added
                    &&& final(instructions)@.len() <= MAX_INSTRUCTIONS
                },
                None => !ops_valid(ops, ops.len()) || old(instructions)@.len() + added.len()
                    > MAX_INSTRUCTIONS,
            }
        }),
    decreases *program, 0nat,
{
    let ghost ops = op_models(program@);
    let ghost start = instructions@;
    let mut i: usize = 0;
    assert(start + flat(ops, 0, start.len()) =~= start);
    while i < program.len()
        invariant
            i <= program@.len(),
            ops == op_models(program@),
            start == old(instructions)@,
            ops_valid(ops, i as nat),
            instructions@ == start + flat(ops, i as nat, start.len()),
            instructions@.len() <= MAX_INSTRUCTIONS,
        decreases program@.len() - i,
    {
        assert(ops[i as int] == op_model(program@[i as int]));
        assert(decreases_to!(*program => program@[i as int]));
        let ghost before = instructions@;
        match flatten_op(&program[i], instructions) {
            None => {
                proof {
                    lemma_flat_grows(ops, (i + 1) as nat, ops.len(), start.len());
                }
                return None;
            },
            Some(()) => {},
        }
        assert(instructions@ =~= start + flat(ops, (i + 1) as nat, start.len()));
        i = i + 1;
    }
    Some(())
}

/// Flatten a program.
///
/// Jumps of a program that was parsed lead forwards, and its instructions do what it does.
pub fn flatten(program: &Vec<PostScriptOp>) -> (instructions: Option<Vec<CalculatorInstruction>>)
    ensures
        match flattened(op_models(program@)) {
            None => instructions is None,
            Some(expected) => instructions matches Some(given) && given@ == expected,
        },
        instructions matches Some(given) ==> (ops_proper(op_models(program@), program@.len()) ==> {
            &&& forall|at: int|
                0 <= at < given@.len() ==> #[trigger] jumps_forward(
                    given@,
                    at,
                    given@.len() as int,
                )
            &&& forall|stack: Seq<Argument>, compute: spec_fn(RealCall) -> u32| #[trigger]
                executed(given@, 0, stack, compute) == evaluated(
                    op_models(program@),
                    0,
                    stack,
                    compute,
                )
        }),
{
    let mut instructions: Vec<CalculatorInstruction> = Vec::new();
    match flatten_program(program, &mut instructions) {
        None => None,
        Some(()) => {
            assert(instructions@ =~= flat(op_models(program@), program@.len(), 0));
            proof {
                let ops = op_models(program@);
                if ops_proper(ops, ops.len()) {
                    lemma_flattened_jumps(ops);
                    assert forall|stack: Seq<Argument>, compute: spec_fn(RealCall) -> u32| #[trigger]
                        executed(instructions@, 0, stack, compute) == evaluated(
                            ops,
                            0,
                            stack,
                            compute,
                        ) by {
                        lemma_flattened_runs(ops, stack, compute);
                    }
                }
            }
            Some(instructions)
        },
    }
}

/// All operators of an operation are operators.
pub open spec fn op_proper(op: OpModel) -> bool
    decreases op, 0nat,
{
    match op {
        OpModel::Number(_) => true,
        OpModel::Operator(operator) => is_operator(operator),
        OpModel::If(body) => ops_proper(body, body.len()),
        OpModel::IfElse(yes, no) => ops_proper(yes, yes.len()) && ops_proper(no, no.len()),
    }
}

/// All operators of the first `count` operations are operators.
pub open spec fn ops_proper(ops: Seq<OpModel>, count: nat) -> bool
    decreases ops, count,
{
    if count == 0 || count > ops.len() {
        true
    } else {
        ops_proper(ops, (count - 1) as nat) && op_proper(ops[count - 1])
    }
}

/// What instructions from a place on make of the operands.
pub open spec fn executed(
    instructions: Seq<CalculatorInstruction>,
    at: nat,
    stack: Seq<Argument>,
    compute: spec_fn(RealCall) -> u32,
) -> Option<Seq<Argument>>
    decreases instructions.len() - at,
{
    if at >= instructions.len() {
        Some(stack)
    } else {
        match instructions[at as int] {
            CalculatorInstruction::JumpIfFalse(target) => if stack.len() == 0 {
                None
            } else {
                match stack.last() {
                    Argument::Bool(condition) => if condition {
                        executed(instructions, at + 1, stack.drop_last(), compute)
                    } else if at < target <= instructions.len() {
                        executed(instructions, target as nat, stack.drop_last(), compute)
                    } else {
                        None
                    },
                    _ => None,
                }
            },
            CalculatorInstruction::Jump(target) => if at < target <= instructions.len() {
                executed(instructions, target as nat, stack, compute)
            } else {
                None
            },
            CalculatorInstruction::Integer(v) => match pushed(stack, Argument::Integer(v)) {
                None => None,
                Some(next) => executed(instructions, at + 1, next, compute),
            },
            CalculatorInstruction::Number(bits) => match pushed(stack, Argument::Float(bits)) {
                None => None,
                Some(next) => executed(instructions, at + 1, next, compute),
            },
            op => match step(op, stack, compute) {
                None => None,
                Some(next) => executed(instructions, at + 1, next, compute),
            },
        }
    }
}

/// The rest of a run after operands were computed.
spec fn continued(
    instructions: Seq<CalculatorInstruction>,
    at: nat,
    stack: Option<Seq<Argument>>,
    compute: spec_fn(RealCall) -> u32,
) -> Option<Seq<Argument>> {
    match stack {
        None => None,
        Some(stack) => executed(instructions, at, stack, compute),
    }
}

proof fn lemma_prefix(ops: Seq<OpModel>, count: nat, more: nat)
    requires
        count <= more <= ops.len(),
        ops_valid(ops, more),
        ops_proper(ops, more),
    ensures
        ops_valid(ops, count),
        ops_proper(ops, count),
    decreases more,
{
    if count < more {
        lemma_prefix(ops, count, (more - 1) as nat);
    }
}

/// The instructions of a prefix are a prefix of the instructions.
proof fn lemma_flat_prefix(ops: Seq<OpModel>, count: nat, more: nat, at: nat)
    requires
        count <= more <= ops.len(),
    ensures
        flat(ops, count, at).len() <= flat(ops, more, at).len(),
        flat(ops, more, at).take(flat(ops, count, at).len() as int) =~= flat(ops, count, at),
    decreases more,
{
    if count < more {
        lemma_flat_prefix(ops, count, (more - 1) as nat, at);
    }
}

/// Code stands at a place of the instructions.
spec fn stands_at(
    instructions: Seq<CalculatorInstruction>,
    code: Seq<CalculatorInstruction>,
    at: nat,
) -> bool {
    &&& at + code.len() <= instructions.len()
    &&& forall|k: int| 0 <= k < code.len() ==> instructions[at + k] == #[trigger] code[k]
}

/// Running the instructions of a block runs its operations, then what stands behind it.
proof fn lemma_block(
    instructions: Seq<CalculatorInstruction>,
    ops: Seq<OpModel>,
    i: nat,
    at: nat,
    stack: Seq<Argument>,
    compute: spec_fn(RealCall) -> u32,
)
    requires
        i <= ops.len(),
        ops_valid(ops, ops.len()),
        ops_proper(ops, ops.len()),
        instructions.len() <= u32::MAX,
        stands_at(instructions, flat(ops, ops.len(), at), at),
    ensures
        executed(instructions, at + flat(ops, i, at).len(), stack, compute) == continued(
            instructions,
            at + flat(ops, ops.len(), at).len(),
            evaluated(ops, i, stack, compute),
            compute,
        ),
    decreases ops, ops.len() - i,
{
    if i < ops.len() {
        let all = flat(ops, ops.len(), at);
        let before = flat(ops, i, at);
        let place = at + before.len();
        let code = flat_op(ops[i as int], place);
        lemma_flat_prefix(ops, i + 1, ops.len(), at);
        lemma_prefix(ops, i + 1, ops.len());
        let next = flat(ops, i + 1, at);
        assert(next == before + code);
        assert(stands_at(instructions, code, place)) by {
            assert forall|k: int| 0 <= k < code.len() implies instructions[place + k]
                == #[trigger] code[k] by {
                assert(next[before.len() + k] == code[k]);
                assert(all.take(next.len() as int)[before.len() + k] == next[before.len() + k]);
                assert(all[before.len() + k] == code[k]);
            }
        }
        lemma_op(instructions, ops[i as int], place, stack, compute);
        let after = op_evaluated(ops[i as int], stack, compute);
        if let Some(operands) = after {
            lemma_block(instructions, ops, i + 1, at, operands, compute);
        }
    }
}

/// What an operation makes of the operands.
spec fn op_evaluated(
    op: OpModel,
    stack: Seq<Argument>,
    compute: spec_fn(RealCall) -> u32,
) -> Option<Seq<Argument>> {
    match op {
        OpModel::Number(number) => match number_argument(number) {
            None => None,
            Some(a) => pushed(stack, a),
        },
        OpModel::Operator(op) => step(op, stack, compute),
        OpModel::If(body) => if stack.len() == 0 {
            None
        } else {
            match stack.last() {
                Argument::Bool(condition) => if condition {
                    evaluated(body, 0, stack.drop_last(), compute)
                } else {
                    Some(stack.drop_last())
                },
                _ => None,
            }
        },
        OpModel::IfElse(yes, no) => if stack.len() == 0 {
            None
        } else {
            match stack.last() {
                Argument::Bool(condition) => if condition {
                    evaluated(yes, 0, stack.drop_last(), compute)
                } else {
                    evaluated(no, 0, stack.drop_last(), compute)
                },
                _ => None,
            }
        },
    }
}

/// Running the instructions of an operation applies it.
proof fn lemma_op(
    instructions: Seq<CalculatorInstruction>,
    op: OpModel,
    at: nat,
    stack: Seq<Argument>,
    compute: spec_fn(RealCall) -> u32,
)
    requires
        op_valid(op),
        op_proper(op),
        instructions.len() <= u32::MAX,
        stands_at(instructions, flat_op(op, at), at),
    ensures
        executed(instructions, at, stack, compute) == continued(
            instructions,
            at + flat_op(op, at).len(),
            op_evaluated(op, stack, compute),
            compute,
        ),
    decreases op, 0nat,
{
    let code = flat_op(op, at);
    match op {
        OpModel::Number(number) => {
            assert(code[0] == number_instruction(number));
        },
        OpModel::Operator(operator) => {
            assert(code[0] == operator);
        },
        OpModel::If(body) => {
            let inner = flat(body, body.len(), at + 1);
            assert(code[0] == CalculatorInstruction::JumpIfFalse((at + 1 + inner.len()) as u32));
            assert(stands_at(instructions, inner, at + 1)) by {
                assert forall|k: int| 0 <= k < inner.len() implies instructions[at + 1 + k]
                    == #[trigger] inner[k] by {
                    assert(code[1 + k] == inner[k]);
                }
            }
            if stack.len() > 0 && stack.last() == Argument::Bool(true) {
                lemma_block(instructions, body, 0, at + 1, stack.drop_last(), compute);
                assert(flat(body, 0, at + 1).len() == 0);
            }
        },
        OpModel::IfElse(yes, no) => {
            let first = flat(yes, yes.len(), at + 1);
            let second = flat(no, no.len(), at + 2 + first.len());
            let jump = 1 + first.len() as int;
            assert(code.len() == 2 + first.len() + second.len());
            assert(code[0] == CalculatorInstruction::JumpIfFalse((at + 2 + first.len()) as u32));
            assert(code[jump] == CalculatorInstruction::Jump(
                (at + 2 + first.len() + second.len()) as u32,
            ));
            assert(instructions[at + jump] == code[jump]);
            assert(stands_at(instructions, first, at + 1)) by {
                assert forall|k: int| 0 <= k < first.len() implies instructions[at + 1 + k]
                    == #[trigger] first[k] by {
                    assert(code[1 + k] == first[k]);
                }
            }
            assert(stands_at(instructions, second, at + 2 + first.len())) by {
                assert forall|k: int| 0 <= k < second.len() implies instructions[at + 2
                    + first.len() + k] == #[trigger] second[k] by {
                    assert(code[2 + first.len() + k] == second[k]);
                }
            }
            if stack.len() > 0 {
                if stack.last() == Argument::Bool(true) {
                    lemma_block(instructions, yes, 0, at + 1, stack.drop_last(), compute);
                    assert(flat(yes, 0, at + 1).len() == 0);
                } else if stack.last() == Argument::Bool(false) {
                    lemma_block(
                        instructions,
                        no,
                        0,
                        at + 2 + first.len(),
                        stack.drop_last(),
                        compute,
                    );
                    assert(flat(no, 0, at + 2 + first.len()).len() == 0);
                }
            }
        },
    }
}

/// A flattened program does what the program does.
pub proof fn lemma_flattened_runs(
    ops: Seq<OpModel>,
    stack: Seq<Argument>,
    compute: spec_fn(RealCall) -> u32,
)
    requires
        flattened(ops) is Some,
        ops_proper(ops, ops.len()),
    ensures
        executed(flattened(ops)->0, 0, stack, compute) == evaluated(ops, 0, stack, compute),
{
    let instructions = flattened(ops)->0;
    lemma_block(instructions, ops, 0, 0, stack, compute);
    assert(flat(ops, 0, 0).len() == 0);
}

/// The procedures that wait for an operator only hold operators that are operators.
spec fn pending_proper(pending: Seq<Seq<OpModel>>) -> bool {
    forall|i: int|
        0 <= i < pending.len() ==> ops_proper(#[trigger] pending[i], pending[i].len())
}

proof fn lemma_proper_push(ops: Seq<OpModel>, op: OpModel, count: nat)
    requires
        count <= ops.len(),
        ops_proper(ops, ops.len()),
        op_proper(op),
    ensures
        ops_proper(ops.push(op), count) == ops_proper(ops, count),
        ops_proper(ops.push(op), ops.push(op).len()),
    decreases count,
{
    lemma_proper_prefix(ops, op, ops.len());
    if count > 0 {
        lemma_proper_push(ops, op, (count - 1) as nat);
        assert(ops.push(op)[count - 1] == ops[count - 1]);
    }
    assert(ops.push(op)[ops.len() as int] == op);
}

proof fn lemma_proper_prefix(ops: Seq<OpModel>, op: OpModel, count: nat)
    requires
        count <= ops.len(),
    ensures
        ops_proper(ops.push(op), count) == ops_proper(ops, count),
    decreases count,
{
    if count > 0 {
        lemma_proper_prefix(ops, op, (count - 1) as nat);
        assert(ops.push(op)[count - 1] == ops[count - 1]);
    }
}

proof fn lemma_parsed_proper(
    data: Seq<u8>,
    at: int,
    depth: int,
    count: int,
    pending: Seq<Seq<OpModel>>,
    ops: Seq<OpModel>,
    parsed: Parsed,
)
    requires
        0 <= at <= data.len(),
        pending_proper(pending),
        ops_proper(ops, ops.len()),
        is_rest_at(data, at, depth, count, pending, ops, Some(parsed)),
    ensures
        ops_proper(parsed.ops, parsed.ops.len()),
    decreases data.len() - at, 1nat,
{
    lemma_skip_trivia(data, at);
    let start = skip_trivia(data, at);
    if data[start] == 0x7B {
        let inner = choose|inner: Option<Parsed>|
            {
                &&& #[trigger] outcome(inner)
                &&& is_procedure_at(data, start, depth + 1, count, inner)
                &&& inner matches Some(inner)
                &&& pending.len() < 2
                &&& start < inner.at <= data.len()
                &&& is_rest_at(
                    data,
                    inner.at,
                    depth,
                    inner.count,
                    pending.push(inner.ops),
                    ops,
                    Some(parsed),
                )
            };
        let inner = inner->0;
        lemma_procedure_proper(data, start, depth + 1, count, inner);
        lemma_parsed_proper(
            data,
            inner.at,
            depth,
            inner.count,
            pending.push(inner.ops),
            ops,
            parsed,
        );
    } else if data[start] != 0x7D {
        let next = choose|next: Option<ParsedOp>|
            {
                &&& #[trigger] is_op_at(data, start, pending, next)
                &&& next matches Some(next)
                &&& start < next.at <= data.len()
                &&& is_rest_at(
                    data,
                    next.at,
                    depth,
                    count + 1,
                    next.pending,
                    ops.push(next.op),
                    Some(parsed),
                )
            };
        let next = next->0;
        lemma_proper_push(ops, next.op, ops.len());
        lemma_parsed_proper(
            data,
            next.at,
            depth,
            count + 1,
            next.pending,
            ops.push(next.op),
            parsed,
        );
    }
}

proof fn lemma_procedure_proper(data: Seq<u8>, at: int, depth: int, count: int, parsed: Parsed)
    requires
        0 <= at <= data.len(),
        is_procedure_at(data, at, depth, count, Some(parsed)),
    ensures
        ops_proper(parsed.ops, parsed.ops.len()),
    decreases data.len() - at, 0nat,
{
    lemma_skip_trivia(data, at);
    let start = skip_trivia(data, at);
    lemma_parsed_proper(data, start + 1, depth, count, Seq::empty(), Seq::empty(), parsed);
}

/// The operators of a parsed program are operators.
pub proof fn lemma_program_proper(data: Seq<u8>, ops: Seq<OpModel>)
    requires
        is_program(data, Some(ops)),
    ensures
        ops_proper(ops, ops.len()),
{
    let parsed = choose|parsed: Option<Parsed>|
        {
            &&& #[trigger] is_procedure_at(data, 0, 0, 0, parsed)
            &&& Some(ops) == match parsed {
                Some(parsed) => Some(parsed.ops),
                None => None,
            }
        };
    lemma_procedure_proper(data, 0, 0, 0, parsed->0);
}

/// A jump at a place leads forwards, at most to the end.
pub open spec fn jumps_forward(instructions: Seq<CalculatorInstruction>, at: int, end: int) -> bool {
    match instructions[at] {
        CalculatorInstruction::JumpIfFalse(target) => at < target <= end,
        CalculatorInstruction::Jump(target) => at < target <= end,
        _ => true,
    }
}

proof fn lemma_op_jumps(op: OpModel, at: nat)
    requires
        op_proper(op),
        at + flat_op(op, at).len() <= u32::MAX,
    ensures
        forall|k: int|
            0 <= k < flat_op(op, at).len() ==> match #[trigger] flat_op(op, at)[k] {
                CalculatorInstruction::JumpIfFalse(target) => at + k < target <= at + flat_op(
                    op,
                    at,
                ).len(),
                CalculatorInstruction::Jump(target) => at + k < target <= at + flat_op(
                    op,
                    at,
                ).len(),
                _ => true,
            },
    decreases op, 0nat,
{
    let code = flat_op(op, at);
    match op {
        OpModel::Number(_) => {},
        OpModel::Operator(_) => {},
        OpModel::If(body) => {
            let inner = flat(body, body.len(), at + 1);
            lemma_flat_jumps(body, body.len(), at + 1);
            assert forall|k: int| 1 <= k < code.len() implies code[k] == inner[k - 1] by {}
        },
        OpModel::IfElse(yes, no) => {
            let first = flat(yes, yes.len(), at + 1);
            let second = flat(no, no.len(), at + 2 + first.len());
            lemma_flat_jumps(yes, yes.len(), at + 1);
            lemma_flat_jumps(no, no.len(), at + 2 + first.len());
            assert forall|k: int| 1 <= k < 1 + first.len() implies code[k] == first[k - 1] by {}
            assert forall|k: int| 2 + first.len() <= k < code.len() implies code[k] == second[k - 2
                - first.len()] by {}
        },
    }
}

proof fn lemma_flat_jumps(ops: Seq<OpModel>, count: nat, at: nat)
    requires
        count <= ops.len(),
        ops_proper(ops, count),
        at + flat(ops, count, at).len() <= u32::MAX,
    ensures
        forall|k: int|
            0 <= k < flat(ops, count, at).len() ==> match #[trigger] flat(ops, count, at)[k] {
                CalculatorInstruction::JumpIfFalse(target) => at + k < target <= at + flat(
                    ops,
                    count,
                    at,
                ).len(),
                CalculatorInstruction::Jump(target) => at + k < target <= at + flat(
                    ops,
                    count,
                    at,
                ).len(),
                _ => true,
            },
    decreases ops, count,
{
    if count > 0 {
        let before = flat(ops, (count - 1) as nat, at);
        let code = flat_op(ops[count - 1], at + before.len());
        lemma_flat_jumps(ops, (count - 1) as nat, at);
        lemma_op_jumps(ops[count - 1], at + before.len());
        let all = flat(ops, count, at);
        assert forall|k: int| 0 <= k < all.len() implies match #[trigger] all[k] {
            CalculatorInstruction::JumpIfFalse(target) => at + k < target <= at + all.len(),
            CalculatorInstruction::Jump(target) => at + k < target <= at + all.len(),
            _ => true,
        } by {
            if k < before.len() {
                assert(all[k] == before[k]);
            } else {
                assert(all[k] == code[k - before.len()]);
            }
        }
    }
}

/// The jumps of a flattened program always point forwards, at most to its end.
pub proof fn lemma_flattened_jumps(ops: Seq<OpModel>)
    requires
        flattened(ops) is Some,
        ops_proper(ops, ops.len()),
    ensures
        forall|at: int|
            0 <= at < flattened(ops)->0.len() ==> #[trigger] jumps_forward(
                flattened(ops)->0,
                at,
                flattened(ops)->0.len() as int,
            ),
{
    lemma_flat_jumps(ops, ops.len(), 0);
    let all = flat(ops, ops.len(), 0);
    assert forall|at: int| 0 <= at < all.len() implies #[trigger] jumps_forward(
        all,
        at,
        all.len() as int,
    ) by {
        let instruction = all[at];
    }
}

} // verus!
