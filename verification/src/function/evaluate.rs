//! Running calculator programs.

use crate::function::argument::{
    accepts, binary_result, computes, number_argument, unary_result, well_formed, Argument,
    RealCall,
};
use crate::function::instruction::{is_unary, takes_one, CalculatorInstruction};
use crate::function::program::{
    lemma_op_models, op_model, op_models, OpModel, PostScriptOp, MAX_OPERANDS,
};
use crate::function::stack::ArgumentsStack;
use vstd::prelude::*;

verus! {

/// The operands of a program.
pub type InterpreterStack = ArgumentsStack<Argument, 64>;

/// The operands after another one is pushed, unless there are too many.
pub open spec fn pushed(stack: Seq<Argument>, a: Argument) -> Option<Seq<Argument>> {
    if stack.len() < MAX_OPERANDS {
        Some(stack.push(a))
    } else {
        None
    }
}

/// An integer operand that counts operands.
pub open spec fn count_of(a: Argument) -> Option<int> {
    match a {
        Argument::Integer(v) if v >= 0 => Some(v as int),
        _ => None,
    }
}

/// What `copy` makes of the operands below its count.
pub open spec fn copied(stack: Seq<Argument>, count: int) -> Option<Seq<Argument>> {
    if count > stack.len() || stack.len() + count > MAX_OPERANDS {
        None
    } else {
        Some(stack + stack.skip(stack.len() - count))
    }
}

/// What `roll` makes of the operands below its count and shift.
pub open spec fn rolled(stack: Seq<Argument>, count: int, shift: int) -> Option<Seq<Argument>> {
    if count > stack.len() {
        None
    } else if count == 0 {
        Some(stack)
    } else {
        Some(InterpreterStack::rolled(stack, stack.len() - count, shift))
    }
}

/// What an operator makes of the operands.
pub open spec fn step(
    op: CalculatorInstruction,
    stack: Seq<Argument>,
    compute: spec_fn(RealCall) -> u32,
) -> Option<Seq<Argument>> {
    let n = stack.len();
    match op {
        CalculatorInstruction::True => pushed(stack, Argument::Bool(true)),
        CalculatorInstruction::False => pushed(stack, Argument::Bool(false)),
        CalculatorInstruction::Copy => if n < 1 {
            None
        } else {
            match count_of(stack.last()) {
                None => None,
                Some(count) => copied(stack.drop_last(), count),
            }
        },
        CalculatorInstruction::Dup => if n < 1 {
            None
        } else {
            pushed(stack, stack.last())
        },
        CalculatorInstruction::Exch => if n < 2 {
            None
        } else {
            Some(stack.take(n - 2).push(stack[n - 1]).push(stack[n - 2]))
        },
        CalculatorInstruction::Index => if n < 1 {
            None
        } else {
            match count_of(stack.last()) {
                None => None,
                Some(depth) => if depth + 1 > n - 1 {
                    None
                } else {
                    Some(stack.drop_last().push(stack[n - 2 - depth]))
                },
            }
        },
        CalculatorInstruction::Pop => if n < 1 {
            None
        } else {
            Some(stack.drop_last())
        },
        CalculatorInstruction::Roll => if n < 2 {
            None
        } else {
            match (stack[n - 1], count_of(stack[n - 2])) {
                (Argument::Integer(shift), Some(count)) => rolled(
                    stack.take(n - 2),
                    count,
                    shift as int,
                ),
                _ => None,
            }
        },
        _ => if is_unary(op) {
            if n < 1 {
                None
            } else {
                match unary_result(op, stack.last(), compute) {
                    None => None,
                    Some(a) => Some(stack.drop_last().push(a)),
                }
            }
        } else if n < 2 {
            None
        } else {
            match binary_result(op, stack[n - 2], stack[n - 1], compute) {
                None => None,
                Some(a) => Some(stack.take(n - 2).push(a)),
            }
        },
    }
}

/// What the operations of a program from a place on make of the operands.
pub open spec fn evaluated(
    ops: Seq<OpModel>,
    i: nat,
    stack: Seq<Argument>,
    compute: spec_fn(RealCall) -> u32,
) -> Option<Seq<Argument>>
    decreases ops, ops.len() - i,
{
    if i >= ops.len() {
        Some(stack)
    } else {
        let next = match ops[i as int] {
            OpModel::Number(number) => match number_argument(number) {
                None => None,
                Some(a) => pushed(stack, a),
            },
            OpModel::Operator(op) => step(op, stack, compute),
            OpModel::If(body) => if stack.len() == 0 {
                None
            } else {
                match stack.last() {
                    Argument::Bool(condition) => if condition {
                        evaluated(body, 0, stack.drop_last(), compute)
                    } else {
                        Some(stack.drop_last())
                    },
                    _ => None,
                }
            },
            OpModel::IfElse(yes, no) => if stack.len() == 0 {
                None
            } else {
                match stack.last() {
                    Argument::Bool(condition) => if condition {
                        evaluated(yes, 0, stack.drop_last(), compute)
                    } else {
                        evaluated(no, 0, stack.drop_last(), compute)
                    },
                    _ => None,
                }
            },
        };
        match next {
            None => None,
            Some(after) => evaluated(ops, i + 1, after, compute),
        }
    }
}

/// All operands are well formed.
pub open spec fn all_well_formed(stack: Seq<Argument>) -> bool {
    forall|i: int| 0 <= i < stack.len() ==> well_formed(#[trigger] stack[i])
}

/// A result and the operands after it are as expected.
pub open spec fn is_after(
    result: Option<()>,
    stack: Seq<Argument>,
    expected: Option<Seq<Argument>>,
) -> bool {
    match expected {
        None => result is None,
        Some(after) => result is Some && stack == after,
    }
}

/// Push copies of the topmost operands.
fn copy_top(stack: &mut InterpreterStack) -> (result: Option<()>)
    requires
        all_well_formed(old(stack)@),
    ensures
        all_well_formed(final(stack)@),
        is_after(
            result,
            final(stack)@,
            (if old(stack)@.len() < 1 {
                None
            } else {
                match count_of(old(stack)@.last()) {
                    None => None,
                    Some(count) => copied(old(stack)@.drop_last(), count),
                }
            }),
        ),
{
    let count: usize = match stack.pop() {
        None => {
            return None;
        },
        Some(a) => match a.count() {
            None => {
                return None;
            },
            Some(count) => count,
        },
    };
    let len: usize = stack.len();
    if count > len {
        return None;
    }
    let ghost base = stack@;
    let start: usize = len - count;
    let mut i: usize = start;
    assert(base + base.subrange(start as int, i as int) =~= base);
    while i < len
        invariant
            start <= i <= len,
            len == base.len(),
            count == len - start,
            all_well_formed(base),
            base == old(stack)@.drop_last(),
            old(stack)@.len() >= 1,
            count_of(old(stack)@.last()) == Some(count as int),
            stack@ == base + base.subrange(start as int, i as int),
        decreases len - i,
    {
        let item = match stack.at(i) {
            None => {
                return None;
            },
            Some(item) => *item,
        };
        assert(stack@[i as int] == base[i as int]);
        let ghost before = stack@;
        match stack.push(item) {
            None => {
                return None;
            },
            Some(()) => {},
        }
        assert(stack@ =~= base + base.subrange(start as int, i + 1));
        i = i + 1;
    }
    let total: usize = stack.len();
    proof {
        assert(base.subrange(start as int, len as int) =~= base.skip(start as int));
        assert forall|k: int| 0 <= k < stack@.len() implies well_formed(#[trigger] stack@[k]) by {
            if k >= base.len() {
                assert(stack@[k] == base[start + (k - base.len())]);
            } else {
                assert(stack@[k] == base[k]);
            }
        }
    }
    Some(())
}

/// Move the topmost operands.
fn roll_top(stack: &mut InterpreterStack) -> (result: Option<()>)
    requires
        all_well_formed(old(stack)@),
    ensures
        all_well_formed(final(stack)@),
        is_after(
            result,
            final(stack)@,
            (if old(stack)@.len() < 2 {
                None
            } else {
                let n = old(stack)@.len();
                match (old(stack)@[n - 1], count_of(old(stack)@[n - 2])) {
                    (Argument::Integer(shift), Some(count)) => rolled(
                        old(stack)@.take(n - 2),
                        count,
                        shift as int,
                    ),
                    _ => None,
                }
            }),
        ),
{
    let ghost given = stack@;
    let shift: i32 = match stack.pop() {
        None => {
            return None;
        },
        Some(a) => match a.integer() {
            None => {
                return None;
            },
            Some(shift) => shift,
        },
    };
    let count: usize = match stack.pop() {
        None => {
            return None;
        },
        Some(a) => match a.count() {
            None => {
                return None;
            },
            Some(count) => count,
        },
    };
    let len: usize = stack.len();
    assert(stack@ =~= given.take(given.len() - 2));
    if count > len {
        return None;
    }
    if count > 0 {
        let ghost base = stack@;
        stack.roll(len - count, shift);
        proof {
            let start = len - count;
            assert forall|k: int| 0 <= k < stack@.len() implies well_formed(
                #[trigger] stack@[k],
            ) by {
                if k >= start {
                    vstd::arithmetic::div_mod::lemma_mod_bound(k - start - shift, count as int);
                    assert(stack@[k] == base[start + (k - start - shift) % (count as int)]);
                } else {
                    assert(stack@[k] == base[k]);
                }
            }
        }
    }
    Some(())
}

/// Apply an operator to the operands.
fn apply<F: Fn(RealCall) -> u32>(
    op: CalculatorInstruction,
    stack: &mut InterpreterStack,
    compute: &F,
) -> (result: Option<()>)
    requires
        accepts(*compute),
        all_well_formed(old(stack)@),
    ensures
        all_well_formed(final(stack)@),
        forall|r: spec_fn(RealCall) -> u32| #[trigger]
            computes(*compute, r) ==> is_after(result, final(stack)@, step(op, old(stack)@, r)),
{
    let ghost given = stack@;
    let depth: usize = stack.len();
    match op {
        CalculatorInstruction::True => stack.push(Argument::Bool(true)),
        CalculatorInstruction::False => stack.push(Argument::Bool(false)),
        CalculatorInstruction::Copy => copy_top(stack),
        CalculatorInstruction::Dup => {
            match stack.last() {
                None => None,
                Some(a) => {
                    let a = *a;
                    stack.push(a)
                },
            }
        },
        CalculatorInstruction::Exch => {
            match (stack.pop(), stack.pop()) {
                (Some(second), Some(first)) => {
                    assert(stack@ =~= given.take(given.len() - 2));
                    match stack.push(second) {
                        None => None,
                        Some(()) => stack.push(first),
                    }
                },
                _ => None,
            }
        },
        CalculatorInstruction::Index => {
            let place: usize = match stack.pop() {
                None => {
                    return None;
                },
                Some(a) => match a.count() {
                    None => {
                        return None;
                    },
                    Some(place) => place,
                },
            };
            let len: usize = stack.len();
            if place >= len {
                return None;
            }
            match stack.at(len - 1 - place) {
                None => None,
                Some(a) => {
                    let a = *a;
                    stack.push(a)
                },
            }
        },
        CalculatorInstruction::Pop => {
            match stack.pop() {
                None => None,
                Some(_) => Some(()),
            }
        },
        CalculatorInstruction::Roll => roll_top(stack),
        _ => {
            if takes_one(op) {
                match stack.pop() {
                    None => None,
                    Some(a) => match a.unary(op, compute) {
                        None => None,
                        Some(value) => stack.push(value),
                    },
                }
            } else {
                match (stack.pop(), stack.pop()) {
                    (Some(second), Some(first)) => {
                        assert(stack@ =~= given.take(given.len() - 2));
                        match first.binary(second, op, compute) {
                            None => None,
                            Some(value) => stack.push(value),
                        }
                    },
                    _ => None,
                }
            }
        },
    }
}

/// Run a procedure.
pub fn eval_inner<F: Fn(RealCall) -> u32>(
    procedure: &Vec<PostScriptOp>,
    stack: &mut InterpreterStack,
    compute: &F,
) -> (result: Option<()>)
    requires
        accepts(*compute),
        all_well_formed(old(stack)@),
    ensures
        all_well_formed(final(stack)@),
        forall|r: spec_fn(RealCall) -> u32| #[trigger]
            computes(*compute, r) ==> is_after(
                result,
                final(stack)@,
                evaluated(op_models(procedure@), 0, old(stack)@, r),
            ),
    decreases procedure,
{
    let ghost ops = op_models(procedure@);
    let ghost given = stack@;
    let mut i: usize = 0;
    while i < procedure.len()
        invariant
            i <= procedure@.len(),
            ops == op_models(procedure@),
            given == old(stack)@,
            accepts(*compute),
            all_well_formed(stack@),
            forall|r: spec_fn(RealCall) -> u32| #[trigger]
                computes(*compute, r) ==> evaluated(ops, 0, given, r) == evaluated(
                    ops,
                    i as nat,
                    stack@,
                    r,
                ),
        decreases procedure@.len() - i,
    {
        let ghost before = stack@;
        assert(ops[i as int] == op_model(procedure@[i as int]));
        assert(decreases_to!(procedure => procedure@[i as int]));
        match &procedure[i] {
            PostScriptOp::Number(number) => {
                match Argument::from_number(*number) {
                    None => {
                        return None;
                    },
                    Some(a) => {
                        match stack.push(a) {
                            None => {
                                return None;
                            },
                            Some(()) => {},
                        }
                    },
                }
            },
            PostScriptOp::Operator(op) => {
                match apply(*op, stack, compute) {
                    None => {
                        return None;
                    },
                    Some(()) => {},
                }
            },
            PostScriptOp::If(body) => {
                proof {
                    lemma_op_models(*body, *body);
                }
                let condition = match stack.pop() {
                    None => {
                        return None;
                    },
                    Some(a) => match a.boolean() {
                        None => {
                            return None;
                        },
                        Some(condition) => condition,
                    },
                };
                if condition {
                    match eval_inner(body, stack, compute) {
                        None => {
                            return None;
                        },
                        Some(()) => {},
                    }
                }
            },
            PostScriptOp::IfElse(yes, no) => {
                proof {
                    lemma_op_models(*yes, *no);
                }
                let condition = match stack.pop() {
                    None => {
                        return None;
                    },
                    Some(a) => match a.boolean() {
                        None => {
                            return None;
                        },
                        Some(condition) => condition,
                    },
                };
                let taken = if condition {
                    yes
                } else {
                    no
                };
                match eval_inner(taken, stack, compute) {
                    None => {
                        return None;
                    },
                    Some(()) => {},
                }
            },
        }
        i = i + 1;
    }
    Some(())
}

} // verus!
