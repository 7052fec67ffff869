//! The instructions of PDF Type 4 calculator programs.

use vstd::prelude::*;

verus! {

/// One instruction in a bounded, forward-only PDF Type 4 calculator program.
///
/// Conditional procedures are flattened into forward jumps so retained
/// renderers can validate and execute the same owned program on either the CPU
/// or GPU without retaining parser objects.
#[derive(Clone, Copy, Debug, PartialEq, Eq, Structural)]
#[non_exhaustive]
pub enum CalculatorInstruction {
    /// Push a signed 32-bit integer without converting it to a real number.
    Integer(i32),
    /// Push a real number, given by its bits in single precision.
    Number(u32),
    /// Apply the PostScript `abs` operator.
    Abs,
    /// Apply the PostScript `add` operator.
    Add,
    /// Apply the PostScript `atan` operator.
    Atan,
    /// Apply the PostScript `ceiling` operator.
    Ceiling,
    /// Apply the PostScript `cos` operator.
    Cos,
    /// Apply the PostScript `cvi` operator.
    Cvi,
    /// Apply the PostScript `cvr` operator.
    Cvr,
    /// Apply the PostScript `div` operator.
    Div,
    /// Apply the PostScript `exp` operator.
    Exp,
    /// Apply the PostScript `floor` operator.
    Floor,
    /// Apply the PostScript `idiv` operator.
    Idiv,
    /// Apply the PostScript `ln` operator.
    Ln,
    /// Apply the PostScript `log` operator.
    Log,
    /// Apply the PostScript `mod` operator.
    Mod,
    /// Apply the PostScript `mul` operator.
    Mul,
    /// Apply the PostScript `neg` operator.
    Neg,
    /// Apply the PostScript `round` operator.
    Round,
    /// Apply the PostScript `sin` operator.
    Sin,
    /// Apply the PostScript `sqrt` operator.
    Sqrt,
    /// Apply the PostScript `sub` operator.
    Sub,
    /// Apply the PostScript `truncate` operator.
    Truncate,
    /// Apply the PostScript `and` operator.
    And,
    /// Apply the PostScript `bitshift` operator.
    Bitshift,
    /// Apply the PostScript `eq` operator.
    Eq,
    /// Push the boolean value `false`.
    False,
    /// Apply the PostScript `ge` operator.
    Ge,
    /// Apply the PostScript `gt` operator.
    Gt,
    /// Apply the PostScript `le` operator.
    Le,
    /// Apply the PostScript `lt` operator.
    Lt,
    /// Apply the PostScript `ne` operator.
    Ne,
    /// Apply the PostScript `not` operator.
    Not,
    /// Apply the PostScript `or` operator.
    Or,
    /// Push the boolean value `true`.
    True,
    /// Apply the PostScript `xor` operator.
    Xor,
    /// Pop a condition and continue at this absolute instruction index when
    /// it is false. The target always points forwards.
    JumpIfFalse(u32),
    /// Continue at this absolute instruction index. The target always points
    /// forwards.
    Jump(u32),
    /// Apply the PostScript `copy` operator.
    Copy,
    /// Apply the PostScript `dup` operator.
    Dup,
    /// Apply the PostScript `exch` operator.
    Exch,
    /// Apply the PostScript `index` operator.
    Index,
    /// Apply the PostScript `pop` operator.
    Pop,
    /// Apply the PostScript `roll` operator.
    Roll,
}

/// The instruction takes one operand from the stack and pushes its result.
pub open spec fn is_unary(op: CalculatorInstruction) -> bool {
    match op {
        CalculatorInstruction::Abs
        | CalculatorInstruction::Ceiling
        | CalculatorInstruction::Cos
        | CalculatorInstruction::Cvi
        | CalculatorInstruction::Cvr
        | CalculatorInstruction::Floor
        | CalculatorInstruction::Ln
        | CalculatorInstruction::Log
        | CalculatorInstruction::Neg
        | CalculatorInstruction::Not
        | CalculatorInstruction::Round
        | CalculatorInstruction::Sin
        | CalculatorInstruction::Sqrt
        | CalculatorInstruction::Truncate => true,
        _ => false,
    }
}

/// Whether the instruction takes one operand from the stack and pushes its result.
pub fn takes_one(op: CalculatorInstruction) -> (unary: bool)
    ensures
        unary == is_unary(op),
{
    match op {
        CalculatorInstruction::Abs
        | CalculatorInstruction::Ceiling
        | CalculatorInstruction::Cos
        | CalculatorInstruction::Cvi
        | CalculatorInstruction::Cvr
        | CalculatorInstruction::Floor
        | CalculatorInstruction::Ln
        | CalculatorInstruction::Log
        | CalculatorInstruction::Neg
        | CalculatorInstruction::Not
        | CalculatorInstruction::Round
        | CalculatorInstruction::Sin
        | CalculatorInstruction::Sqrt
        | CalculatorInstruction::Truncate => true,
        _ => false,
    }
}

/// The instruction is an operator, neither a number nor a jump.
pub open spec fn is_operator(op: CalculatorInstruction) -> bool {
    match op {
        CalculatorInstruction::Integer(_)
        | CalculatorInstruction::Number(_)
        | CalculatorInstruction::JumpIfFalse(_)
        | CalculatorInstruction::Jump(_) => false,
        _ => true,
    }
}

} // verus!
