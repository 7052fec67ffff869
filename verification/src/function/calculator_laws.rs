//! What holds of the operators of calculator functions.

use crate::function::argument::{
    binary_result, number_argument, unary_result, value, Argument, RealCall,
};
use crate::function::evaluate::{evaluated, step};
use crate::function::instruction::CalculatorInstruction;
use crate::function::program::{OpModel, MAX_OPERANDS};
use crate::function::single::{finite, scaled};
use crate::object::Number;
use vstd::arithmetic::power2::{lemma_pow2_pos, pow2};
use vstd::prelude::*;

verus! {

/// Numbers compare by their values, whole or real alike.
pub proof fn lemma_comparisons(
    a: Argument,
    b: Argument,
    compute: spec_fn(RealCall) -> u32,
)
    requires
        !(a is Bool),
        !(b is Bool),
    ensures
        binary_result(CalculatorInstruction::Lt, a, b, compute) == Some(
            Argument::Bool(value(a) < value(b)),
        ),
        binary_result(CalculatorInstruction::Gt, a, b, compute) == binary_result(
            CalculatorInstruction::Lt,
            b,
            a,
            compute,
        ),
        binary_result(CalculatorInstruction::Ge, a, b, compute) == Some(
            Argument::Bool(!(value(a) < value(b))),
        ),
        binary_result(CalculatorInstruction::Le, a, b, compute) == binary_result(
            CalculatorInstruction::Ge,
            b,
            a,
            compute,
        ),
        binary_result(CalculatorInstruction::Eq, a, b, compute) == Some(
            Argument::Bool(value(a) == value(b)),
        ),
        binary_result(CalculatorInstruction::Ne, a, b, compute) == Some(
            Argument::Bool(value(a) != value(b)),
        ),
        a matches Argument::Integer(v) ==> value(a) == v * pow2(149),
        a matches Argument::Float(bits) ==> value(a) == scaled(bits),
{
}

/// A condition is equal to the same condition only, and has no place in an order or in
/// arithmetic.
pub proof fn lemma_conditions(
    x: bool,
    y: bool,
    a: Argument,
    op: CalculatorInstruction,
    compute: spec_fn(RealCall) -> u32,
)
    requires
        !(a is Bool),
        op is Lt || op is Le || op is Gt || op is Ge || op is Add || op is Sub || op is Mul
            || op is Div || op is Idiv || op is Mod || op is Bitshift || op is Atan || op is Exp,
    ensures
        binary_result(
            CalculatorInstruction::Eq,
            Argument::Bool(x),
            Argument::Bool(y),
            compute,
        ) == Some(Argument::Bool(x == y)),
        binary_result(
            CalculatorInstruction::Ne,
            Argument::Bool(x),
            Argument::Bool(y),
            compute,
        ) == Some(Argument::Bool(x != y)),
        binary_result(CalculatorInstruction::Eq, Argument::Bool(x), a, compute) == Some(
            Argument::Bool(false),
        ),
        binary_result(CalculatorInstruction::Ne, a, Argument::Bool(x), compute) == Some(
            Argument::Bool(true),
        ),
        binary_result(op, Argument::Bool(x), a, compute) is None,
        binary_result(op, a, Argument::Bool(x), compute) is None,
{
}

/// The logical operators on conditions: a conjunction holds if both do, a disjunction fails if
/// both do, an exclusive one holds if they differ, and a negation is the other condition. They
/// have no meaning for real numbers.
pub proof fn lemma_logic(
    x: bool,
    y: bool,
    bits: u32,
    b: Argument,
    compute: spec_fn(RealCall) -> u32,
)
    ensures
        binary_result(
            CalculatorInstruction::And,
            Argument::Bool(x),
            Argument::Bool(y),
            compute,
        ) == Some(Argument::Bool(x && y)),
        binary_result(
            CalculatorInstruction::Or,
            Argument::Bool(x),
            Argument::Bool(y),
            compute,
        ) == Some(Argument::Bool(!(!x && !y))),
        binary_result(
            CalculatorInstruction::Xor,
            Argument::Bool(x),
            Argument::Bool(y),
            compute,
        ) == Some(Argument::Bool(x != y)),
        unary_result(CalculatorInstruction::Not, Argument::Bool(x), compute) == Some(
            Argument::Bool(!x),
        ),
        unary_result(CalculatorInstruction::Not, Argument::Float(bits), compute) is None,
        binary_result(CalculatorInstruction::And, Argument::Float(bits), b, compute) is None,
        binary_result(CalculatorInstruction::Or, Argument::Float(bits), b, compute) is None,
        binary_result(CalculatorInstruction::Xor, Argument::Float(bits), b, compute) is None,
{
}

/// The logical operators on whole numbers work bit by bit.
pub proof fn lemma_bits(x: i32, y: i32, compute: spec_fn(RealCall) -> u32)
    ensures
        binary_result(
            CalculatorInstruction::And,
            Argument::Integer(x),
            Argument::Integer(y),
            compute,
        ) == Some(Argument::Integer(x & y)),
        binary_result(
            CalculatorInstruction::Or,
            Argument::Integer(x),
            Argument::Integer(y),
            compute,
        ) == Some(Argument::Integer(x | y)),
        binary_result(
            CalculatorInstruction::Xor,
            Argument::Integer(x),
            Argument::Integer(y),
            compute,
        ) == Some(Argument::Integer(x ^ y)),
        unary_result(CalculatorInstruction::Not, Argument::Integer(x), compute) == Some(
            Argument::Integer(!x),
        ),
{
    assert(!x == -x - 1) by (bit_vector);
}

/// Whole sums, differences and products that fit are exact and whole; others are real.
pub proof fn lemma_whole_arithmetic(x: i32, y: i32, compute: spec_fn(RealCall) -> u32)
    ensures
        i32::MIN <= x + y <= i32::MAX ==> binary_result(
            CalculatorInstruction::Add,
            Argument::Integer(x),
            Argument::Integer(y),
            compute,
        ) == Some(Argument::Integer((x + y) as i32)),
        i32::MIN <= x - y <= i32::MAX ==> binary_result(
            CalculatorInstruction::Sub,
            Argument::Integer(x),
            Argument::Integer(y),
            compute,
        ) == Some(Argument::Integer((x - y) as i32)),
        i32::MIN <= x * y <= i32::MAX ==> binary_result(
            CalculatorInstruction::Mul,
            Argument::Integer(x),
            Argument::Integer(y),
            compute,
        ) == Some(Argument::Integer((x * y) as i32)),
        x + y > i32::MAX && finite(compute(RealCall::Widen((x + y) as i64))) ==> binary_result(
            CalculatorInstruction::Add,
            Argument::Integer(x),
            Argument::Integer(y),
            compute,
        ) == Some(Argument::Float(compute(RealCall::Widen((x + y) as i64)))),
        x - y < i32::MIN && finite(compute(RealCall::Widen((x - y) as i64))) ==> binary_result(
            CalculatorInstruction::Sub,
            Argument::Integer(x),
            Argument::Integer(y),
            compute,
        ) == Some(Argument::Float(compute(RealCall::Widen((x - y) as i64)))),
        x * y > i32::MAX && finite(compute(RealCall::Widen((x * y) as i64))) ==> binary_result(
            CalculatorInstruction::Mul,
            Argument::Integer(x),
            Argument::Integer(y),
            compute,
        ) == Some(Argument::Float(compute(RealCall::Widen((x * y) as i64)))),
{
}

/// A whole quotient and its remainder make up the dividend; the remainder is smaller than the
/// divisor and has the sign of the dividend. There is none by zero, nor one that does not fit.
pub proof fn lemma_quotient(x: i32, y: i32, compute: spec_fn(RealCall) -> u32)
    ensures
        y == 0 ==> binary_result(
            CalculatorInstruction::Idiv,
            Argument::Integer(x),
            Argument::Integer(y),
            compute,
        ) is None && binary_result(
            CalculatorInstruction::Mod,
            Argument::Integer(x),
            Argument::Integer(y),
            compute,
        ) is None,
        y != 0 && !(x == i32::MIN && y == -1) ==> {
            &&& binary_result(
                CalculatorInstruction::Idiv,
                Argument::Integer(x),
                Argument::Integer(y),
                compute,
            ) matches Some(Argument::Integer(q))
            &&& binary_result(
                CalculatorInstruction::Mod,
                Argument::Integer(x),
                Argument::Integer(y),
                compute,
            ) matches Some(Argument::Integer(r))
            &&& x == y * q + r
            &&& y > 0 ==> -y < r < y
            &&& y < 0 ==> y < r < -y
            &&& x >= 0 ==> r >= 0
            &&& x <= 0 ==> r <= 0
        },
{
    if y != 0 && !(x == i32::MIN && y == -1) {
        let a = if x < 0 {
            -(x as int)
        } else {
            x as int
        };
        let b = if y < 0 {
            -(y as int)
        } else {
            y as int
        };
        let q = a / b;
        vstd::arithmetic::div_mod::lemma_fundamental_div_mod(a, b);
        vstd::arithmetic::div_mod::lemma_mod_bound(a, b);
        assert(0 <= q <= a) by (nonlinear_arith)
            requires
                a == b * q + a % b,
                0 <= a % b < b,
                b >= 1,
                a >= 0,
        ;
        assert(a <= 0x8000_0000);
        assert(q == 0x8000_0000 ==> b == 1) by (nonlinear_arith)
            requires
                a == b * q + a % b,
                0 <= a % b,
                a <= 0x8000_0000,
                b >= 1,
        ;
        let quotient = crate::function::argument::quotient(x as int, y as int);
        if (x < 0) != (y < 0) {
            assert(quotient == -q);
            assert(y * quotient == -(y * q)) by (nonlinear_arith)
                requires
                    quotient == -q,
            ;
        } else {
            assert(quotient == q);
        }
        if y < 0 {
            assert(y * q == -(b * q)) by (nonlinear_arith)
                requires
                    y == -b,
            ;
        } else {
            assert(y * q == b * q);
        }
        if x == i32::MIN && b == 1 {
            assert(y == 1);
        }
    }
}

/// Shifting left multiplies by powers of two, within 32 bits; shifting right divides the bits, as
/// an unsigned number. Shifting by all bits or more leaves none.
pub proof fn lemma_shift(x: i32, shift: i32, compute: spec_fn(RealCall) -> u32)
    ensures
        ({
            let result = binary_result(
                CalculatorInstruction::Bitshift,
                Argument::Integer(x),
                Argument::Integer(shift),
                compute,
            );
            &&& result matches Some(Argument::Integer(r))
            &&& shift == 0 ==> r == x
            &&& shift >= 32 || shift <= -32 ==> r == 0
            &&& 0 <= shift < 32 ==> (r - x * pow2(shift as nat)) % 0x1_0000_0000 == 0
            &&& -32 < shift < 0 && x >= 0 ==> r == x as int / (pow2((-shift) as nat) as int)
            &&& -32 < shift < 0 && x < 0 ==> r == (x + 0x1_0000_0000) / (pow2(
                (-shift) as nat,
            ) as int)
        }),
{
    vstd::arithmetic::power2::lemma2_to64();
    let u = if x < 0 {
        x + 0x1_0000_0000
    } else {
        x as int
    };
    if 0 <= shift < 32 {
        let p = pow2(shift as nat) as int;
        lemma_pow2_pos(shift as nat);
        let m = (u * p) % 0x1_0000_0000;
        let d = (u * p) / 0x1_0000_0000;
        vstd::arithmetic::div_mod::lemma_fundamental_div_mod(u * p, 0x1_0000_0000);
        let r = crate::function::argument::shifted(x as int, shift as int);
        assert(0 <= u * p) by (nonlinear_arith)
            requires
                0 <= u,
                0 < p,
        ;
        assert(0 <= m < 0x1_0000_0000);
        if shift == 0 {
            assert(u * p == u) by (nonlinear_arith)
                requires
                    p == 1,
            ;
            vstd::arithmetic::div_mod::lemma_small_mod(u as nat, 0x1_0000_0000);
        }
        let k: int = (if x < 0 {
            p
        } else {
            0
        }) - d - (if m >= 0x8000_0000 {
            1int
        } else {
            0int
        });
        assert((x + 0x1_0000_0000) * p == x * p + 0x1_0000_0000 * p) by (nonlinear_arith);
        assert(r - x * p == 0x1_0000_0000 * k) by {
            if x < 0 {
                assert(u * p == x * p + 0x1_0000_0000 * p);
            } else {
                assert(u * p == x * p);
            }
        }
        vstd::arithmetic::div_mod::lemma_mod_multiples_basic(k, 0x1_0000_0000);
        assert(k * 0x1_0000_0000 == 0x1_0000_0000 * k);
    } else if -32 < shift < 0 {
        let p = pow2((-shift) as nat) as int;
        lemma_pow2_pos((-shift) as nat);
        vstd::arithmetic::power2::lemma_pow2_unfold((-shift) as nat);
        lemma_pow2_pos((-shift - 1) as nat);
        assert(p >= 2);
        vstd::arithmetic::div_mod::lemma_fundamental_div_mod(u, p);
        vstd::arithmetic::div_mod::lemma_mod_bound(u, p);
        let q = u / p;
        assert(0 <= q < 0x8000_0000) by (nonlinear_arith)
            requires
                u == p * q + u % p,
                0 <= u % p < p,
                0 <= u < 0x1_0000_0000,
                p >= 2,
        ;
    }
}

/// The opposite of a number has the opposite value, and its size is its value without the sign;
/// a whole number whose opposite does not fit becomes real.
pub proof fn lemma_signs(a: Argument, compute: spec_fn(RealCall) -> u32)
    requires
        !(a is Bool),
        a != Argument::Integer(i32::MIN),
    ensures
        unary_result(CalculatorInstruction::Neg, a, compute) matches Some(r) && value(r) == -value(
            a,
        ) && r is Integer == a is Integer,
        unary_result(CalculatorInstruction::Abs, a, compute) matches Some(r) && (value(r) == value(
            a,
        ) || value(r) == -value(a)) && value(r) >= 0 && r is Integer == a is Integer,
{
    match a {
        Argument::Integer(v) => {
            assert((-(v as int)) * pow2(149) == -(v * pow2(149))) by (nonlinear_arith);
            lemma_pow2_pos(149);
            if v >= 0 {
                assert(v * pow2(149) >= 0) by (nonlinear_arith)
                    requires
                        v >= 0,
                        pow2(149) > 0,
                ;
            } else {
                assert((-(v as int)) * pow2(149) >= 0) by (nonlinear_arith)
                    requires
                        v < 0,
                        pow2(149) > 0,
                ;
            }
        },
        Argument::Float(bits) => {
            crate::function::single::lemma_negated(
                bits,
                crate::function::argument::opposite(bits),
            );
            let plain = crate::function::argument::unsigned(bits);
            if bits >= 0x8000_0000 {
                crate::function::single::lemma_negated(bits, plain);
            } else {
                assert(plain == bits);
            }
            lemma_unsigned_scaled(plain);
        },
        Argument::Bool(_) => {},
    }
}

proof fn lemma_unsigned_scaled(bits: u32)
    requires
        bits < 0x8000_0000,
    ensures
        scaled(bits) >= 0,
{
    let e = crate::function::single::exponent(bits);
    let p = pow2(
        if e == 0 {
            0
        } else {
            (e - 1) as nat
        },
    );
    let s = crate::function::single::significand(bits);
    assert(s >= 0);
    assert(s * p >= 0) by (nonlinear_arith)
        requires
            s >= 0,
            p >= 0,
    ;
}

/// Converting to a whole number drops the fraction: the result lies no further from zero, and
/// less than one away. It fails exactly for numbers that do not fit 32 bits.
pub proof fn lemma_converted_to_whole(bits: u32, compute: spec_fn(RealCall) -> u32)
    ensures
        ({
            let unit = pow2(149) as int;
            let s = scaled(bits);
            match unary_result(CalculatorInstruction::Cvi, Argument::Float(bits), compute) {
                None => s < -0x8000_0000 * unit || s >= 0x8000_0000 * unit,
                Some(r) => {
                    &&& -0x8000_0000 * unit <= s < 0x8000_0000 * unit
                    &&& r matches Argument::Integer(v)
                    &&& s >= 0 ==> v * unit <= s < (v + 1) * unit
                    &&& s <= 0 ==> (v - 1) * unit < s <= v * unit
                },
            }
        }),
        forall|v: i32| #[trigger]
            unary_result(CalculatorInstruction::Cvi, Argument::Integer(v), compute) == Some(
                Argument::Integer(v),
            ),
        unary_result(CalculatorInstruction::Cvr, Argument::Float(bits), compute) == Some(
            Argument::Float(bits),
        ),
{
    let unit = pow2(149) as int;
    lemma_pow2_pos(149);
    let s = scaled(bits);
    let size = if s < 0 {
        -s
    } else {
        s
    };
    let q = size / unit;
    vstd::arithmetic::div_mod::lemma_fundamental_div_mod(size, unit);
    vstd::arithmetic::div_mod::lemma_mod_bound(size, unit);
    assert(q * unit <= size < (q + 1) * unit && 0 <= q) by (nonlinear_arith)
        requires
            size == unit * q + size % unit,
            0 <= size % unit < unit,
            0 <= size,
            unit > 0,
    ;
    if -0x8000_0000 * unit <= s < 0x8000_0000 * unit {
        assert(q <= 0x8000_0000) by (nonlinear_arith)
            requires
                q * unit <= size,
                size <= 0x8000_0000 * unit,
                unit > 0,
        ;
        if s >= 0 {
            assert(q < 0x8000_0000) by (nonlinear_arith)
                requires
                    q * unit <= size,
                    size < 0x8000_0000 * unit,
                    unit > 0,
            ;
        }
        assert((-q) * unit == -(q * unit) && (-q - 1) * unit == -((q + 1) * unit))
            by (nonlinear_arith);
    }
}

/// Rounding leaves whole numbers as they are. Logarithms need a number above zero, and square
/// roots one that is not below.
pub proof fn lemma_domains(v: i32, a: Argument, compute: spec_fn(RealCall) -> u32)
    requires
        !(a is Bool),
    ensures
        unary_result(CalculatorInstruction::Floor, Argument::Integer(v), compute) == Some(
            Argument::Integer(v),
        ),
        unary_result(CalculatorInstruction::Ceiling, Argument::Integer(v), compute) == Some(
            Argument::Integer(v),
        ),
        unary_result(CalculatorInstruction::Round, Argument::Integer(v), compute) == Some(
            Argument::Integer(v),
        ),
        unary_result(CalculatorInstruction::Truncate, Argument::Integer(v), compute) == Some(
            Argument::Integer(v),
        ),
        value(a) <= 0 ==> unary_result(CalculatorInstruction::Ln, a, compute) is None
            && unary_result(CalculatorInstruction::Log, a, compute) is None,
        value(a) < 0 ==> unary_result(CalculatorInstruction::Sqrt, a, compute) is None,
        forall|op: CalculatorInstruction|
            (op is Sin || op is Cos || (op is Sqrt && value(a) >= 0) || ((op is Ln || op is Log)
                && value(a) > 0)) && finite(compute(RealCall::Unary(op, a))) ==> #[trigger]
                unary_result(op, a, compute) == Some(
                Argument::Float(compute(RealCall::Unary(op, a))),
            ),
        forall|op: CalculatorInstruction|
            (op is Floor || op is Ceiling || op is Round || op is Truncate) && a is Float && finite(
                compute(RealCall::Unary(op, a)),
            ) ==> #[trigger] unary_result(op, a, compute) == Some(
                Argument::Float(compute(RealCall::Unary(op, a))),
            ),
{
}

/// Real arithmetic takes its operands in order, and gives nothing that is not finite. There is no
/// quotient by zero, no angle of no direction, no negative power of zero, and no power of a
/// negative number but whole ones: odd ones are negative.
pub proof fn lemma_real_arithmetic(
    op: CalculatorInstruction,
    a: Argument,
    b: Argument,
    compute: spec_fn(RealCall) -> u32,
)
    requires
        !(a is Bool),
        !(b is Bool),
        op is Add || op is Sub || op is Mul ==> a is Float || b is Float,
        op is Add || op is Sub || op is Mul || op is Div || op is Atan || op is Exp,
    ensures
        ({
            let bits = compute(RealCall::Binary(op, a, b));
            let result = binary_result(op, a, b, compute);
            let whole = value(b) % (pow2(149) as int) == 0;
            let odd = (value(b) / (pow2(149) as int)) % 2 == 1;
            let defined = match op {
                CalculatorInstruction::Div => value(b) != 0,
                CalculatorInstruction::Atan => !(value(a) == 0 && value(b) == 0),
                CalculatorInstruction::Exp => !(value(a) == 0 && value(b) < 0) && (value(a) < 0
                    ==> whole),
                _ => true,
            };
            &&& result is Some <==> defined && finite(bits)
            &&& result is Some && !(op is Exp && value(a) < 0 && odd) ==> result == Some(
                Argument::Float(bits),
            )
            &&& result is Some && op is Exp && value(a) < 0 && odd ==> (result matches Some(
                Argument::Float(negated),
            ) && scaled(negated) == -scaled(bits))
        }),
{
    let bits = compute(RealCall::Binary(op, a, b));
    crate::function::single::lemma_negated(bits, crate::function::argument::opposite(bits));
}

/// An operator with two operands takes the lower one first, and leaves its result in their place;
/// one with a single operand replaces the top. Without enough operands, or a result, nothing
/// comes out.
pub proof fn lemma_operands_taken(
    op: CalculatorInstruction,
    below: Seq<Argument>,
    a: Argument,
    b: Argument,
    compute: spec_fn(RealCall) -> u32,
)
    ensures
        op is Add || op is Sub || op is Mul || op is Div || op is Idiv || op is Mod || op is Atan
            || op is Exp || op is Bitshift || op is And || op is Or || op is Xor || op is Eq
            || op is Ne || op is Lt || op is Le || op is Gt || op is Ge ==> {
            &&& step(op, below.push(a).push(b), compute) == match binary_result(
                op,
                a,
                b,
                compute,
            ) {
                Some(result) => Some(below.push(result)),
                None => None,
            }
            &&& step(op, seq![a], compute) is None
            &&& step(op, Seq::empty(), compute) is None
        },
        op is Abs || op is Neg || op is Not || op is Ceiling || op is Floor || op is Round
            || op is Truncate || op is Sqrt || op is Sin || op is Cos || op is Ln || op is Log
            || op is Cvi || op is Cvr ==> {
            &&& step(op, below.push(a), compute) == match unary_result(op, a, compute) {
                Some(result) => Some(below.push(result)),
                None => None,
            }
            &&& step(op, Seq::empty(), compute) is None
        },
{
    let stack = below.push(a).push(b);
    assert(stack.take(stack.len() - 2) =~= below);
    assert(below.push(a).drop_last() =~= below);
}

/// The operators that only move operands: exchanging twice, or duplicating and dropping, changes
/// nothing; the operand at index zero is the top.
pub proof fn lemma_operands_moved(
    below: Seq<Argument>,
    a: Argument,
    b: Argument,
    compute: spec_fn(RealCall) -> u32,
)
    requires
        below.len() + 3 <= MAX_OPERANDS,
    ensures
        step(CalculatorInstruction::Exch, below.push(a).push(b), compute) == Some(
            below.push(b).push(a),
        ),
        step(CalculatorInstruction::Dup, below.push(a), compute) == Some(below.push(a).push(a)),
        step(CalculatorInstruction::Pop, below.push(a), compute) == Some(below),
        step(CalculatorInstruction::True, below, compute) == Some(
            below.push(Argument::Bool(true)),
        ),
        step(CalculatorInstruction::False, below, compute) == Some(
            below.push(Argument::Bool(false)),
        ),
        step(
            CalculatorInstruction::Index,
            below.push(a).push(b).push(Argument::Integer(0)),
            compute,
        ) == Some(below.push(a).push(b).push(b)),
        step(
            CalculatorInstruction::Index,
            below.push(a).push(b).push(Argument::Integer(1)),
            compute,
        ) == Some(below.push(a).push(b).push(a)),
{
    let stack = below.push(a).push(b);
    assert(stack.take(stack.len() - 2) =~= below);
    assert(below.push(a).drop_last() =~= below);
    let zero = stack.push(Argument::Integer(0));
    let one = stack.push(Argument::Integer(1));
    assert(zero.drop_last() =~= stack);
    assert(one.drop_last() =~= stack);
}

/// An index counts operands down from the top: what it fetches is the operand so far below, and
/// nothing else moves. A negative index, or one beyond the operands, fetches nothing.
pub proof fn lemma_index(stack: Seq<Argument>, depth: i32, compute: spec_fn(RealCall) -> u32)
    ensures
        step(CalculatorInstruction::Index, stack.push(Argument::Integer(depth)), compute) == if 0
            <= depth < stack.len() {
            Some(stack.push(stack[stack.len() - 1 - depth]))
        } else {
            None
        },
{
    let all = stack.push(Argument::Integer(depth));
    assert(all.drop_last() =~= stack);
}

/// Copying puts the topmost operands on top again, in their order.
pub proof fn lemma_copy(stack: Seq<Argument>, count: i32, compute: spec_fn(RealCall) -> u32)
    ensures
        step(CalculatorInstruction::Copy, stack.push(Argument::Integer(count)), compute) == if 0
            <= count <= stack.len() && stack.len() + count <= MAX_OPERANDS {
            Some(stack + stack.subrange(stack.len() - count, stack.len() as int))
        } else {
            None
        },
{
    let all = stack.push(Argument::Integer(count));
    assert(all.drop_last() =~= stack);
    if 0 <= count <= stack.len() {
        assert(stack.skip(stack.len() - count) =~= stack.subrange(
            stack.len() - count,
            stack.len() as int,
        ));
    }
}

/// Rolling brings the topmost operands of a group to its bottom, as many as the shift says. Those
/// below the group stay.
pub proof fn lemma_roll(
    below: Seq<Argument>,
    rest: Seq<Argument>,
    top: Seq<Argument>,
    count: i32,
    shift: i32,
    compute: spec_fn(RealCall) -> u32,
)
    requires
        count == rest.len() + top.len(),
        shift == top.len(),
        rest.len() > 0,
    ensures
        step(
            CalculatorInstruction::Roll,
            (below + rest + top).push(Argument::Integer(count)).push(Argument::Integer(shift)),
            compute,
        ) == Some(below + top + rest),
        step(
            CalculatorInstruction::Roll,
            (below + top + rest).push(Argument::Integer(count)).push(
                Argument::Integer((-shift) as i32),
            ),
            compute,
        ) == Some(below + rest + top),
{
    let items = below + rest + top;
    let all = items.push(Argument::Integer(count)).push(Argument::Integer(shift));
    assert(all.take(all.len() - 2) =~= items);
    let moved = crate::function::evaluate::InterpreterStack::rolled(
        items,
        items.len() - count,
        shift as int,
    );
    assert forall|i: int| 0 <= i < moved.len() implies #[trigger] moved[i] == (below + top
        + rest)[i] by {
        let start = below.len() as int;
        if i >= start {
            let k = i - start;
            if k < shift {
                vstd::arithmetic::div_mod::lemma_fundamental_div_mod_converse(
                    k - shift,
                    count as int,
                    -1,
                    k - shift + count,
                );
            } else {
                vstd::arithmetic::div_mod::lemma_small_mod((k - shift) as nat, count as nat);
            }
        }
    }
    assert(moved =~= below + top + rest);
    let back_items = below + top + rest;
    let back = back_items.push(Argument::Integer(count)).push(Argument::Integer((-shift) as i32));
    assert(back.take(back.len() - 2) =~= back_items);
    let returned = crate::function::evaluate::InterpreterStack::rolled(
        back_items,
        back_items.len() - count,
        -shift,
    );
    assert forall|i: int| 0 <= i < returned.len() implies #[trigger] returned[i] == (below + rest
        + top)[i] by {
        let start = below.len() as int;
        if i >= start {
            let k = i - start;
            if k + shift < count {
                vstd::arithmetic::div_mod::lemma_small_mod((k + shift) as nat, count as nat);
            } else {
                vstd::arithmetic::div_mod::lemma_fundamental_div_mod_converse(
                    k + shift,
                    count as int,
                    1,
                    k + shift - count,
                );
            }
        }
    }
    assert(returned =~= below + rest + top);
}

/// A program runs its operations in order: the rest goes on from what the first one leaves.
pub proof fn lemma_run_in_order(
    op: OpModel,
    rest: Seq<OpModel>,
    stack: Seq<Argument>,
    compute: spec_fn(RealCall) -> u32,
)
    ensures
        evaluated(seq![op] + rest, 0, stack, compute) == match evaluated(
            seq![op],
            0,
            stack,
            compute,
        ) {
            None => None,
            Some(after) => evaluated(rest, 0, after, compute),
        },
        evaluated(Seq::empty(), 0, stack, compute) == Some(stack),
{
    let all = seq![op] + rest;
    assert(all[0] == op);
    lemma_first(all, 0, stack, compute);
    match evaluated(seq![op], 0, stack, compute) {
        Some(after) => {
            lemma_shifted(op, rest, 0, after, compute);
        },
        None => {},
    }
}

proof fn lemma_first(
    ops: Seq<OpModel>,
    i: nat,
    stack: Seq<Argument>,
    compute: spec_fn(RealCall) -> u32,
)
    requires
        i < ops.len(),
    ensures
        evaluated(ops, i, stack, compute) == match evaluated(
            seq![ops[i as int]],
            0,
            stack,
            compute,
        ) {
            None => None,
            Some(after) => evaluated(ops, i + 1, after, compute),
        },
{
    let one = seq![ops[i as int]];
    assert(one[0] == ops[i as int]);
    let next = match ops[i as int] {
        OpModel::Number(number) => match number_argument(number) {
            None => None,
            Some(a) => crate::function::evaluate::pushed(stack, a),
        },
        OpModel::Operator(op) => step(op, stack, compute),
        OpModel::If(body) => match stack.last() {
            Argument::Bool(true) => evaluated(body, 0, stack.drop_last(), compute),
            _ => Some(stack.drop_last()),
        },
        OpModel::IfElse(yes, no) => match stack.last() {
            Argument::Bool(true) => evaluated(yes, 0, stack.drop_last(), compute),
            _ => evaluated(no, 0, stack.drop_last(), compute),
        },
    };
    if next is Some {
        assert(evaluated(one, 1, next->0, compute) == next);
    }
}

proof fn lemma_shifted(
    op: OpModel,
    rest: Seq<OpModel>,
    i: nat,
    stack: Seq<Argument>,
    compute: spec_fn(RealCall) -> u32,
)
    ensures
        evaluated(seq![op] + rest, i + 1, stack, compute) == evaluated(rest, i, stack, compute),
    decreases rest.len() - i,
{
    let all = seq![op] + rest;
    if i < rest.len() {
        assert(all[i as int + 1] == rest[i as int]);
        lemma_first(all, i + 1, stack, compute);
        lemma_first(rest, i, stack, compute);
        match evaluated(seq![rest[i as int]], 0, stack, compute) {
            Some(after) => {
                lemma_shifted(op, rest, i + 1, after, compute);
            },
            None => {},
        }
    }
}

/// A procedure runs if its condition holds; of two procedures the first does, and else the second.
/// What is no condition decides nothing.
pub proof fn lemma_branches(
    yes: Seq<OpModel>,
    no: Seq<OpModel>,
    stack: Seq<Argument>,
    condition: bool,
    a: Argument,
    compute: spec_fn(RealCall) -> u32,
)
    requires
        !(a is Bool),
    ensures
        evaluated(seq![OpModel::If(yes)], 0, stack.push(Argument::Bool(condition)), compute) == if
            condition {
            evaluated(yes, 0, stack, compute)
        } else {
            Some(stack)
        },
        evaluated(
            seq![OpModel::IfElse(yes, no)],
            0,
            stack.push(Argument::Bool(condition)),
            compute,
        ) == if condition {
            evaluated(yes, 0, stack, compute)
        } else {
            evaluated(no, 0, stack, compute)
        },
        evaluated(seq![OpModel::If(yes)], 0, stack.push(a), compute) is None,
        evaluated(seq![OpModel::IfElse(yes, no)], 0, stack.push(a), compute) is None,
{
    let first = seq![OpModel::If(yes)];
    let second = seq![OpModel::IfElse(yes, no)];
    assert(first[0] == OpModel::If(yes));
    assert(second[0] == OpModel::IfElse(yes, no));
    assert(first[0]->If_0 == yes);
    assert(second[0]->IfElse_0 == yes);
    assert(second[0]->IfElse_1 == no);
    let given = stack.push(Argument::Bool(condition));
    assert(given.drop_last() =~= stack);
    reveal_with_fuel(evaluated, 2);
}

/// A number is pushed: as a whole number if it is written as one and fits 32 bits, and else as a
/// real one.
pub proof fn lemma_number_pushed(
    number: Number,
    stack: Seq<Argument>,
    compute: spec_fn(RealCall) -> u32,
)
    requires
        stack.len() < MAX_OPERANDS,
        finite(number.single),
    ensures
        evaluated(seq![OpModel::Number(number)], 0, stack, compute) == Some(
            stack.push(
                match number.integer {
                    Some(v) => if -0x8000_0000 <= v <= 0x7FFF_FFFF {
                        Argument::Integer(v as i32)
                    } else {
                        Argument::Float(number.single)
                    },
                    None => Argument::Float(number.single),
                },
            ),
        ),
{
    let program = seq![OpModel::Number(number)];
    assert(program[0] == OpModel::Number(number));
    reveal_with_fuel(evaluated, 2);
}

} // verus!
