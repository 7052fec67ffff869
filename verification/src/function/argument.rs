//! Numeric objects for the PDF calculator's 32-bit integer/real implementation.

use crate::function::instruction::CalculatorInstruction;
use crate::function::single::{
    absolute, finite, is_finite, lemma_rank, lemma_whole, magnitude, negated, rank_of, scaled,
    whole, whole_part,
};
use crate::object::Number;
use vstd::arithmetic::power2::{lemma_pow2_adds, lemma_pow2_pos, lemma2_to64, pow2};
use vstd::prelude::*;

verus! {

/// An operand of the calculator.
#[derive(Clone, Copy, Debug, PartialEq, Eq, Structural)]
pub enum Argument {
    Integer(i32),
    /// A finite number, given by its bits in single precision.
    Float(u32),
    Bool(bool),
}

/// A computation in single precision.
#[derive(Clone, Copy, Debug, PartialEq, Eq, Structural)]
pub enum RealCall {
    /// Round a whole number.
    Widen(i64),
    /// Apply an operator to an operand, rounded first if it is an integer.
    Unary(CalculatorInstruction, Argument),
    /// Apply an operator to two operands, each rounded first if it is an integer. The power of a
    /// negative number is that of its absolute value.
    Binary(CalculatorInstruction, Argument, Argument),
}

/// A function computes given numbers.
pub open spec fn computes<F: Fn(RealCall) -> u32>(
    compute: F,
    value: spec_fn(RealCall) -> u32,
) -> bool {
    forall|call: RealCall, bits: u32| #[trigger]
        call_ensures(compute, (call,), bits) ==> bits == value(call)
}

/// A function accepts all computations.
pub open spec fn accepts<F: Fn(RealCall) -> u32>(compute: F) -> bool {
    forall|call: RealCall| call_requires(compute, (call,))
}

/// A real number, unless it is not finite.
pub open spec fn real_result(bits: u32) -> Option<Argument> {
    if finite(bits) {
        Some(Argument::Float(bits))
    } else {
        None
    }
}

/// A number written in a program: an integer if it fits 32 bits.
pub open spec fn number_argument(number: Number) -> Option<Argument> {
    match number.integer {
        Some(value) if i32::MIN <= value <= i32::MAX => Some(Argument::Integer(value as i32)),
        _ => real_result(number.single),
    }
}

/// The value of a number times 2^149.
pub open spec fn value(a: Argument) -> int {
    match a {
        Argument::Integer(v) => whole(v as int),
        Argument::Float(bits) => scaled(bits),
        Argument::Bool(_) => 0,
    }
}

/// Real operands are finite.
pub open spec fn well_formed(a: Argument) -> bool {
    a matches Argument::Float(bits) ==> finite(bits)
}

/// A whole number, rounded if it does not fit 32 bits.
pub open spec fn wide(v: int, compute: spec_fn(RealCall) -> u32) -> Option<Argument> {
    if i32::MIN <= v <= i32::MAX {
        Some(Argument::Integer(v as i32))
    } else {
        real_result(compute(RealCall::Widen(v as i64)))
    }
}

/// The size of an integer.
pub open spec fn size(v: int) -> int {
    if v < 0 {
        -v
    } else {
        v
    }
}

/// A quotient rounded toward zero.
pub open spec fn quotient(a: int, b: int) -> int {
    let q = size(a) / size(b);
    if (a < 0) != (b < 0) {
        -q
    } else {
        q
    }
}

/// A scaled number rounded toward zero.
pub open spec fn truncated(s: int) -> int {
    quotient(s, pow2(149) as int)
}

/// The bits without a sign.
pub open spec fn unsigned(bits: u32) -> u32 {
    magnitude(bits) as u32
}

/// The bits with the opposite sign.
pub open spec fn opposite(bits: u32) -> u32 {
    if bits >= 0x8000_0000 {
        (bits - 0x8000_0000) as u32
    } else {
        (bits + 0x8000_0000) as u32
    }
}

/// What an operator makes of one operand.
pub open spec fn unary_result(
    op: CalculatorInstruction,
    a: Argument,
    compute: spec_fn(RealCall) -> u32,
) -> Option<Argument> {
    match (op, a) {
        (CalculatorInstruction::Not, Argument::Integer(v)) => Some(
            Argument::Integer((-v - 1) as i32),
        ),
        (CalculatorInstruction::Not, Argument::Bool(v)) => Some(Argument::Bool(!v)),
        (CalculatorInstruction::Not, Argument::Float(_)) => None,
        (_, Argument::Bool(_)) => None,
        (CalculatorInstruction::Abs, Argument::Integer(v)) => wide(size(v as int), compute),
        (CalculatorInstruction::Abs, Argument::Float(bits)) => Some(
            Argument::Float(unsigned(bits)),
        ),
        (CalculatorInstruction::Neg, Argument::Integer(v)) => wide(-v, compute),
        (CalculatorInstruction::Neg, Argument::Float(bits)) => Some(
            Argument::Float(opposite(bits)),
        ),
        (
            CalculatorInstruction::Cvi
            | CalculatorInstruction::Ceiling
            | CalculatorInstruction::Floor
            | CalculatorInstruction::Round
            | CalculatorInstruction::Truncate,
            Argument::Integer(_),
        ) => Some(a),
        (CalculatorInstruction::Cvi, Argument::Float(bits)) => if whole(-0x8000_0000) <= scaled(
            bits,
        ) < whole(0x8000_0000) {
            Some(Argument::Integer(truncated(scaled(bits)) as i32))
        } else {
            None
        },
        (CalculatorInstruction::Cvr, Argument::Float(_)) => Some(a),
        (
            CalculatorInstruction::Cvr
            | CalculatorInstruction::Ceiling
            | CalculatorInstruction::Floor
            | CalculatorInstruction::Round
            | CalculatorInstruction::Truncate
            | CalculatorInstruction::Cos
            | CalculatorInstruction::Sin,
            _,
        ) => real_result(compute(RealCall::Unary(op, a))),
        (CalculatorInstruction::Ln | CalculatorInstruction::Log, _) => if value(a) > 0 {
            real_result(compute(RealCall::Unary(op, a)))
        } else {
            None
        },
        (CalculatorInstruction::Sqrt, _) => if value(a) >= 0 {
            real_result(compute(RealCall::Unary(op, a)))
        } else {
            None
        },
        _ => None,
    }
}

/// An integer as an unsigned 32-bit number.
pub open spec fn as_unsigned(v: int) -> int {
    if v < 0 {
        v + 0x1_0000_0000
    } else {
        v
    }
}

/// An unsigned 32-bit number as an integer.
pub open spec fn as_signed(v: int) -> int {
    if v >= 0x8000_0000 {
        v - 0x1_0000_0000
    } else {
        v
    }
}

/// The bits of an integer shifted left, or right if the shift is negative; zeros move in.
pub open spec fn shifted(v: int, shift: int) -> int {
    as_signed(
        if size(shift) >= 32 {
            0
        } else if shift >= 0 {
            (as_unsigned(v) * pow2(shift as nat)) % 0x1_0000_0000
        } else {
            as_unsigned(v) / (pow2((-shift) as nat) as int)
        },
    )
}

/// A number is whole.
pub open spec fn is_whole(a: Argument) -> bool {
    value(a) % (pow2(149) as int) == 0
}

/// A whole number is odd.
pub open spec fn is_odd(a: Argument) -> bool {
    (value(a) / (pow2(149) as int)) % 2 == 1
}

/// What an operator of real arithmetic makes of two numbers.
pub open spec fn arithmetic_result(
    op: CalculatorInstruction,
    a: Argument,
    b: Argument,
    compute: spec_fn(RealCall) -> u32,
) -> Option<Argument> {
    let result = compute(RealCall::Binary(op, a, b));
    match op {
        CalculatorInstruction::Add
        | CalculatorInstruction::Sub
        | CalculatorInstruction::Mul => real_result(result),
        CalculatorInstruction::Div => if value(b) != 0 {
            real_result(result)
        } else {
            None
        },
        CalculatorInstruction::Atan => if value(a) != 0 || value(b) != 0 {
            real_result(result)
        } else {
            None
        },
        CalculatorInstruction::Exp => if value(a) == 0 && value(b) < 0 {
            None
        } else if value(a) >= 0 {
            real_result(result)
        } else if !is_whole(b) {
            None
        } else if is_odd(b) {
            real_result(opposite(result))
        } else {
            real_result(result)
        },
        _ => None,
    }
}

/// What an operator makes of two operands.
pub open spec fn binary_result(
    op: CalculatorInstruction,
    a: Argument,
    b: Argument,
    compute: spec_fn(RealCall) -> u32,
) -> Option<Argument> {
    match (op, a, b) {
        (CalculatorInstruction::And, Argument::Integer(x), Argument::Integer(y)) => Some(
            Argument::Integer(x & y),
        ),
        (CalculatorInstruction::Or, Argument::Integer(x), Argument::Integer(y)) => Some(
            Argument::Integer(x | y),
        ),
        (CalculatorInstruction::Xor, Argument::Integer(x), Argument::Integer(y)) => Some(
            Argument::Integer(x ^ y),
        ),
        (CalculatorInstruction::And, Argument::Bool(x), Argument::Bool(y)) => Some(
            Argument::Bool(x && y),
        ),
        (CalculatorInstruction::Or, Argument::Bool(x), Argument::Bool(y)) => Some(
            Argument::Bool(x || y),
        ),
        (CalculatorInstruction::Xor, Argument::Bool(x), Argument::Bool(y)) => Some(
            Argument::Bool(x != y),
        ),
        (
            CalculatorInstruction::And | CalculatorInstruction::Or | CalculatorInstruction::Xor,
            _,
            _,
        ) => None,
        (CalculatorInstruction::Eq, Argument::Bool(x), Argument::Bool(y)) => Some(
            Argument::Bool(x == y),
        ),
        (CalculatorInstruction::Ne, Argument::Bool(x), Argument::Bool(y)) => Some(
            Argument::Bool(x != y),
        ),
        (CalculatorInstruction::Eq, _, _) => Some(
            Argument::Bool(!(a is Bool) && !(b is Bool) && value(a) == value(b)),
        ),
        (CalculatorInstruction::Ne, _, _) => Some(
            Argument::Bool(a is Bool || b is Bool || value(a) != value(b)),
        ),
        (_, Argument::Bool(_), _) => None,
        (_, _, Argument::Bool(_)) => None,
        (CalculatorInstruction::Ge, _, _) => Some(Argument::Bool(value(a) >= value(b))),
        (CalculatorInstruction::Gt, _, _) => Some(Argument::Bool(value(a) > value(b))),
        (CalculatorInstruction::Le, _, _) => Some(Argument::Bool(value(a) <= value(b))),
        (CalculatorInstruction::Lt, _, _) => Some(Argument::Bool(value(a) < value(b))),
        (CalculatorInstruction::Idiv, Argument::Integer(x), Argument::Integer(y)) => if y == 0 || (
        x == i32::MIN && y == -1) {
            None
        } else {
            Some(Argument::Integer(quotient(x as int, y as int) as i32))
        },
        (CalculatorInstruction::Mod, Argument::Integer(x), Argument::Integer(y)) => if y == 0 {
            None
        } else {
            Some(Argument::Integer((x - y * quotient(x as int, y as int)) as i32))
        },
        (CalculatorInstruction::Bitshift, Argument::Integer(x), Argument::Integer(y)) => Some(
            Argument::Integer(shifted(x as int, y as int) as i32),
        ),
        (
            CalculatorInstruction::Idiv
            | CalculatorInstruction::Mod
            | CalculatorInstruction::Bitshift,
            _,
            _,
        ) => None,
        (CalculatorInstruction::Add, Argument::Integer(x), Argument::Integer(y)) => wide(
            x + y,
            compute,
        ),
        (CalculatorInstruction::Sub, Argument::Integer(x), Argument::Integer(y)) => wide(
            x - y,
            compute,
        ),
        (CalculatorInstruction::Mul, Argument::Integer(x), Argument::Integer(y)) => wide(
            x * y,
            compute,
        ),
        _ => arithmetic_result(op, a, b, compute),
    }
}

/// A real number, unless it is not finite.
fn checked(bits: u32) -> (result: Option<Argument>)
    ensures
        result == real_result(bits),
{
    if is_finite(bits) {
        Some(Argument::Float(bits))
    } else {
        None
    }
}

fn widen<F: Fn(RealCall) -> u32>(v: i64, compute: &F) -> (result: Option<Argument>)
    requires
        accepts(*compute),
    ensures
        forall|r: spec_fn(RealCall) -> u32| #[trigger] computes(*compute, r) ==> result == wide(
            v as int,
            r,
        ),
        result matches Some(argument) ==> well_formed(argument),
{
    if v >= i32::MIN as i64 && v <= i32::MAX as i64 {
        Some(Argument::Integer(v as i32))
    } else {
        checked(compute(RealCall::Widen(v)))
    }
}

/// The order of two numbers: below, equal or above.
#[derive(Clone, Copy, PartialEq, Eq, Structural)]
enum Order {
    Below,
    Equal,
    Above,
}

spec fn is_order(order: Order, a: int, b: int) -> bool {
    &&& (order == Order::Below) == (a < b)
    &&& (order == Order::Equal) == (a == b)
    &&& (order == Order::Above) == (a > b)
}

fn order_integers(a: i64, b: i64) -> (order: Order)
    ensures
        is_order(order, a as int, b as int),
{
    if a < b {
        Order::Below
    } else if a == b {
        Order::Equal
    } else {
        Order::Above
    }
}

/// The order of an integer and a real number.
fn order_mixed(v: i32, bits: u32) -> (order: Order)
    requires
        finite(bits),
    ensures
        is_order(order, whole(v as int), scaled(bits)),
{
    let part = whole_part(bits);
    proof {
        lemma_whole(v as int, part.floor as int);
        lemma_whole(v as int, part.floor + 1);
        lemma_whole(v as int, 0x1_0000_0000);
        lemma_whole(v as int, -0x1_0000_0000);
    }
    if (v as i64) < part.floor {
        Order::Below
    } else if v as i64 > part.floor {
        Order::Above
    } else if part.fraction {
        Order::Below
    } else {
        Order::Equal
    }
}

/// The order of two numbers.
fn order(a: Argument, b: Argument) -> (order: Order)
    requires
        well_formed(a),
        well_formed(b),
        !(a is Bool),
        !(b is Bool),
    ensures
        is_order(order, value(a), value(b)),
{
    match (a, b) {
        (Argument::Integer(x), Argument::Integer(y)) => {
            proof {
                lemma_whole(x as int, y as int);
                lemma_whole(y as int, x as int);
            }
            order_integers(x as i64, y as i64)
        },
        (Argument::Float(x), Argument::Float(y)) => {
            proof {
                lemma_rank(x, y);
                lemma_rank(y, x);
            }
            order_integers(rank_of(x), rank_of(y))
        },
        (Argument::Integer(x), Argument::Float(y)) => order_mixed(x, y),
        (Argument::Float(x), Argument::Integer(y)) => {
            match order_mixed(y, x) {
                Order::Below => Order::Above,
                Order::Equal => Order::Equal,
                Order::Above => Order::Below,
            }
        },
        _ => Order::Equal,
    }
}

/// The sign of a number.
fn sign(a: Argument) -> (order: Order)
    requires
        well_formed(a),
        !(a is Bool),
    ensures
        is_order(order, value(a), 0),
{
    proof {
        assert(whole(0) == 0) by (nonlinear_arith)
            requires
                whole(0) == 0 * pow2(149),
        ;
    }
    order(a, Argument::Integer(0))
}

proof fn lemma_whole_parts(s: int, floor: int)
    requires
        whole(floor) <= s < whole(floor + 1),
    ensures
        s / (pow2(149) as int) == floor,
        s % (pow2(149) as int) == s - whole(floor),
{
    let unit = pow2(149) as int;
    lemma_pow2_pos(149);
    assert((floor + 1) * unit == floor * unit + unit) by (nonlinear_arith);
    vstd::arithmetic::div_mod::lemma_fundamental_div_mod_converse(
        s,
        unit,
        floor,
        s - floor * unit,
    );
}

/// A real number rounded toward zero, if it fits 32 bits.
fn truncate(bits: u32) -> (result: Option<Argument>)
    requires
        finite(bits),
    ensures
        result == if whole(-0x8000_0000) <= scaled(bits) < whole(0x8000_0000) {
            Some(Argument::Integer(truncated(scaled(bits)) as i32))
        } else {
            None
        },
{
    let part = whole_part(bits);
    let ghost s = scaled(bits);
    let ghost f = part.floor as int;
    let ghost unit = pow2(149) as int;
    proof {
        lemma_pow2_pos(149);
        lemma_whole(f, -0x8000_0000);
        lemma_whole(f, 0x8000_0000);
        lemma_whole(f + 1, 0x8000_0000);
        lemma_whole(f + 1, -0x8000_0000);
        lemma_whole(-0x1_0000_0000, -0x8000_0000);
        lemma_whole(0x8000_0000, 0x1_0000_0000);
        lemma_whole(-0x8000_0000, 0x1_0000_0000);
        lemma_whole(-0x1_0000_0000, 0x8000_0000);
    }
    if part.floor < -0x8000_0000 || part.floor >= 0x8000_0000 {
        return None;
    }
    proof {
        lemma_whole_parts(s, f);
        lemma_whole(f, 0);
        lemma_whole(f + 1, 0);
        assert(whole(0) == 0) by (nonlinear_arith)
            requires
                whole(0) == 0 * pow2(149),
        ;
        if s < 0 {
            // The size of the number lies between the sizes of the whole numbers around it.
            let g = if part.fraction {
                f + 1
            } else {
                f
            };
            assert(whole(-g) == -whole(g)) by (nonlinear_arith)
                requires
                    whole(-g) == (-g) * pow2(149),
                    whole(g) == g * pow2(149),
            ;
            assert(whole(-g + 1) == whole(-g) + unit) by (nonlinear_arith)
                requires
                    whole(-g + 1) == (-g + 1) * unit,
                    whole(-g) == (-g) * unit,
            ;
            assert(whole(f + 1) == whole(f) + unit) by (nonlinear_arith)
                requires
                    whole(f + 1) == (f + 1) * unit,
                    whole(f) == f * unit,
            ;
            lemma_whole_parts(-s, -g);
        }
    }
    let toward_zero: i64 = if part.floor < 0 && part.fraction {
        part.floor + 1
    } else {
        part.floor
    };
    Some(Argument::Integer(toward_zero as i32))
}

/// The size of an integer.
fn size_of(v: i64) -> (result: i64)
    requires
        v > i64::MIN,
    ensures
        result == size(v as int),
{
    if v < 0 {
        -v
    } else {
        v
    }
}

/// A quotient rounded toward zero.
fn divide(a: i64, b: i64) -> (q: i64)
    requires
        -0x8000_0000 <= a <= 0x7FFF_FFFF,
        -0x8000_0000 <= b <= 0x7FFF_FFFF,
        b != 0,
    ensures
        q == quotient(a as int, b as int),
        -0x8000_0000 <= q <= 0x8000_0000,
{
    let p: i64 = size_of(a);
    let d: i64 = size_of(b);
    assert(p / d <= p) by (nonlinear_arith)
        requires
            p >= 0,
            d >= 1,
    ;
    assert(p / d >= 0) by (nonlinear_arith)
        requires
            p >= 0,
            d >= 1,
    ;
    let q: u64 = p as u64 / d as u64;
    if (a < 0) != (b < 0) {
        -(q as i64)
    } else {
        q as i64
    }
}

proof fn lemma_remainder(a: int, b: int)
    requires
        -0x8000_0000 <= a <= 0x7FFF_FFFF,
        -0x8000_0000 <= b <= 0x7FFF_FFFF,
        b != 0,
    ensures
        -0x8000_0000 <= a - b * quotient(a, b) <= 0x7FFF_FFFF,
        -0x1_0000_0000 <= b * quotient(a, b) <= 0x1_0000_0000,
{
    let q = size(a) / size(b);
    let r = size(a) % size(b);
    assert(size(a) == size(b) * q + r && 0 <= r <= size(a)) by (nonlinear_arith)
        requires
            q == size(a) / size(b),
            r == size(a) % size(b),
            size(b) > 0,
            size(a) >= 0,
    ;
    let t = quotient(a, b);
    assert(b * t == if a < 0 {
        -(size(b) * q)
    } else {
        size(b) * q
    }) by (nonlinear_arith)
        requires
            t == if (a < 0) != (b < 0) {
                -q
            } else {
                q
            },
            b != 0,
            size(b) == if b < 0 {
                -b
            } else {
                b
            },
    ;
}

fn power_of_two(k: u32) -> (p: u64)
    requires
        k < 32,
    ensures
        p == pow2(k as nat),
        1 <= p <= 0x8000_0000,
{
    let mut p: u64 = 1;
    let mut i: u32 = 0;
    proof {
        lemma2_to64();
    }
    while i < k
        invariant
            i <= k < 32,
            p == pow2(i as nat),
            1 <= p <= 0x8000_0000,
        decreases k - i,
    {
        proof {
            lemma_pow2_adds(1, i as nat);
            lemma2_to64();
            if i + 1 < 31 {
                vstd::arithmetic::power2::lemma_pow2_strictly_increases((i + 1) as nat, 31);
            }
        }
        p = p * 2;
        i = i + 1;
    }
    p
}

/// Shift the bits of an integer.
fn shift_bits(v: i32, shift: i32) -> (result: i32)
    ensures
        result == shifted(v as int, shift as int),
{
    let u: u64 = if v < 0 {
        (v as i64 + 0x1_0000_0000) as u64
    } else {
        v as u64
    };
    let distance: i64 = size_of(shift as i64);
    let moved: u64 = if distance >= 32 {
        0
    } else {
        let p: u64 = power_of_two(distance as u32);
        if shift >= 0 {
            assert(u * p <= 0xFFFF_FFFF * 0x8000_0000) by (nonlinear_arith)
                requires
                    u <= 0xFFFF_FFFF,
                    p <= 0x8000_0000,
            ;
            (u * p) % 0x1_0000_0000
        } else {
            assert(u / p <= u) by (nonlinear_arith)
                requires
                    p >= 1,
            ;
            u / p
        }
    };
    if moved >= 0x8000_0000 {
        (moved as i64 - 0x1_0000_0000) as i32
    } else {
        moved as i32
    }
}

/// Whether a number is whole and odd; none if it is not whole.
fn odd_whole(a: Argument) -> (odd: Option<bool>)
    requires
        well_formed(a),
        !(a is Bool),
    ensures
        odd is Some == is_whole(a),
        odd matches Some(odd) ==> odd == is_odd(a),
{
    let ghost unit = pow2(149) as int;
    proof {
        lemma_pow2_pos(149);
    }
    match a {
        Argument::Integer(v) => {
            proof {
                assert(whole(v + 1) == whole(v as int) + unit) by (nonlinear_arith)
                    requires
                        whole(v + 1) == (v + 1) * unit,
                        whole(v as int) == v * unit,
                ;
                lemma_whole_parts(whole(v as int), v as int);
            }
            Some(odd_integer(v as i64))
        },
        Argument::Float(bits) => {
            let part = whole_part(bits);
            if size_of(part.floor) == 0x2_0000_0000 {
                proof {
                    lemma_far_even(bits);
                }
                return Some(false);
            }
            proof {
                lemma_whole_parts(scaled(bits), part.floor as int);
            }
            if part.fraction {
                None
            } else {
                Some(odd_integer(part.floor))
            }
        },
        Argument::Bool(_) => None,
    }
}

fn odd_integer(v: i64) -> (odd: bool)
    requires
        v > i64::MIN,
    ensures
        odd == (v as int % 2 == 1),
{
    size_of(v) as u64 % 2 == 1
}

/// Numbers far from zero are even.
proof fn lemma_far_even(bits: u32)
    requires
        crate::function::single::exponent(bits) >= 159,
    ensures
        is_whole(Argument::Float(bits)),
        !is_odd(Argument::Float(bits)),
{
    let e = crate::function::single::exponent(bits);
    let m = crate::function::single::significand(bits);
    let unit = pow2(149) as int;
    lemma_pow2_pos(149);
    lemma_pow2_adds((e - 151) as nat, 1);
    lemma_pow2_adds((e - 150) as nat, 149);
    assert(pow2(1) == 2) by {
        lemma2_to64();
    }
    let half = m * pow2((e - 151) as nat);
    let t = if crate::function::single::is_negative(bits) {
        -half
    } else {
        half
    };
    assert(scaled(bits) == (2 * t) * unit) by (nonlinear_arith)
        requires
            scaled(bits) == if crate::function::single::is_negative(bits) {
                -(m * pow2((e - 1) as nat))
            } else {
                m * pow2((e - 1) as nat)
            },
            pow2((e - 1) as nat) == pow2((e - 150) as nat) * unit,
            pow2((e - 150) as nat) == pow2((e - 151) as nat) * 2,
            half == m * pow2((e - 151) as nat),
            t == if crate::function::single::is_negative(bits) {
                -half
            } else {
                half
            },
    ;
    assert(whole(2 * t + 1) == whole(2 * t) + unit) by (nonlinear_arith)
        requires
            whole(2 * t + 1) == (2 * t + 1) * unit,
            whole(2 * t) == (2 * t) * unit,
    ;
    lemma_whole_parts(scaled(bits), 2 * t);
}

impl Argument {
    /// A number written in a program.
    pub fn from_number(number: Number) -> (argument: Option<Self>)
        ensures
            argument == number_argument(number),
    {
        match number.integer {
            Some(value) => {
                if value >= i32::MIN as i64 && value <= i32::MAX as i64 {
                    return Some(Argument::Integer(value as i32));
                }
            },
            None => {},
        }
        checked(number.single)
    }

    /// A real number, given by its bits, unless it is not finite.
    pub fn float(bits: u32) -> (argument: Option<Self>)
        ensures
            argument == real_result(bits),
    {
        checked(bits)
    }

    /// The value of an integer.
    pub fn integer(self) -> (value: Option<i32>)
        ensures
            value == match self {
                Argument::Integer(value) => Some(value),
                _ => None,
            },
    {
        match self {
            Argument::Integer(value) => Some(value),
            _ => None,
        }
    }

    /// The value of an integer that is not negative.
    pub fn count(self) -> (value: Option<usize>)
        ensures
            match self {
                Argument::Integer(count) if count >= 0 => value == Some(count as usize),
                _ => value is None,
            },
    {
        match self {
            Argument::Integer(value) => if value >= 0 {
                Some(value as usize)
            } else {
                None
            },
            _ => None,
        }
    }

    /// The value of a condition.
    pub fn boolean(self) -> (value: Option<bool>)
        ensures
            value == match self {
                Argument::Bool(value) => Some(value),
                _ => None,
            },
    {
        match self {
            Argument::Bool(value) => Some(value),
            _ => None,
        }
    }

    /// Apply an operator to one operand.
    pub fn unary<F: Fn(RealCall) -> u32>(self, op: CalculatorInstruction, compute: &F) -> (result:
        Option<Self>)
        requires
            accepts(*compute),
            well_formed(self),
        ensures
            forall|r: spec_fn(RealCall) -> u32| #[trigger]
                computes(*compute, r) ==> result == unary_result(op, self, r),
            result matches Some(argument) ==> well_formed(argument),
    {
        match (op, self) {
            (CalculatorInstruction::Not, Argument::Integer(v)) => Some(Argument::Integer(-1 - v)),
            (CalculatorInstruction::Not, Argument::Bool(v)) => Some(Argument::Bool(!v)),
            (CalculatorInstruction::Not, Argument::Float(_)) => None,
            (_, Argument::Bool(_)) => None,
            (CalculatorInstruction::Abs, Argument::Integer(v)) => widen(size_of(v as i64), compute),
            (CalculatorInstruction::Abs, Argument::Float(bits)) => Some(
                Argument::Float(absolute(bits)),
            ),
            (CalculatorInstruction::Neg, Argument::Integer(v)) => widen(-(v as i64), compute),
            (CalculatorInstruction::Neg, Argument::Float(bits)) => Some(
                Argument::Float(negated(bits)),
            ),
            (
                CalculatorInstruction::Cvi
                | CalculatorInstruction::Ceiling
                | CalculatorInstruction::Floor
                | CalculatorInstruction::Round
                | CalculatorInstruction::Truncate,
                Argument::Integer(_),
            ) => Some(self),
            (CalculatorInstruction::Cvi, Argument::Float(bits)) => truncate(bits),
            (CalculatorInstruction::Cvr, Argument::Float(_)) => Some(self),
            (
                CalculatorInstruction::Cvr
                | CalculatorInstruction::Ceiling
                | CalculatorInstruction::Floor
                | CalculatorInstruction::Round
                | CalculatorInstruction::Truncate
                | CalculatorInstruction::Cos
                | CalculatorInstruction::Sin,
                _,
            ) => checked(compute(RealCall::Unary(op, self))),
            (CalculatorInstruction::Ln | CalculatorInstruction::Log, _) => {
                if sign(self) == Order::Above {
                    checked(compute(RealCall::Unary(op, self)))
                } else {
                    None
                }
            },
            (CalculatorInstruction::Sqrt, _) => {
                if sign(self) == Order::Below {
                    None
                } else {
                    checked(compute(RealCall::Unary(op, self)))
                }
            },
            _ => None,
        }
    }

    fn arithmetic<F: Fn(RealCall) -> u32>(
        self,
        second: Self,
        op: CalculatorInstruction,
        compute: &F,
    ) -> (result: Option<Self>)
        requires
            accepts(*compute),
            well_formed(self),
            well_formed(second),
            !(self is Bool),
            !(second is Bool),
        ensures
            forall|r: spec_fn(RealCall) -> u32| #[trigger]
                computes(*compute, r) ==> result == arithmetic_result(op, self, second, r),
            result matches Some(argument) ==> well_formed(argument),
    {
        match op {
            CalculatorInstruction::Add
            | CalculatorInstruction::Sub
            | CalculatorInstruction::Mul => checked(compute(RealCall::Binary(op, self, second))),
            CalculatorInstruction::Div => {
                if sign(second) == Order::Equal {
                    None
                } else {
                    checked(compute(RealCall::Binary(op, self, second)))
                }
            },
            CalculatorInstruction::Atan => {
                if sign(self) == Order::Equal && sign(second) == Order::Equal {
                    None
                } else {
                    checked(compute(RealCall::Binary(op, self, second)))
                }
            },
            CalculatorInstruction::Exp => {
                let base = sign(self);
                if base == Order::Equal && sign(second) == Order::Below {
                    return None;
                }
                if base != Order::Below {
                    return checked(compute(RealCall::Binary(op, self, second)));
                }
                match odd_whole(second) {
                    None => None,
                    Some(odd) => {
                        let power: u32 = compute(RealCall::Binary(op, self, second));
                        if odd {
                            checked(negated(power))
                        } else {
                            checked(power)
                        }
                    },
                }
            },
            _ => None,
        }
    }

    /// Apply an operator to two operands.
    pub fn binary<F: Fn(RealCall) -> u32>(
        self,
        second: Self,
        op: CalculatorInstruction,
        compute: &F,
    ) -> (result: Option<Self>)
        requires
            accepts(*compute),
            well_formed(self),
            well_formed(second),
        ensures
            forall|r: spec_fn(RealCall) -> u32| #[trigger]
                computes(*compute, r) ==> result == binary_result(op, self, second, r),
            result matches Some(argument) ==> well_formed(argument),
    {
        match (op, self, second) {
            (CalculatorInstruction::And, Argument::Integer(x), Argument::Integer(y)) => Some(
                Argument::Integer(x & y),
            ),
            (CalculatorInstruction::Or, Argument::Integer(x), Argument::Integer(y)) => Some(
                Argument::Integer(x | y),
            ),
            (CalculatorInstruction::Xor, Argument::Integer(x), Argument::Integer(y)) => Some(
                Argument::Integer(x ^ y),
            ),
            (CalculatorInstruction::And, Argument::Bool(x), Argument::Bool(y)) => Some(
                Argument::Bool(x && y),
            ),
            (CalculatorInstruction::Or, Argument::Bool(x), Argument::Bool(y)) => Some(
                Argument::Bool(x || y),
            ),
            (CalculatorInstruction::Xor, Argument::Bool(x), Argument::Bool(y)) => Some(
                Argument::Bool(x != y),
            ),
            (
                CalculatorInstruction::And | CalculatorInstruction::Or | CalculatorInstruction::Xor,
                _,
                _,
            ) => None,
            (CalculatorInstruction::Eq, Argument::Bool(x), Argument::Bool(y)) => Some(
                Argument::Bool(x == y),
            ),
            (CalculatorInstruction::Ne, Argument::Bool(x), Argument::Bool(y)) => Some(
                Argument::Bool(x != y),
            ),
            (CalculatorInstruction::Eq, Argument::Bool(_), _) => Some(Argument::Bool(false)),
            (CalculatorInstruction::Eq, _, Argument::Bool(_)) => Some(Argument::Bool(false)),
            (CalculatorInstruction::Ne, Argument::Bool(_), _) => Some(Argument::Bool(true)),
            (CalculatorInstruction::Ne, _, Argument::Bool(_)) => Some(Argument::Bool(true)),
            (_, Argument::Bool(_), _) => None,
            (_, _, Argument::Bool(_)) => None,
            (CalculatorInstruction::Eq, _, _) => Some(
                Argument::Bool(order(self, second) == Order::Equal),
            ),
            (CalculatorInstruction::Ne, _, _) => Some(
                Argument::Bool(order(self, second) != Order::Equal),
            ),
            (CalculatorInstruction::Ge, _, _) => Some(
                Argument::Bool(order(self, second) != Order::Below),
            ),
            (CalculatorInstruction::Gt, _, _) => Some(
                Argument::Bool(order(self, second) == Order::Above),
            ),
            (CalculatorInstruction::Le, _, _) => Some(
                Argument::Bool(order(self, second) != Order::Above),
            ),
            (CalculatorInstruction::Lt, _, _) => Some(
                Argument::Bool(order(self, second) == Order::Below),
            ),
            (CalculatorInstruction::Idiv, Argument::Integer(x), Argument::Integer(y)) => {
                if y == 0 || (x == i32::MIN && y == -1) {
                    return None;
                }
                let q: i64 = divide(x as i64, y as i64);
                proof {
                    if q == 0x8000_0000 {
                        lemma_remainder(x as int, y as int);
                        assert(y * q == y * 0x8000_0000);
                    }
                }
                Some(Argument::Integer(q as i32))
            },
            (CalculatorInstruction::Mod, Argument::Integer(x), Argument::Integer(y)) => {
                if y == 0 {
                    return None;
                }
                let q: i64 = divide(x as i64, y as i64);
                proof {
                    lemma_remainder(x as int, y as int);
                }
                Some(Argument::Integer((x as i64 - y as i64 * q) as i32))
            },
            (CalculatorInstruction::Bitshift, Argument::Integer(x), Argument::Integer(y)) => Some(
                Argument::Integer(shift_bits(x, y)),
            ),
            (
                CalculatorInstruction::Idiv
                | CalculatorInstruction::Mod
                | CalculatorInstruction::Bitshift,
                _,
                _,
            ) => None,
            (CalculatorInstruction::Add, Argument::Integer(x), Argument::Integer(y)) => widen(
                x as i64 + y as i64,
                compute,
            ),
            (CalculatorInstruction::Sub, Argument::Integer(x), Argument::Integer(y)) => widen(
                x as i64 - y as i64,
                compute,
            ),
            (CalculatorInstruction::Mul, Argument::Integer(x), Argument::Integer(y)) => {
                assert(-0x4000_0000_0000_0000 <= x * y <= 0x4000_0000_0000_0000) by (nonlinear_arith)
                    requires
                        -0x8000_0000 <= x <= 0x7FFF_FFFF,
                        -0x8000_0000 <= y <= 0x7FFF_FFFF,
                ;
                widen(x as i64 * y as i64, compute)
            },
            _ => self.arithmetic(second, op, compute),
        }
    }
}

} // verus!
