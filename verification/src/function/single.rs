//! Numbers in single precision, given by their bits.

use vstd::arithmetic::power2::{lemma_pow2_adds, lemma_pow2_pos, lemma2_to64, pow2};
use vstd::prelude::*;

verus! {

/// The sign of a number.
pub open spec fn is_negative(bits: u32) -> bool {
    bits >= 0x8000_0000
}

/// The bits of a number without its sign.
pub open spec fn magnitude(bits: u32) -> int {
    bits as int % 0x8000_0000
}

/// The biased exponent of a number.
pub open spec fn exponent(bits: u32) -> int {
    magnitude(bits) / 0x80_0000
}

/// The significand of a number.
pub open spec fn significand(bits: u32) -> int {
    if exponent(bits) == 0 {
        magnitude(bits)
    } else {
        magnitude(bits) % 0x80_0000 + 0x80_0000
    }
}

/// Neither infinite nor undefined.
pub open spec fn finite(bits: u32) -> bool {
    exponent(bits) < 255
}

/// A finite number is its sign, significand and exponent; this is the number times 2^149.
pub open spec fn scaled(bits: u32) -> int {
    let value = significand(bits) * pow2(
        if exponent(bits) == 0 {
            0
        } else {
            (exponent(bits) - 1) as nat
        },
    );
    if is_negative(bits) {
        -value
    } else {
        value
    }
}

/// Where finite numbers stand in their order.
pub open spec fn rank(bits: u32) -> int {
    if is_negative(bits) {
        -magnitude(bits)
    } else {
        magnitude(bits)
    }
}

/// Whether a number is finite.
pub fn is_finite(bits: u32) -> (result: bool)
    ensures
        result == finite(bits),
{
    (bits % 0x8000_0000) / 0x80_0000 < 255
}

/// Where a finite number stands in the order.
pub fn rank_of(bits: u32) -> (result: i64)
    ensures
        result == rank(bits),
        -0x8000_0000 < result < 0x8000_0000,
{
    let magnitude: i64 = (bits % 0x8000_0000) as i64;
    if bits >= 0x8000_0000 {
        -magnitude
    } else {
        magnitude
    }
}

/// The scaled size of the number with the given bits without a sign.
spec fn size_of_magnitude(m: int) -> int {
    if m < 0x80_0000 {
        m
    } else {
        (m % 0x80_0000 + 0x80_0000) * pow2((m / 0x80_0000 - 1) as nat)
    }
}

proof fn lemma_next_magnitude(m: int)
    requires
        0 <= m,
    ensures
        size_of_magnitude(m) < size_of_magnitude(m + 1),
{
    if m + 1 < 0x80_0000 {
    } else if m < 0x80_0000 {
        assert(m == 0x7F_FFFF);
        assert((m + 1) / 0x80_0000 == 1);
        assert(pow2(0) == 1) by {
            lemma2_to64();
        }
        assert(size_of_magnitude(m + 1) == 0x80_0000 * pow2(0));
    } else {
        let e = m / 0x80_0000;
        let f = m % 0x80_0000;
        lemma_pow2_pos((e - 1) as nat);
        let p = pow2((e - 1) as nat);
        if f + 1 < 0x80_0000 {
            assert((m + 1) / 0x80_0000 == e && (m + 1) % 0x80_0000 == f + 1);
            assert((f + 0x80_0000) * p < (f + 1 + 0x80_0000) * p) by (nonlinear_arith)
                requires
                    p > 0,
            ;
        } else {
            assert((m + 1) / 0x80_0000 == e + 1 && (m + 1) % 0x80_0000 == 0);
            lemma_pow2_adds(1, (e - 1) as nat);
            assert(pow2(1) == 2) by {
                lemma2_to64();
            }
            let q = pow2(e as nat);
            assert(q == 2 * p);
            assert((f + 0x80_0000) * p < 0x80_0000 * q) by (nonlinear_arith)
                requires
                    p > 0,
                    q == 2 * p,
                    f == 0x7F_FFFF,
            ;
        }
    }
}

proof fn lemma_greater_magnitude(m: int, n: int)
    requires
        0 <= m < n,
    ensures
        size_of_magnitude(m) < size_of_magnitude(n),
    decreases n - m,
{
    if m + 1 < n {
        lemma_greater_magnitude(m, n - 1);
    }
    lemma_next_magnitude(n - 1);
}

/// Finite numbers are ordered by their rank.
pub proof fn lemma_rank(a: u32, b: u32)
    ensures
        rank(a) < rank(b) <==> scaled(a) < scaled(b),
        rank(a) == rank(b) <==> scaled(a) == scaled(b),
{
    let m = magnitude(a);
    let n = magnitude(b);
    lemma_scaled(a);
    lemma_scaled(b);
    if m < n {
        lemma_greater_magnitude(m, n);
    } else if n < m {
        lemma_greater_magnitude(n, m);
    }
    if 0 < m {
        lemma_greater_magnitude(0, m);
    }
    if 0 < n {
        lemma_greater_magnitude(0, n);
    }
    assert(size_of_magnitude(0) == 0);
}

proof fn lemma_scaled(a: u32)
    ensures
        scaled(a) == if is_negative(a) {
            -size_of_magnitude(magnitude(a))
        } else {
            size_of_magnitude(magnitude(a))
        },
{
    let m = magnitude(a);
    assert(pow2(0) == 1) by {
        lemma2_to64();
    }
    if m < 0x80_0000 {
        assert(exponent(a) == 0);
        assert(significand(a) * pow2(0) == significand(a)) by (nonlinear_arith)
            requires
                pow2(0) == 1,
        ;
    }
}

/// The number with the opposite sign.
pub fn negated(bits: u32) -> (result: u32)
    ensures
        magnitude(result) == magnitude(bits),
        is_negative(result) == !is_negative(bits),
{
    if bits >= 0x8000_0000 {
        bits - 0x8000_0000
    } else {
        bits + 0x8000_0000
    }
}

/// The number without its sign.
pub fn absolute(bits: u32) -> (result: u32)
    ensures
        magnitude(result) == magnitude(bits),
        !is_negative(result),
{
    bits % 0x8000_0000
}

/// Taking the opposite sign negates the number.
pub proof fn lemma_negated(bits: u32, result: u32)
    requires
        magnitude(result) == magnitude(bits),
        is_negative(result) == !is_negative(bits),
    ensures
        scaled(result) == -scaled(bits),
        finite(result) == finite(bits),
{
}

/// A whole number times 2^149.
pub open spec fn whole(value: int) -> int {
    value * pow2(149)
}

/// The greatest whole number that is not above a number, if the number is of moderate size;
/// otherwise a whole number beyond all 32-bit ones on the same side.
pub struct WholePart {
    pub floor: i64,
    /// Whether the number is not whole.
    pub fraction: bool,
}

/// The whole part of a finite number.
pub open spec fn is_whole_part(bits: u32, part: WholePart) -> bool {
    if exponent(bits) >= 159 {
        // The number is at least 2^32 away from zero, and a multiple of 2^9.
        &&& !part.fraction
        &&& part.floor == if is_negative(bits) { -0x2_0000_0000 } else { 0x2_0000_0000 }
        &&& if is_negative(bits) {
            scaled(bits) <= whole(-0x1_0000_0000)
        } else {
            scaled(bits) >= whole(0x1_0000_0000)
        }
    } else {
        &&& whole(part.floor as int) <= scaled(bits) < whole(part.floor + 1)
        &&& part.fraction == (scaled(bits) != whole(part.floor as int))
        &&& -0x1_0000_0000 <= part.floor <= 0x1_0000_0000
    }
}

fn power_of_two(k: u32) -> (p: u64)
    requires
        k <= 32,
    ensures
        p == pow2(k as nat),
        1 <= p <= 0x1_0000_0000,
{
    let mut p: u64 = 1;
    let mut i: u32 = 0;
    proof {
        lemma2_to64();
    }
    while i < k
        invariant
            i <= k <= 32,
            p == pow2(i as nat),
            pow2(32) == 0x1_0000_0000,
            1 <= p <= 0x1_0000_0000,
        decreases k - i,
    {
        proof {
            lemma_pow2_adds(1, i as nat);
            lemma2_to64();
            if i + 1 < 32 {
                vstd::arithmetic::power2::lemma_pow2_strictly_increases((i + 1) as nat, 32);
            }
        }
        p = p * 2;
        i = i + 1;
    }
    p
}

/// Split a number without its sign into whole part and fraction.
fn split(bits: u32) -> (parts: (u64, bool))
    requires
        exponent(bits) < 159,
    ensures
        parts.0 < 0x1_0000_0000,
        whole(parts.0 as int) <= size_of_magnitude(magnitude(bits)) < whole(parts.0 + 1),
        parts.1 == (size_of_magnitude(magnitude(bits)) != whole(parts.0 as int)),
{
    let m: u32 = bits % 0x8000_0000;
    let e: u32 = m / 0x80_0000;
    proof {
        lemma_pow2_pos(149);
    }
    if e < 127 {
        proof {
            lemma_below_one(m as int);
            if m > 0 {
                lemma_greater_magnitude(0, m as int);
            }
            assert(whole(0) == 0) by (nonlinear_arith)
                requires
                    whole(0) == 0 * pow2(149),
            ;
            assert(whole(1) == pow2(149));
        }
        return (0, m != 0);
    }
    let significand: u64 = (m % 0x80_0000 + 0x80_0000) as u64;
    if e >= 150 {
        let p: u64 = power_of_two(e - 150);
        proof {
            lemma_pow2_adds((e - 150) as nat, 149);
            let a = pow2((e - 150) as nat);
            let b = pow2(149);
            assert(significand * (a * b) == (significand * a) * b) by (nonlinear_arith);
            assert(pow2(8) == 256) by {
                lemma2_to64();
            }
            if e - 150 < 8 {
                vstd::arithmetic::power2::lemma_pow2_strictly_increases((e - 150) as nat, 8);
            }
            assert(significand * a < 0x1_0000_0000) by (nonlinear_arith)
                requires
                    significand < 0x100_0000,
                    0 < a <= 256,
            ;
            assert(whole(significand * a + 1) == whole(significand * a) + b) by (nonlinear_arith)
                requires
                    whole(significand * a + 1) == (significand * a + 1) * b,
                    whole(significand * a) == (significand * a) * b,
            ;
        }
        return (significand * p, false);
    }
    let k: u32 = 150 - e;
    let p: u64 = power_of_two(k);
    let q: u64 = significand / p;
    let r: u64 = significand % p;
    proof {
        lemma_pow2_adds(k as nat, (e - 1) as nat);
        let b = pow2((e - 1) as nat);
        lemma_pow2_pos((e - 1) as nat);
        let unit = pow2(149);
        assert(unit == p * b);
        assert(significand == p * q + r) by (nonlinear_arith)
            requires
                q == significand / p,
                r == significand % p,
                p > 0,
        ;
        assert(significand * b == q * unit + r * b) by (nonlinear_arith)
            requires
                significand == p * q + r,
                unit == p * b,
        ;
        assert(0 <= r * b < unit) by (nonlinear_arith)
            requires
                0 <= r < p,
                unit == p * b,
                b > 0,
        ;
        assert(r * b == 0 <==> r == 0) by (nonlinear_arith)
            requires
                b > 0,
                r >= 0,
        ;
        assert(whole(q + 1) == whole(q as int) + unit) by (nonlinear_arith)
            requires
                whole(q + 1) == (q + 1) * unit,
                whole(q as int) == q * unit,
        ;
    }
    (q, r != 0)
}

/// Numbers with a low exponent are below one.
proof fn lemma_below_one(m: int)
    requires
        0 <= m < 127 * 0x80_0000,
    ensures
        0 <= size_of_magnitude(m) < pow2(149),
{
    let one: int = 0x3F80_0000;
    assert(one / 0x80_0000 == 127 && one % 0x80_0000 == 0);
    lemma_greater_magnitude(m, one);
    if m > 0 {
        lemma_greater_magnitude(0, m);
    }
    lemma_pow2_adds(23, 126);
    assert(pow2(23) == 0x80_0000) by {
        lemma2_to64();
    }
}

/// Numbers with a high exponent are beyond 32-bit whole numbers.
proof fn lemma_beyond(m: int)
    requires
        159 * 0x80_0000 <= m,
    ensures
        size_of_magnitude(m) >= whole(0x1_0000_0000),
{
    let least: int = 0x4F80_0000;
    assert(least / 0x80_0000 == 159 && least % 0x80_0000 == 0);
    if least < m {
        lemma_greater_magnitude(least, m);
    }
    lemma_pow2_adds(9, 149);
    assert(pow2(9) == 512) by {
        lemma2_to64();
    }
    let b = pow2(149);
    assert(0x80_0000 * (512 * b) == 0x1_0000_0000 * b) by (nonlinear_arith);
}

/// The whole part of a finite number.
pub fn whole_part(bits: u32) -> (part: WholePart)
    requires
        finite(bits),
    ensures
        is_whole_part(bits, part),
{
    let m: u32 = bits % 0x8000_0000;
    let negative = bits >= 0x8000_0000;
    proof {
        lemma_scaled(bits);
    }
    if m / 0x80_0000 >= 159 {
        proof {
            lemma_beyond(m as int);
            assert(whole(-0x1_0000_0000) == -whole(0x1_0000_0000)) by (nonlinear_arith)
                requires
                    whole(-0x1_0000_0000) == (-0x1_0000_0000) * pow2(149),
                    whole(0x1_0000_0000) == 0x1_0000_0000 * pow2(149),
            ;
        }
        return WholePart {
            floor: if negative {
                -0x2_0000_0000
            } else {
                0x2_0000_0000
            },
            fraction: false,
        };
    }
    let (floor, fraction) = split(bits);
    if !negative {
        return WholePart { floor: floor as i64, fraction };
    }
    proof {
        let f = floor as int;
        let unit = pow2(149);
        assert(whole(-f) == -whole(f)) by (nonlinear_arith)
            requires
                whole(-f) == (-f) * unit,
                whole(f) == f * unit,
        ;
        assert(whole(-f - 1) == -whole(f + 1)) by (nonlinear_arith)
            requires
                whole(-f - 1) == (-f - 1) * unit,
                whole(f + 1) == (f + 1) * unit,
        ;
        assert(whole(-f + 1) == whole(-f) + unit) by (nonlinear_arith)
            requires
                whole(-f + 1) == (-f + 1) * unit,
                whole(-f) == (-f) * unit,
        ;
        lemma_pow2_pos(149);
    }
    if fraction {
        WholePart { floor: -(floor as i64) - 1, fraction }
    } else {
        WholePart { floor: -(floor as i64), fraction }
    }
}

/// Whole numbers are ordered as they are.
pub proof fn lemma_whole(a: int, b: int)
    ensures
        a < b <==> whole(a) < whole(b),
        a == b <==> whole(a) == whole(b),
{
    lemma_pow2_pos(149);
    let unit = pow2(149);
    assert(a < b ==> a * unit < b * unit) by (nonlinear_arith)
        requires
            unit > 0,
    ;
    assert(b < a ==> b * unit < a * unit) by (nonlinear_arith)
        requires
            unit > 0,
    ;
}

/// The bits of a small whole number.
pub open spec fn small_bits(value: int) -> u32 {
    choose|bits: u32|
        !is_negative(bits) && finite(bits) && #[trigger] scaled(bits) == whole(value)
}

/// The bits of a small whole number.
pub fn from_small(value: u32) -> (bits: u32)
    requires
        value < 0x100_0000,
    ensures
        bits == small_bits(value as int),
        !is_negative(bits),
        finite(bits),
        scaled(bits) == whole(value as int),
{
    let mut shifted: u32 = value;
    let mut biased: u32 = 150;
    let ghost mut moved: nat = 0;
    proof {
        lemma2_to64();
        assert(pow2(0) == 1);
    }
    if value == 0 {
        proof {
            assert(scaled(0) == 0) by {
                assert(significand(0) * pow2(0) == 0) by (nonlinear_arith)
                    requires
                        significand(0) == 0,
                ;
            }
            assert(whole(0) == 0) by (nonlinear_arith)
                requires
                    whole(0) == 0 * pow2(149),
            ;
            lemma_small_unique(0, 0);
        }
        return 0;
    }
    while shifted < 0x80_0000
        invariant
            1 <= shifted < 0x100_0000,
            biased == 150 - moved,
            moved <= 23,
            shifted == value * pow2(moved),
            value >= 1,
            pow2(23) == 0x80_0000,
        decreases 0x100_0000 - shifted,
    {
        proof {
            lemma_pow2_adds(1, moved);
            lemma2_to64();
            assert(value * pow2(moved + 1) == 2 * (value * pow2(moved))) by (nonlinear_arith)
                requires
                    pow2(moved + 1) == 2 * pow2(moved),
            ;
            if moved == 23 {
                assert(value * pow2(23) >= pow2(23)) by (nonlinear_arith)
                    requires
                        value >= 1,
                ;
            }
            moved = moved + 1;
        }
        shifted = 2 * shifted;
        biased = biased - 1;
    }
    let bits: u32 = biased * 0x80_0000 + (shifted - 0x80_0000);
    proof {
        assert(bits as int / 0x80_0000 == biased);
        assert(bits as int % 0x80_0000 == shifted - 0x80_0000);
        assert(bits < 0x8000_0000);
        assert(magnitude(bits) == bits);
        lemma_pow2_adds(moved, (biased - 1) as nat);
        assert(moved + (biased - 1) == 149);
        let a = pow2(moved) as int;
        let b = pow2((biased - 1) as nat) as int;
        assert((value * a) * b == value * (a * b)) by (nonlinear_arith);
        assert(scaled(bits) == shifted * b);
        lemma_small_unique(bits, value as int);
    }
    bits
}

/// A whole number has only one form without a sign.
proof fn lemma_small_unique(bits: u32, value: int)
    requires
        !is_negative(bits),
        finite(bits),
        scaled(bits) == whole(value),
    ensures
        bits == small_bits(value),
{
    let other = small_bits(value);
    assert(!is_negative(other) && finite(other) && scaled(other) == whole(value));
    lemma_rank(bits, other);
}

} // verus!
