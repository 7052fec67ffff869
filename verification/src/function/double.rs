//! Numbers in double precision, given by their bits.

use vstd::arithmetic::power2::{lemma_pow2_adds, lemma_pow2_pos, lemma2_to64, pow2};
use vstd::prelude::*;

verus! {

/// The sign of a number.
pub open spec fn is_negative(bits: u64) -> bool {
    bits >= 0x8000_0000_0000_0000
}

/// The bits of a number without its sign.
pub open spec fn magnitude(bits: u64) -> int {
    bits as int % 0x8000_0000_0000_0000
}

/// The biased exponent of a number.
pub open spec fn exponent(bits: u64) -> int {
    magnitude(bits) / 0x10_0000_0000_0000
}

/// Neither infinite nor undefined.
pub open spec fn finite(bits: u64) -> bool {
    exponent(bits) < 2047
}

/// The significand of a number.
pub open spec fn significand(bits: u64) -> int {
    if exponent(bits) == 0 {
        magnitude(bits)
    } else {
        magnitude(bits) % 0x10_0000_0000_0000 + 0x10_0000_0000_0000
    }
}

/// The size of a finite number times 2^1074.
pub open spec fn scaled_size(bits: u64) -> int {
    significand(bits) * pow2(
        if exponent(bits) == 0 {
            0
        } else {
            (exponent(bits) - 1) as nat
        },
    )
}

/// A finite number is whole.
pub open spec fn is_whole(bits: u64) -> bool {
    scaled_size(bits) % (pow2(1074) as int) == 0
}

/// Whether a number is finite.
pub fn is_finite(bits: u64) -> (result: bool)
    ensures
        result == finite(bits),
{
    (bits % 0x8000_0000_0000_0000) / 0x10_0000_0000_0000 < 2047
}

/// Whether a number is below zero.
pub fn is_below_zero(bits: u64) -> (result: bool)
    ensures
        result == (is_negative(bits) && magnitude(bits) != 0),
{
    bits > 0x8000_0000_0000_0000
}

/// Whether a number is at most 2^53 away from zero.
pub fn is_moderate(bits: u64) -> (result: bool)
    ensures
        result == (magnitude(bits) <= 0x4340_0000_0000_0000),
{
    bits % 0x8000_0000_0000_0000 <= 0x4340_0000_0000_0000
}

fn power_of_two(k: u64) -> (p: u64)
    requires
        k <= 52,
    ensures
        p == pow2(k as nat),
        1 <= p <= 0x10_0000_0000_0000,
{
    let mut p: u64 = 1;
    let mut i: u64 = 0;
    proof {
        lemma2_to64();
    }
    while i < k
        invariant
            i <= k <= 52,
            p == pow2(i as nat),
            1 <= p <= 0x10_0000_0000_0000,
        decreases k - i,
    {
        proof {
            lemma_pow2_adds(1, i as nat);
            lemma2_to64();
            vstd::arithmetic::power2::lemma_pow2_adds(20, 32);
            assert(pow2(52) == 0x10_0000_0000_0000);
            if i + 1 < 52 {
                vstd::arithmetic::power2::lemma_pow2_strictly_increases((i + 1) as nat, 52);
            }
        }
        p = p * 2;
        i = i + 1;
    }
    p
}

/// Whether a finite number is whole.
pub fn has_no_fraction(bits: u64) -> (result: bool)
    requires
        finite(bits),
    ensures
        result == is_whole(bits),
{
    let m: u64 = bits % 0x8000_0000_0000_0000;
    let e: u64 = m / 0x10_0000_0000_0000;
    let ghost unit = pow2(1074) as int;
    proof {
        lemma_pow2_pos(1074);
    }
    if m == 0 {
        proof {
            assert(scaled_size(bits) == 0) by (nonlinear_arith)
                requires
                    scaled_size(bits) == 0 * pow2(0),
            ;
            vstd::arithmetic::div_mod::lemma_small_mod(0, unit as nat);
        }
        return true;
    }
    if e < 1023 {
        proof {
            lemma_below_one(bits);
            vstd::arithmetic::div_mod::lemma_small_mod(scaled_size(bits) as nat, unit as nat);
        }
        return false;
    }
    let s: u64 = m % 0x10_0000_0000_0000 + 0x10_0000_0000_0000;
    if e >= 1075 {
        proof {
            lemma_pow2_adds((e - 1075) as nat, 1074);
            let a = pow2((e - 1075) as nat) as int;
            assert(s * (a * unit) == (s * a) * unit + 0) by (nonlinear_arith);
            vstd::arithmetic::div_mod::lemma_fundamental_div_mod_converse(
                scaled_size(bits),
                unit,
                s * a,
                0,
            );
        }
        return true;
    }
    let p: u64 = power_of_two(1075 - e);
    proof {
        lemma_pow2_adds((1075 - e) as nat, (e - 1) as nat);
        let b = pow2((e - 1) as nat) as int;
        lemma_pow2_pos((e - 1) as nat);
        let q = (s / p) as int;
        let r = (s % p) as int;
        assert(s == p * q + r) by (nonlinear_arith)
            requires
                q == s / p,
                r == s % p,
                p > 0,
        ;
        assert(s * b == q * unit + r * b) by (nonlinear_arith)
            requires
                s == p * q + r,
                unit == p * b,
        ;
        assert(0 <= r * b < unit) by (nonlinear_arith)
            requires
                0 <= r < p,
                unit == p * b,
                b > 0,
        ;
        assert(r * b == 0 <==> r == 0) by (nonlinear_arith)
            requires
                b > 0,
                r >= 0,
        ;
        vstd::arithmetic::div_mod::lemma_fundamental_div_mod_converse(
            scaled_size(bits),
            unit,
            q,
            r * b,
        );
    }
    s % p == 0
}

/// Numbers with a low exponent are below one.
proof fn lemma_below_one(bits: u64)
    requires
        0 < magnitude(bits) < 1023 * 0x10_0000_0000_0000,
    ensures
        0 < scaled_size(bits) < pow2(1074),
{
    let e = exponent(bits);
    let s = significand(bits);
    let k: nat = if e == 0 {
        0
    } else {
        (e - 1) as nat
    };
    lemma_pow2_pos(k);
    assert(pow2(53) == 0x20_0000_0000_0000) by {
        lemma_pow2_adds(21, 32);
        lemma2_to64();
    }
    lemma_pow2_adds(53, k);
    assert(0 < s < 0x20_0000_0000_0000);
    assert(0 < s * pow2(k) < pow2(53 + k)) by (nonlinear_arith)
        requires
            0 < s < pow2(53),
            pow2(53 + k) == pow2(53) * pow2(k),
            pow2(k) > 0,
    ;
    if 53 + k < 1074 {
        vstd::arithmetic::power2::lemma_pow2_strictly_increases(53 + k, 1074);
    }
}

/// The place of a number in the order of numbers. Both zeros have the same place.
pub open spec fn rank(bits: u64) -> int {
    if is_negative(bits) {
        -magnitude(bits)
    } else {
        magnitude(bits)
    }
}

/// The place of a number in the order of numbers.
pub fn rank_of(bits: u64) -> (result: i64)
    ensures
        result == rank(bits),
{
    let m: u64 = bits % 0x8000_0000_0000_0000;
    if bits >= 0x8000_0000_0000_0000 {
        -(m as i64)
    } else {
        m as i64
    }
}

} // verus!
