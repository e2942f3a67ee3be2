//! IEEE 754 binary64 bit patterns and the numbers they stand for.
//!
//! A pattern is a `u64`: one sign bit, eleven exponent bits, fifty-two
//! fraction bits. Every finite binary64 number is an integer multiple of
//! 2^-1074, so its value is modelled exactly by an `int`: the number
//! multiplied by 2^1074.

use vstd::arithmetic::power2::{lemma_pow2_pos, lemma_pow2_strictly_increases, lemma_pow2_unfold, pow2};
use vstd::prelude::*;

verus! {

/// The sign bit of a pattern.
pub const SIGN_BIT: u64 = 0x8000_0000_0000_0000;

/// The lowest exponent bit, 2^52; the weight of the implicit leading one of
/// a normal number.
pub const HIDDEN_BIT: u64 = 0x0010_0000_0000_0000;

/// The pattern of positive infinity. Magnitudes at or above it are
/// infinities and NaNs.
pub const INFINITY: u64 = 0x7ff0_0000_0000_0000;

/// The pattern of positive zero.
pub const POSITIVE_ZERO: u64 = 0;

/// Whether the sign bit is set.
pub open spec fn is_negative(bits: u64) -> bool {
    bits >= SIGN_BIT
}

/// The pattern without its sign bit.
pub open spec fn magnitude_bits(bits: u64) -> u64 {
    if bits >= SIGN_BIT {
        (bits - SIGN_BIT) as u64
    } else {
        bits
    }
}

/// The biased exponent field, 0 to 2047.
pub open spec fn exponent_field(bits: u64) -> nat {
    (magnitude_bits(bits) / HIDDEN_BIT) as nat
}

/// The fraction field, below 2^52.
pub open spec fn fraction_field(bits: u64) -> nat {
    (magnitude_bits(bits) % HIDDEN_BIT) as nat
}

/// Zero, subnormal or normal: neither an infinity nor a NaN.
pub open spec fn is_finite(bits: u64) -> bool {
    magnitude_bits(bits) < INFINITY
}

/// Positive or negative zero.
pub open spec fn is_zero(bits: u64) -> bool {
    magnitude_bits(bits) == 0
}

/// The absolute value of the number, multiplied by 2^1074.
///
/// A subnormal (exponent field 0) is `fraction * 2^-1074`; a normal number
/// is `(2^52 + fraction) * 2^(exponent - 1075)`.
pub open spec fn scaled_magnitude(bits: u64) -> nat {
    if exponent_field(bits) == 0 {
        fraction_field(bits)
    } else {
        ((HIDDEN_BIT + fraction_field(bits)) * pow2((exponent_field(bits) - 1) as nat)) as nat
    }
}

/// The number that a finite pattern stands for, multiplied by 2^1074.
///
/// The patterns of infinities and NaNs are given the value that the same
/// formula yields, which lies beyond every finite one on the side of their
/// sign; nothing in this crate orders records by such a value.
pub open spec fn scaled_value(bits: u64) -> int {
    if is_negative(bits) {
        -(scaled_magnitude(bits) as int)
    } else {
        scaled_magnitude(bits) as int
    }
}

/// An unsigned key that grows with the number: 2^63 plus the magnitude for
/// a clear sign bit, 2^63 minus the magnitude for a set one. Both zeros
/// have the key 2^63.
pub open spec fn sort_key(bits: u64) -> u64 {
    if bits >= SIGN_BIT {
        (SIGN_BIT - (bits - SIGN_BIT)) as u64
    } else {
        (SIGN_BIT + bits) as u64
    }
}

/// Between two magnitudes with the same exponent field, the fraction decides.
proof fn lemma_same_exponent(f1: nat, f2: nat, p: nat)
    by (nonlinear_arith)
    requires
        f1 < f2,
        p > 0,
    ensures
        (HIDDEN_BIT + f1) * p < (HIDDEN_BIT + f2) * p,
{
}

/// A normal magnitude lies in `[2^52 * p, 2^53 * p)` for `p = 2^(exponent - 1)`.
proof fn lemma_normal_bounds(f: nat, p: nat)
    by (nonlinear_arith)
    requires
        f < HIDDEN_BIT,
        p > 0,
    ensures
        HIDDEN_BIT * p <= (HIDDEN_BIT + f) * p < 2 * HIDDEN_BIT * p,
{
}

/// A larger factor gives no smaller product.
proof fn lemma_scale_monotone(c: nat, p: nat, q: nat)
    by (nonlinear_arith)
    requires
        p <= q,
    ensures
        c * p <= c * q,
{
}

/// The magnitude grows strictly with the magnitude bits.
pub proof fn lemma_magnitude_increases(a: u64, b: u64)
    requires
        magnitude_bits(a) < magnitude_bits(b),
    ensures
        scaled_magnitude(a) < scaled_magnitude(b),
{
    let ea = exponent_field(a);
    let eb = exponent_field(b);
    let fa = fraction_field(a);
    let fb = fraction_field(b);
    assert(ea <= eb);
    if ea == eb {
        if ea != 0 {
            lemma_pow2_pos((ea - 1) as nat);
            lemma_same_exponent(fa, fb, pow2((ea - 1) as nat));
        }
    } else {
        let q = pow2((eb - 1) as nat);
        lemma_pow2_pos((eb - 1) as nat);
        lemma_normal_bounds(fb, q);
        if ea == 0 {
            lemma_scale_monotone(HIDDEN_BIT as nat, 1, q);
        } else {
            let p = pow2((ea - 1) as nat);
            lemma_pow2_pos((ea - 1) as nat);
            lemma_normal_bounds(fa, p);
            lemma_pow2_unfold(ea);
            if ea < eb - 1 {
                lemma_pow2_strictly_increases(ea, (eb - 1) as nat);
            }
            lemma_scale_monotone(HIDDEN_BIT as nat, pow2(ea), q);
        }
    }
}

/// Only the two zeros have magnitude zero.
pub proof fn lemma_magnitude_zero(bits: u64)
    ensures
        scaled_magnitude(bits) == 0 <==> is_zero(bits),
{
    if magnitude_bits(bits) > 0 {
        lemma_magnitude_increases(POSITIVE_ZERO, bits);
    }
}

/// The sort key orders patterns exactly as the numbers they stand for.
pub proof fn lemma_sort_key_orders(a: u64, b: u64)
    ensures
        sort_key(a) < sort_key(b) <==> scaled_value(a) < scaled_value(b),
        sort_key(a) == sort_key(b) <==> scaled_value(a) == scaled_value(b),
{
    let ma = magnitude_bits(a);
    let mb = magnitude_bits(b);
    lemma_magnitude_zero(a);
    lemma_magnitude_zero(b);
    if ma < mb {
        lemma_magnitude_increases(a, b);
    } else if mb < ma {
        lemma_magnitude_increases(b, a);
    } else {
        assert(exponent_field(a) == exponent_field(b));
        assert(fraction_field(a) == fraction_field(b));
    }
}

/// Whether the pattern is a finite number.
pub fn finite(bits: u64) -> (r: bool)
    ensures
        r == is_finite(bits),
{
    let magnitude: u64 = if bits >= SIGN_BIT { bits - SIGN_BIT } else { bits };
    magnitude < INFINITY
}

/// Whether the pattern is positive or negative zero.
pub fn zero(bits: u64) -> (r: bool)
    ensures
        r == is_zero(bits),
        r == (is_finite(bits) && scaled_value(bits) == 0),
{
    proof {
        lemma_magnitude_zero(bits);
    }
    bits == POSITIVE_ZERO || bits == SIGN_BIT
}

/// The sort key of a pattern: see [`lemma_sort_key_orders`] for what it
/// promises.
pub fn key(bits: u64) -> (k: u64)
    ensures
        k == sort_key(bits),
{
    if bits >= SIGN_BIT {
        SIGN_BIT - (bits - SIGN_BIT)
    } else {
        SIGN_BIT + bits
    }
}

/// Whether the first number is smaller than the second.
///
/// Between finite patterns this is the order of the numbers themselves; a
/// pattern that is not finite is placed by its [`scaled_value`].
pub fn less(a: u64, b: u64) -> (r: bool)
    ensures
        r == (scaled_value(a) < scaled_value(b)),
{
    proof {
        lemma_sort_key_orders(a, b);
    }
    key(a) < key(b)
}

} // verus!
