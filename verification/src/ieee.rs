//! IEEE 754 numbers as bit patterns.
//!
//! A binary32 number is a `u32` and a binary64 number a `u64`, each made of a
//! sign bit, an exponent field and a fraction. Everything here is integer
//! arithmetic on those fields.

use crate::types::{END_MARKER_2001, END_MARKER_9601};
use vstd::arithmetic::power2::{lemma2_to64, lemma_pow2_adds, lemma_pow2_unfold, pow2};
use vstd::prelude::*;

verus! {

// ----------------------------------------------------------------------------
// Fields
// ----------------------------------------------------------------------------

/// Sign bit of a binary32 pattern.
pub open spec fn single_sign(b: u32) -> int {
    b as int / 0x8000_0000
}

/// Exponent field of a binary32 pattern, 0 to 255.
pub open spec fn single_exponent(b: u32) -> int {
    (b as int / 0x80_0000) % 0x100
}

/// Fraction of a binary32 pattern, 23 bits.
pub open spec fn single_fraction(b: u32) -> int {
    b as int % 0x80_0000
}

/// Sign bit of a binary64 pattern.
pub open spec fn double_sign(b: u64) -> int {
    b as int / 0x8000_0000_0000_0000
}

/// Exponent field of a binary64 pattern, 0 to 2047.
pub open spec fn double_exponent(b: u64) -> int {
    (b as int / 0x10_0000_0000_0000) % 0x800
}

/// Fraction of a binary64 pattern, 52 bits.
pub open spec fn double_fraction(b: u64) -> int {
    b as int % 0x10_0000_0000_0000
}

/// The binary64 pattern with the given fields.
pub open spec fn double_from_fields(sign: int, exponent: int, fraction: int) -> int {
    sign * 0x8000_0000_0000_0000 + exponent * 0x10_0000_0000_0000 + fraction
}

// ----------------------------------------------------------------------------
// Classes and order
// ----------------------------------------------------------------------------

/// Whether a binary32 pattern is a NaN.
pub open spec fn single_is_nan(b: u32) -> bool {
    single_exponent(b) == 0xFF && single_fraction(b) != 0
}

/// Whether a binary32 pattern is a number other than an infinity or a NaN.
pub open spec fn single_is_finite(b: u32) -> bool {
    single_exponent(b) != 0xFF
}

/// Whether a binary64 pattern is a NaN.
pub open spec fn double_is_nan(b: u64) -> bool {
    double_exponent(b) == 0x7FF && double_fraction(b) != 0
}

/// Whether a binary64 pattern is a number other than an infinity or a NaN.
pub open spec fn double_is_finite(b: u64) -> bool {
    double_exponent(b) != 0x7FF
}

/// An integer that orders binary32 patterns as their values are ordered: the
/// magnitude bits, negated under a set sign bit. Both zeros rank 0.
pub open spec fn single_rank(b: u32) -> int {
    if single_sign(b) == 0 {
        b as int % 0x8000_0000
    } else {
        -(b as int % 0x8000_0000)
    }
}

/// An integer that orders binary64 patterns as their values are ordered.
pub open spec fn double_rank(b: u64) -> int {
    if double_sign(b) == 0 {
        b as int % 0x8000_0000_0000_0000
    } else {
        -(b as int % 0x8000_0000_0000_0000)
    }
}

/// `a <= b` on binary32 values. False whenever one side is a NaN.
pub open spec fn single_le(a: u32, b: u32) -> bool {
    !single_is_nan(a) && !single_is_nan(b) && single_rank(a) <= single_rank(b)
}

/// `a <= b` on binary64 values. False whenever one side is a NaN.
pub open spec fn double_le(a: u64, b: u64) -> bool {
    !double_is_nan(a) && !double_is_nan(b) && double_rank(a) <= double_rank(b)
}

/// Compares two binary64 values: `a <= b`.
pub fn le_double(a: u64, b: u64) -> (r: bool)
    ensures
        r == double_le(a, b),
{
    let top: u64 = 0x8000_0000_0000_0000;
    let inf: u64 = 0x7FF0_0000_0000_0000;
    let ma: u64 = a % top;
    let mb: u64 = b % top;
    assert(double_is_nan(a) <==> ma > inf) by {
        assert(double_exponent(a) == ma as int / 0x10_0000_0000_0000);
        assert(double_fraction(a) == ma as int % 0x10_0000_0000_0000);
    }
    assert(double_is_nan(b) <==> mb > inf) by {
        assert(double_exponent(b) == mb as int / 0x10_0000_0000_0000);
        assert(double_fraction(b) == mb as int % 0x10_0000_0000_0000);
    }
    if ma > inf || mb > inf {
        return false;
    }
    let a_negative = a >= top;
    let b_negative = b >= top;
    if a_negative {
        if b_negative {
            mb <= ma
        } else {
            true
        }
    } else if b_negative {
        ma == 0 && mb == 0
    } else {
        ma <= mb
    }
}

// ----------------------------------------------------------------------------
// End-of-data markers
// ----------------------------------------------------------------------------

/// Whether a binary32 value is at least the low-precision end marker.
pub fn is_end_marker_single(b: u32) -> (r: bool)
    ensures
        r == single_le(END_MARKER_9601, b),
{
    END_MARKER_9601 <= b && b <= 0x7F80_0000
}

/// Whether a binary64 value is at least the high-precision end marker.
pub fn is_end_marker_double(b: u64) -> (r: bool)
    ensures
        r == double_le(END_MARKER_2001, b),
{
    END_MARKER_2001 <= b && b <= 0x7FF0_0000_0000_0000
}

// ----------------------------------------------------------------------------
// Widening binary32 to binary64
// ----------------------------------------------------------------------------

/// Doubles a subnormal significand `m` until its bit 23 is set, lowering the
/// exponent field `e` by one each time.
pub open spec fn normalized(m: int, e: int) -> (int, int)
    decreases 0x100_0000 - m,
{
    if 0 < m < 0x80_0000 {
        normalized(2 * m, e - 1)
    } else {
        (m, e)
    }
}

/// The binary64 pattern of the value that a binary32 pattern holds. Zeros and
/// infinities keep their sign; a NaN keeps its sign and payload and comes out
/// quiet.
pub open spec fn widened(b: u32) -> u64 {
    let s = single_sign(b);
    let e = single_exponent(b);
    let f = single_fraction(b);
    if e == 0xFF {
        if f == 0 {
            double_from_fields(s, 0x7FF, 0) as u64
        } else {
            double_from_fields(s, 0x7FF, 0x8_0000_0000_0000 + (f % 0x40_0000) * 0x2000_0000) as u64
        }
    } else if e == 0 {
        if f == 0 {
            double_from_fields(s, 0, 0) as u64
        } else {
            let (m, e2) = normalized(f, 897);
            double_from_fields(s, e2, (m - 0x80_0000) * 0x2000_0000) as u64
        }
    } else {
        double_from_fields(s, e + 896, f * 0x2000_0000) as u64
    }
}

/// Normalizing a subnormal fraction ends with bit 23 set and an exponent field
/// between 874 and 896.
pub proof fn lemma_normalized_bounds(m: int, e: int)
    requires
        0 < m < 0x100_0000,
    ensures
        0x80_0000 <= normalized(m, e).0 < 0x100_0000,
        e - 23 <= normalized(m, e).1 <= e,
        m < 0x80_0000 ==> normalized(m, e).1 < e,
    decreases 0x100_0000 - m,
{
    if m < 0x80_0000 {
        reveal_with_fuel(pow2_small, 2);
        lemma_normalized_bounds_step(2 * m, e - 1, 1);
    }
}

/// As `lemma_normalized_bounds`, for a significand already doubled `k` times.
proof fn lemma_normalized_bounds_step(m: int, e: int, k: int)
    requires
        0 < m < 0x100_0000,
        1 <= k <= 23,
        m >= pow2_small(k),
    ensures
        0x80_0000 <= normalized(m, e).0 < 0x100_0000,
        e - (23 - k) <= normalized(m, e).1 <= e,
    decreases 0x100_0000 - m,
{
    if m < 0x80_0000 {
        assert(k < 23) by {
            assert(pow2_small(23) == 0x80_0000) by {
                lemma_pow2_small_values();
            }
        }
        lemma_normalized_bounds_step(2 * m, e - 1, k + 1);
    }
}

/// Two to the power `k`, for the few exponents that normalizing needs.
pub open spec fn pow2_small(k: int) -> int
    decreases k,
{
    if k <= 0 {
        1
    } else {
        2 * pow2_small(k - 1)
    }
}

proof fn lemma_pow2_small_values()
    ensures
        pow2_small(23) == 0x80_0000,
{
    reveal_with_fuel(pow2_small, 24);
}

/// Widens a binary32 pattern to the binary64 pattern of the same value.
pub fn widen(b: u32) -> (w: u64)
    ensures
        w == widened(b),
{
    let s: u64 = (b / 0x8000_0000) as u64;
    let e: u64 = ((b / 0x80_0000) % 0x100) as u64;
    let f: u64 = (b % 0x80_0000) as u64;
    let exponent: u64;
    let fraction: u64;
    if e == 0xFF {
        exponent = 0x7FF;
        fraction = if f == 0 {
            0
        } else {
            0x8_0000_0000_0000 + (f % 0x40_0000) * 0x2000_0000
        };
    } else if e == 0 {
        if f == 0 {
            exponent = 0;
            fraction = 0;
        } else {
            let mut m: u64 = f;
            let mut e2: u64 = 897;
            proof {
                lemma_normalized_bounds(f as int, 897);
            }
            while m < 0x80_0000
                invariant
                    0 < m < 0x100_0000,
                    normalized(m as int, e2 as int) == normalized(f as int, 897),
                    874 <= normalized(f as int, 897).1 <= e2 <= 897,
                decreases 0x100_0000 - m,
            {
                proof {
                    lemma_normalized_bounds(m as int, e2 as int);
                }
                m = m * 2;
                e2 = e2 - 1;
            }
            exponent = e2;
            fraction = (m - 0x80_0000) * 0x2000_0000;
        }
    } else {
        exponent = e + 896;
        fraction = f * 0x2000_0000;
    }
    assert(fraction < 0x10_0000_0000_0000);
    assert(exponent <= 0x7FF);
    s * 0x8000_0000_0000_0000 + exponent * 0x10_0000_0000_0000 + fraction
}

/// Widening keeps the sign, and gives a finite number exactly for a finite
/// number and a NaN exactly for a NaN.
pub proof fn lemma_widened_class(b: u32)
    ensures
        double_sign(widened(b)) == single_sign(b),
        double_is_finite(widened(b)) == single_is_finite(b),
        double_is_nan(widened(b)) == single_is_nan(b),
{
    let s = single_sign(b);
    let e = single_exponent(b);
    let f = single_fraction(b);
    if e == 0 && f != 0 {
        lemma_normalized_bounds(f, 897);
        let (m, e2) = normalized(f, 897);
        lemma_fields_of(s, e2, (m - 0x80_0000) * 0x2000_0000);
    } else if e == 0xFF {
        if f == 0 {
            lemma_fields_of(s, 0x7FF, 0);
        } else {
            lemma_fields_of(s, 0x7FF, 0x8_0000_0000_0000 + (f % 0x40_0000) * 0x2000_0000);
        }
    } else if e == 0 {
        lemma_fields_of(s, 0, 0);
    } else {
        lemma_fields_of(s, e + 896, f * 0x2000_0000);
    }
}

/// Packing fields and taking them apart again gives the fields back.
pub proof fn lemma_fields_of(sign: int, exponent: int, fraction: int)
    requires
        0 <= sign <= 1,
        0 <= exponent <= 0x7FF,
        0 <= fraction < 0x10_0000_0000_0000,
    ensures
        0 <= double_from_fields(sign, exponent, fraction) <= u64::MAX,
        double_sign(double_from_fields(sign, exponent, fraction) as u64) == sign,
        double_exponent(double_from_fields(sign, exponent, fraction) as u64) == exponent,
        double_fraction(double_from_fields(sign, exponent, fraction) as u64) == fraction,
{
}

// ----------------------------------------------------------------------------
// The value that a pattern holds
// ----------------------------------------------------------------------------

/// The magnitude of a finite binary32 number, counted in units of two to the
/// power -149, the smallest step of the format.
pub open spec fn single_magnitude(b: u32) -> int {
    if single_exponent(b) == 0 {
        single_fraction(b)
    } else {
        (0x80_0000 + single_fraction(b)) * pow2((single_exponent(b) - 1) as nat)
    }
}

/// The magnitude of a finite binary64 number, counted in units of two to the
/// power -1074, the smallest step of the format.
pub open spec fn double_magnitude(b: u64) -> int {
    if double_exponent(b) == 0 {
        double_fraction(b)
    } else {
        (0x10_0000_0000_0000 + double_fraction(b)) * pow2((double_exponent(b) - 1) as nat)
    }
}

/// Normalizing keeps the value of a significand under its exponent.
proof fn lemma_normalized_value(m: int, e: int, k: int)
    requires
        0 < m < 0x100_0000,
        0 <= k <= 23,
        m >= pow2_small(k),
        e >= 24 - k,
    ensures
        normalized(m, e).1 >= 1,
        normalized(m, e).0 * pow2(normalized(m, e).1 as nat) == m * pow2(e as nat),
    decreases 0x100_0000 - m,
{
    if m < 0x80_0000 {
        assert(k < 23) by {
            lemma_pow2_small_values();
        }
        lemma_normalized_value(2 * m, e - 1, k + 1);
        lemma_pow2_unfold(e as nat);
        let half = pow2((e - 1) as nat);
        assert((2 * m) * half == m * (2 * half)) by (nonlinear_arith);
    }
}

/// Widening keeps the value: the binary64 number is the binary32 number, its
/// magnitude counted in steps that are two to the power 925 times finer.
pub proof fn lemma_widened_value(b: u32)
    requires
        single_is_finite(b),
    ensures
        double_sign(widened(b)) == single_sign(b),
        double_is_finite(widened(b)),
        double_magnitude(widened(b)) == single_magnitude(b) * pow2(925),
{
    lemma_widened_class(b);
    lemma2_to64();
    let s = single_sign(b);
    let e = single_exponent(b);
    let f = single_fraction(b);
    if e == 0 && f == 0 {
        lemma_fields_of(s, 0, 0);
        assert(double_magnitude(widened(b)) == 0);
        assert(single_magnitude(b) == 0);
    } else if e == 0 {
        lemma_normalized_bounds(f, 897);
        lemma_normalized_value(f, 897, 0);
        let (m, e2) = normalized(f, 897);
        let fraction = (m - 0x80_0000) * 0x2000_0000;
        lemma_fields_of(s, e2, fraction);
        let low = pow2((e2 - 1) as nat);
        lemma_pow2_unfold(e2 as nat);
        lemma_pow2_adds(897, 28);
        assert(pow2(925) == pow2(897) * 0x1000_0000);
        assert(m * pow2(e2 as nat) == f * pow2(897));
        assert(double_magnitude(widened(b)) == (0x10_0000_0000_0000 + fraction) * low);
        assert((0x10_0000_0000_0000 + fraction) * low == (m * pow2(e2 as nat)) * 0x1000_0000)
            by (nonlinear_arith)
            requires
                fraction == (m - 0x80_0000) * 0x2000_0000,
                pow2(e2 as nat) == 2 * low,
        ;
        assert((f * pow2(897)) * 0x1000_0000 == f * (pow2(897) * 0x1000_0000))
            by (nonlinear_arith);
        assert(single_magnitude(b) == f);
    } else {
        let fraction = f * 0x2000_0000;
        lemma_fields_of(s, e + 896, fraction);
        let low = pow2((e - 1) as nat);
        lemma_pow2_adds((e - 1) as nat, 896);
        lemma_pow2_adds(896, 29);
        assert(pow2((e + 895) as nat) == low * pow2(896));
        assert(pow2(925) == pow2(896) * 0x2000_0000);
        assert(double_magnitude(widened(b)) == (0x10_0000_0000_0000 + fraction) * pow2(
            (e + 895) as nat,
        ));
        assert((0x10_0000_0000_0000 + fraction) * (low * pow2(896)) == ((0x80_0000 + f) * low) * (
        pow2(896) * 0x2000_0000)) by (nonlinear_arith)
            requires
                fraction == f * 0x2000_0000,
        ;
        assert(single_magnitude(b) == (0x80_0000 + f) * low);
    }
}

} // verus!
