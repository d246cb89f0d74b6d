//! IEEE-754 facts about observed numbers, read off their bit encodings.
//!
//! The library never computes with floating-point values; it carries each
//! observed value as its binary32/binary64 encoding and decides the few
//! questions the logic asks (finiteness, sign, equality, widening) exactly on
//! those bits.
use vstd::prelude::*;

verus! {

/// Magnitude bits of a binary32 encoding (everything but the sign).
pub open spec fn f32_magnitude(bits: u32) -> int {
    bits as int % 0x8000_0000
}

pub open spec fn f32_sign_set(bits: u32) -> bool {
    bits >= 0x8000_0000
}

pub open spec fn f32_is_nan(bits: u32) -> bool {
    f32_magnitude(bits) > 0x7f80_0000
}

pub open spec fn f32_is_finite(bits: u32) -> bool {
    f32_magnitude(bits) < 0x7f80_0000
}

pub open spec fn f32_is_zero(bits: u32) -> bool {
    f32_magnitude(bits) == 0
}

/// The value compares `< 0.0`.
pub open spec fn f32_lt_zero(bits: u32) -> bool {
    f32_sign_set(bits) && !f32_is_nan(bits) && !f32_is_zero(bits)
}

/// The value compares `<= 0.0`.
pub open spec fn f32_le_zero(bits: u32) -> bool {
    !f32_is_nan(bits) && (f32_sign_set(bits) || f32_is_zero(bits))
}

/// `==` on binary32 values: NaN equals nothing, `-0.0 == 0.0`, otherwise the
/// encodings agree.
pub open spec fn f32_eq(a: u32, b: u32) -> bool {
    !f32_is_nan(a) && !f32_is_nan(b) && (a == b || (f32_is_zero(a) && f32_is_zero(b)))
}

pub open spec fn f64_magnitude(bits: u64) -> int {
    bits as int % 0x8000_0000_0000_0000
}

/// Neither infinite nor NaN.
pub open spec fn f64_is_finite(bits: u64) -> bool {
    f64_magnitude(bits) < 0x7ff0_0000_0000_0000
}

pub open spec fn f64_is_nan(bits: u64) -> bool {
    f64_magnitude(bits) > 0x7ff0_0000_0000_0000
}

pub open spec fn f64_is_zero(bits: u64) -> bool {
    f64_magnitude(bits) == 0
}

/// `==` on binary64 values.
pub open spec fn f64_eq(a: u64, b: u64) -> bool {
    !f64_is_nan(a) && !f64_is_nan(b) && (a == b || (f64_is_zero(a) && f64_is_zero(b)))
}

pub fn is_finite32(bits: u32) -> (r: bool)
    ensures
        r == f32_is_finite(bits),
{
    bits % 0x8000_0000 < 0x7f80_0000
}

pub fn lt_zero32(bits: u32) -> (r: bool)
    ensures
        r == f32_lt_zero(bits),
{
    let mag = bits % 0x8000_0000;
    bits >= 0x8000_0000 && mag <= 0x7f80_0000 && mag != 0
}

pub fn le_zero32(bits: u32) -> (r: bool)
    ensures
        r == f32_le_zero(bits),
{
    let mag = bits % 0x8000_0000;
    mag <= 0x7f80_0000 && (bits >= 0x8000_0000 || mag == 0)
}

pub fn eq32(a: u32, b: u32) -> (r: bool)
    ensures
        r == f32_eq(a, b),
{
    let ma = a % 0x8000_0000;
    let mb = b % 0x8000_0000;
    ma <= 0x7f80_0000 && mb <= 0x7f80_0000 && (a == b || (ma == 0 && mb == 0))
}

pub fn eq64(a: u64, b: u64) -> (r: bool)
    ensures
        r == f64_eq(a, b),
{
    let ma = a % 0x8000_0000_0000_0000;
    let mb = b % 0x8000_0000_0000_0000;
    ma <= 0x7ff0_0000_0000_0000 && mb <= 0x7ff0_0000_0000_0000 && (a == b || (ma == 0 && mb == 0))
}

// ---------------------------------------------------------------------------
// Exact widening of a finite binary32 value to binary64 (`as f64`).
// ---------------------------------------------------------------------------

/// Shift a nonzero subnormal fraction left until its leading bit reaches the
/// implicit-one position (bit 23); returns the normalized fraction and the
/// number of shifts.
pub open spec fn normalize_fraction(m: nat, shifts: nat) -> (nat, nat)
    decreases 0x100_0000 - m,
{
    if m == 0 || m >= 0x80_0000 {
        (m, shifts)
    } else {
        normalize_fraction(m * 2, shifts + 1)
    }
}

/// The binary64 encoding of a finite binary32 value.
pub open spec fn f32_widened(bits: u32) -> u64 {
    let sign: int = if f32_sign_set(bits) { 0x8000_0000_0000_0000 } else { 0 };
    let mag = f32_magnitude(bits);
    let exp = mag / 0x80_0000;
    let frac = mag % 0x80_0000;
    if exp > 0 {
        (sign + (exp + 896) * 0x10_0000_0000_0000 + frac * 0x2000_0000) as u64
    } else if frac == 0 {
        sign as u64
    } else {
        let (m, shifts) = normalize_fraction(frac as nat, 0);
        (sign + (897 - shifts) * 0x10_0000_0000_0000 + (m - 0x80_0000) * 0x2000_0000) as u64
    }
}

proof fn lemma_normalize(m: nat, shifts: nat, k: nat)
    requires
        0 < m < 0x80_0000,
        k <= 22,
        m >= vstd::arithmetic::power2::pow2(k),
    ensures
        0x80_0000 <= normalize_fraction(m, shifts).0 < 0x100_0000,
        shifts < normalize_fraction(m, shifts).1 <= shifts + 23 - k,
    decreases 0x100_0000 - m,
{
    vstd::arithmetic::power2::lemma2_to64();
    reveal_with_fuel(normalize_fraction, 2);
    if m * 2 < 0x80_0000 {
        vstd::arithmetic::power2::lemma_pow2_unfold(k + 1);
        if k + 1 > 22 {
            if k + 1 > 23 { vstd::arithmetic::power2::lemma_pow2_strictly_increases(23, k + 1); }
            assert(false);
        }
        lemma_normalize(m * 2, shifts + 1, k + 1);
    }
}

proof fn lemma_normalize_bounds(m: nat, shifts: nat)
    requires
        0 < m < 0x80_0000,
    ensures
        0x80_0000 <= normalize_fraction(m, shifts).0 < 0x100_0000,
        shifts < normalize_fraction(m, shifts).1 <= shifts + 23,
{
    vstd::arithmetic::power2::lemma2_to64();
    lemma_normalize(m, shifts, 0);
}

/// The binary64 encoding of a finite binary32 value (`value as f64`).
pub fn widen32(bits: u32) -> (r: u64)
    requires
        f32_is_finite(bits),
    ensures
        r == f32_widened(bits),
{
    let sign: u64 = if bits >= 0x8000_0000 { 0x8000_0000_0000_0000 } else { 0 };
    let mag = bits % 0x8000_0000;
    let exp = mag / 0x80_0000;
    let frac = mag % 0x80_0000;
    if exp > 0 {
        assert(exp < 255);
        sign + (exp as u64 + 896) * 0x10_0000_0000_0000 + frac as u64 * 0x2000_0000
    } else if frac == 0 {
        sign
    } else {
        let mut m: u64 = frac as u64;
        let mut shifts: u64 = 0;
        proof {
            lemma_normalize_bounds(frac as nat, 0);
        }
        while m < 0x80_0000
            invariant
                0 < m < 0x100_0000,
                shifts <= 23,
                normalize_fraction(m as nat, shifts as nat) == normalize_fraction(frac as nat, 0),
                m < 0x80_0000 ==> shifts < normalize_fraction(frac as nat, 0).1,
                normalize_fraction(frac as nat, 0).1 <= 23,
            decreases 0x100_0000 - m,
        {
            proof {
                if m * 2 < 0x80_0000 {
                    lemma_normalize_bounds((m * 2) as nat, (shifts + 1) as nat);
                }
            }
            m = m * 2;
            shifts = shifts + 1;
        }
        sign + (897 - shifts) * 0x10_0000_0000_0000 + (m - 0x80_0000) * 0x2000_0000
    }
}

/// Widening a finite binary32 value never yields a NaN.
pub proof fn lemma_widened_not_nan(bits: u32)
    requires
        f32_is_finite(bits),
    ensures
        !f64_is_nan(f32_widened(bits)),
        f64_is_finite(f32_widened(bits)),
{
    let sign: int = if f32_sign_set(bits) { 0x8000_0000_0000_0000 } else { 0 };
    let mag = f32_magnitude(bits);
    let exp = mag / 0x80_0000;
    let frac = mag % 0x80_0000;
    if exp > 0 {
        let rest = (exp + 896) * 0x10_0000_0000_0000 + frac * 0x2000_0000;
        assert(rest < 0x7ff0_0000_0000_0000);
        assert((sign + rest) % 0x8000_0000_0000_0000 == rest);
    } else if frac == 0 {
    } else {
        lemma_normalize_bounds(frac as nat, 0);
        let (m, shifts) = normalize_fraction(frac as nat, 0);
        let rest = (897 - shifts) * 0x10_0000_0000_0000 + (m - 0x80_0000) * 0x2000_0000;
        assert(rest < 0x7ff0_0000_0000_0000);
        assert(rest >= 0);
        assert((sign + rest) % 0x8000_0000_0000_0000 == rest);
    }
}

} // verus!
