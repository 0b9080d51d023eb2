//! Widening of half-precision floating-point numbers, on bit patterns.
//!
//! A half-precision pattern has a sign bit, five exponent bits with bias 15
//! and ten fraction bits; a single-precision pattern a sign bit, eight
//! exponent bits with bias 127 and 23 fraction bits. Widening keeps the number:
//! a normal number keeps its fraction and has its exponent re-biased, a
//! subnormal number becomes the normal number of the same value, and zeros,
//! infinities and NaNs keep their kind, their sign and their fraction bits.

use vstd::prelude::*;

verus! {

/// The sign bit of a half-precision pattern.
pub open spec fn half_sign(bits: u16) -> int {
    bits as int / 0x8000
}

/// The five exponent bits of a half-precision pattern.
pub open spec fn half_exponent(bits: u16) -> int {
    (bits as int / 0x400) % 32
}

/// The ten fraction bits of a half-precision pattern.
pub open spec fn half_fraction(bits: u16) -> int {
    bits as int % 0x400
}

/// Two to the power `n`; 1 for an `n` that is not positive.
pub open spec fn pow2(n: int) -> int
    decreases n,
{
    if n <= 0 {
        1
    } else {
        2 * pow2(n - 1)
    }
}

/// The index of the highest set bit of `m`: the `k` with `pow2(k) <= m <
/// pow2(k + 1)`; 0 for an `m` under 2.
pub open spec fn top_bit(m: int) -> int
    decreases m,
{
    if m <= 1 {
        0
    } else {
        1 + top_bit(m / 2)
    }
}

/// The exponent field of the single-precision pattern that stands for a
/// half-precision pattern with exponent field `exponent` and fraction
/// `fraction`.
///
/// * Zero stays zero, and infinities and NaNs get all ones.
/// * A normal number moves from bias 15 to bias 127.
/// * A subnormal number with fraction `m` is `m` times 2 to the power -24.
///   With `k` the index of the highest set bit of `m`, that is between 2 to
///   the power `k - 24` and twice as much, so its exponent field is
///   `k - 24 + 127`.
pub open spec fn widened_exponent(exponent: int, fraction: int) -> int {
    if exponent == 0 {
        if fraction == 0 {
            0
        } else {
            103 + top_bit(fraction)
        }
    } else if exponent == 31 {
        255
    } else {
        exponent + 112
    }
}

/// The fraction field of the single-precision pattern that stands for a
/// half-precision pattern with exponent field `exponent` and fraction
/// `fraction`.
///
/// The ten fraction bits go to the top of the 23. Those of a subnormal number
/// are first moved up until the highest set bit, which the single-precision
/// pattern does not store, has left the field.
pub open spec fn widened_fraction(exponent: int, fraction: int) -> int {
    if exponent == 0 && fraction != 0 {
        (fraction * pow2(23 - top_bit(fraction))) % 0x80_0000
    } else {
        fraction * 0x2000
    }
}

/// The single-precision pattern for a half-precision pattern: the sign bit
/// on top, the exponent field below it, and the fraction field.
pub open spec fn widen_half(bits: u16) -> u32 {
    (half_sign(bits) * 0x8000_0000 + widened_exponent(half_exponent(bits), half_fraction(bits))
        * 0x80_0000 + widened_fraction(half_exponent(bits), half_fraction(bits))) as u32
}

/// A number between a power of two and the next has that power's index as
/// the index of its highest set bit.
pub proof fn lemma_top_bit(m: int, k: int)
    requires
        0 <= k,
        pow2(k) <= m < pow2(k + 1),
    ensures
        top_bit(m) == k,
    decreases k,
{
    if k > 0 {
        assert(pow2(k + 1) == 2 * pow2(k));
        assert(pow2(k) == 2 * pow2(k - 1));
        lemma_top_bit(m / 2, k - 1);
    } else {
        assert(pow2(1) == 2 * pow2(0));
    }
}

/// Powers of two add their exponents.
pub proof fn lemma_pow2_adds(a: int, b: int)
    requires
        0 <= a,
        0 <= b,
    ensures
        pow2(a + b) == pow2(a) * pow2(b),
    decreases a,
{
    if a > 0 {
        lemma_pow2_adds(a - 1, b);
        assert(pow2(a + b) == 2 * pow2(a - 1 + b));
        assert(2 * (pow2(a - 1) * pow2(b)) == (2 * pow2(a - 1)) * pow2(b)) by (nonlinear_arith);
    } else {
        assert(pow2(0) * pow2(b) == pow2(b)) by (nonlinear_arith)
            requires
                pow2(0) == 1,
        ;
    }
}

/// Two to any power is positive.
pub proof fn lemma_pow2_positive(n: int)
    ensures
        pow2(n) > 0,
    decreases n,
{
    if n > 0 {
        lemma_pow2_positive(n - 1);
    }
}

/// Subnormal numbers keep their value. A single-precision pattern with
/// exponent field `e` and fraction field `f` stands for `0x80_0000 + f` times
/// 2 to the power `e - 150`. For a subnormal half-precision pattern with
/// fraction `m`, widening gives an exponent field `e` from 103 to 112 and a
/// fraction field `f` with `(0x80_0000 + f) * 2^(e - 103) == m * 2^23`: the
/// pattern stands for `m` times 2 to the power `23 - (e - 103) + (e - 150)`,
/// which is -24, as the half-precision pattern does.
pub proof fn law_subnormal_keeps_its_value(m: int)
    requires
        0 < m < 0x400,
    ensures
        103 <= widened_exponent(0, m) <= 112,
        0 <= widened_fraction(0, m) < 0x80_0000,
        (0x80_0000 + widened_fraction(0, m)) * pow2(widened_exponent(0, m) - 103) == m * 0x80_0000,
{
    let k = top_bit(m);
    lemma_top_bit_bounds(m);
    let scale = pow2(23 - k);
    lemma_pow2_adds(k, 23 - k);
    lemma_pow2_positive(k);
    assert(pow2(23) == 0x80_0000) by {
        reveal_with_fuel(pow2, 24);
    }
    assert(pow2(k + 1) == 2 * pow2(k));
    assert(0x80_0000 <= m * scale < 0x100_0000) by (nonlinear_arith)
        requires
            pow2(k) <= m < 2 * pow2(k),
            pow2(k) * scale == 0x80_0000,
            scale > 0,
            pow2(k) > 0,
    ;
    assert((m * scale) % 0x80_0000 == m * scale - 0x80_0000);
    assert(m * scale * pow2(k) == m * 0x80_0000) by (nonlinear_arith)
        requires
            pow2(k) * scale == 0x80_0000,
    ;
}

/// Normal numbers keep their value. A half-precision pattern with exponent
/// field `e` from 1 to 30 and fraction `m` stands for `0x400 + m` times 2 to
/// the power `e - 25`. Widening keeps the exponent, `e - 15`, under the other
/// bias, and puts the fraction 13 places up: the single-precision pattern
/// stands for `(0x400 + m) * 2^13` times 2 to the power `e + 112 - 150`, which
/// is the same number.
pub proof fn law_normal_keeps_its_value(e: int, m: int)
    requires
        0 < e < 31,
        0 <= m < 0x400,
    ensures
        widened_exponent(e, m) - 127 == e - 15,
        0x80_0000 + widened_fraction(e, m) == (0x400 + m) * 0x2000,
{
}

/// The index of the highest set bit of a positive number under 1024 is at
/// most 9, and the number lies between that power of two and the next.
pub proof fn lemma_top_bit_bounds(m: int)
    requires
        0 < m < 0x400,
    ensures
        0 <= top_bit(m) <= 9,
        pow2(top_bit(m)) <= m < pow2(top_bit(m) + 1),
        pow2(23 - top_bit(m)) > 0,
{
    reveal_with_fuel(pow2, 25);
    reveal_with_fuel(top_bit, 11);
}

/// Widens a half-precision bit pattern to the single-precision bit pattern
/// that stands for the same number.
pub fn f16_to_f32(bits: u16) -> (wide: u32)
    ensures
        wide == widen_half(bits),
{
    let sign: u32 = ((bits >> 15) & 1) as u32;
    let exp: u32 = ((bits >> 10) & 0x1F) as u32;
    let mant: u32 = (bits & 0x3FF) as u32;
    assert(((bits >> 15) & 1) as u32 == bits / 0x8000) by (bit_vector);
    assert(((bits >> 10) & 0x1F) as u32 == (bits / 0x400) % 32) by (bit_vector);
    assert((bits & 0x3FF) as u32 == bits % 0x400) by (bit_vector);
    let mut new_exp: u32;
    let mut new_mant: u32;
    if exp == 0 && mant != 0 {
        // Move the fraction up until its highest set bit stands where the
        // implied bit of a normal number stands, one place above the field.
        let mut scaled: u32 = mant;
        new_exp = 113;
        while scaled < 0x400
            invariant
                103 <= new_exp <= 113,
                0 < mant < 0x400,
                scaled == mant * pow2(113 - new_exp),
                0 < scaled < 0x800,
            decreases 0x800 - scaled,
        {
            proof {
                assert(pow2(113 - new_exp + 1) == 2 * pow2(113 - new_exp));
                assert(mant * (2 * pow2(113 - new_exp)) == 2 * (mant * pow2(113 - new_exp)))
                    by (nonlinear_arith);
                if new_exp == 103 {
                    assert(pow2(10) == 0x400) by {
                        reveal_with_fuel(pow2, 11);
                    }
                    assert(mant * pow2(10) >= pow2(10)) by (nonlinear_arith)
                        requires
                            mant >= 1,
                            pow2(10) > 0,
                    ;
                }
            }
            scaled = scaled * 2;
            new_exp = new_exp - 1;
        }
        new_mant = (scaled - 0x400) * 0x2000;
        proof {
            let k = new_exp - 103;
            let shift = pow2(10 - k);
            assert(pow2(10) == 0x400 && pow2(13) == 0x2000) by {
                reveal_with_fuel(pow2, 14);
            }
            lemma_pow2_adds(k, 10 - k);
            lemma_pow2_adds(10 - k, 13);
            lemma_pow2_positive(k);
            lemma_pow2_positive(10 - k);
            assert(pow2(k + 1) == 2 * pow2(k));
            assert(pow2(k) <= mant < pow2(k + 1)) by (nonlinear_arith)
                requires
                    0x400 <= mant * shift < 0x800,
                    pow2(k) * shift == 0x400,
                    pow2(k + 1) == 2 * pow2(k),
                    shift > 0,
                    pow2(k) > 0,
            ;
            lemma_top_bit(mant as int, k);
            assert(mant * pow2(23 - k) == scaled * 0x2000) by (nonlinear_arith)
                requires
                    scaled == mant * shift,
                    pow2(23 - k) == shift * 0x2000,
            ;
            assert((scaled * 0x2000) % 0x80_0000 == (scaled - 0x400) * 0x2000);
        }
    } else {
        new_exp = if exp == 0 {
            0
        } else if exp == 0x1F {
            0xFF
        } else {
            exp + 127 - 15
        };
        assert(mant << 13 == mant * 0x2000) by (bit_vector)
            requires
                mant < 1024,
        ;
        new_mant = mant << 13;
    }
    assert((sign << 31) | (new_exp << 23) | new_mant == sign * 0x8000_0000 + new_exp * 0x80_0000
        + new_mant) by (bit_vector)
        requires
            sign <= 1,
            new_exp <= 255,
            new_mant < 0x80_0000,
    ;
    (sign << 31) | (new_exp << 23) | new_mant
}

} // verus!
