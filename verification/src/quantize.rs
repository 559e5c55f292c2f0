use vstd::prelude::*;
use vstd::arithmetic::div_mod::{
    lemma_div_is_ordered, lemma_div_multiples_vanish_fancy, lemma_div_multiples_vanish,
    lemma_div_pos_is_pos,
};
use vstd::arithmetic::mul::{lemma_mul_inequality, lemma_mul_nonnegative};

verus! {

/// Fixed-point one for thresholds and diffusion strengths: 1.0 is UNIT.
pub const UNIT: i64 = 65536;

/// Full-scale channel intensity in working units: 255 * UNIT, so the 8-bit
/// channel value c corresponds exactly to c * UNIT working units.
pub const FULL: i64 = 16711680;

/// Largest accepted quantization level count per channel (the output has
/// only 256 distinct 8-bit values, so larger counts would be meaningless;
/// the bound also keeps the engine's arithmetic inside 64 bits).
pub const MAX_LEVELS: usize = 65536;

/// Clamps a working-unit intensity into [0, FULL].
pub open spec fn clamp_intensity(v: int) -> int {
    if v < 0 {
        0
    } else if v > FULL {
        FULL as int
    } else {
        v
    }
}

/// The discrete level index nearest to v * (levels-1) / FULL, with halves
/// rounding up (v is a nonnegative working-unit intensity).
pub open spec fn quant_level(v: int, levels: int) -> int {
    (2 * v * (levels - 1) + FULL) / (2 * FULL)
}

/// Rescales level index k back to an 8-bit value, truncating toward zero.
pub open spec fn level_value(k: int, levels: int) -> int {
    255 * k / (levels - 1)
}

/// Holds when b is one of the `levels` evenly spaced 8-bit output values.
pub open spec fn is_level(b: int, levels: int) -> bool {
    exists|k: int| 0 <= k < levels && b == level_value(k, levels)
}

/// The quantized 8-bit value for working-unit intensity v.
pub open spec fn quantize_spec(v: int, levels: int) -> int {
    level_value(quant_level(v, levels), levels)
}

pub proof fn lemma_quant_level_range(v: int, levels: int)
    requires
        0 <= v <= FULL,
        2 <= levels,
    ensures
        0 <= quant_level(v, levels) <= levels - 1,
{
    let num = 2 * v * (levels - 1) + FULL;
    lemma_mul_nonnegative(2 * v, levels - 1);
    lemma_div_pos_is_pos(num, 2 * FULL);
    lemma_mul_inequality(2 * v, 2 * FULL, levels - 1);
    assert(num <= 2 * FULL * (levels - 1) + FULL);
    lemma_div_is_ordered(num, 2 * FULL * (levels - 1) + FULL, 2 * FULL);
    lemma_div_multiples_vanish_fancy(levels - 1, FULL as int, 2 * FULL);
    assert(2 * FULL * (levels - 1) == (2 * FULL) * (levels - 1));
}

pub proof fn lemma_level_value_range(k: int, levels: int)
    requires
        0 <= k <= levels - 1,
        2 <= levels,
    ensures
        0 <= level_value(k, levels) <= 255,
        k == 0 ==> level_value(k, levels) == 0,
        k == levels - 1 ==> level_value(k, levels) == 255,
{
    lemma_mul_nonnegative(255, k);
    lemma_div_pos_is_pos(255 * k, levels - 1);
    lemma_mul_inequality(k, levels - 1, 255);
    assert(k * 255 == 255 * k) by (nonlinear_arith);
    assert((levels - 1) * 255 == 255 * (levels - 1)) by (nonlinear_arith);
    lemma_div_is_ordered(255 * k, 255 * (levels - 1), levels - 1);
    lemma_div_multiples_vanish(255, levels - 1);
    assert((levels - 1) * 255 == 255 * (levels - 1)) by (nonlinear_arith);
}

/// Every quantized value is one of the `levels` output values, and fits in
/// a byte.
pub proof fn lemma_quantize_is_level(v: int, levels: int)
    requires
        0 <= v <= FULL,
        2 <= levels,
    ensures
        is_level(quantize_spec(v, levels), levels),
        0 <= quantize_spec(v, levels) <= 255,
{
    lemma_quant_level_range(v, levels);
    lemma_level_value_range(quant_level(v, levels), levels);
}

/// Full-scale input quantizes exactly to 255, and zero to 0, for every
/// level count.
pub proof fn lemma_quantize_endpoints(levels: int)
    requires
        2 <= levels,
    ensures
        quantize_spec(FULL as int, levels) == 255,
        quantize_spec(0, levels) == 0,
{
    lemma_div_multiples_vanish_fancy(levels - 1, FULL as int, 2 * FULL);
    assert(2 * (FULL as int) * (levels - 1) == (2 * FULL) * (levels - 1)) by (nonlinear_arith);
    assert(quant_level(FULL as int, levels) == levels - 1);
    lemma_level_value_range(levels - 1, levels);
    lemma_div_multiples_vanish_fancy(0, FULL as int, 2 * FULL);
    assert(2 * 0 * (levels - 1) == (2 * FULL) * 0) by (nonlinear_arith);
    assert(quant_level(0, levels) == 0);
    lemma_level_value_range(0, levels);
}

/// Maps a working-unit intensity in [0, FULL] to the nearest of `levels`
/// evenly spaced discrete values, rescaled onto [0, 255]: the index nearest
/// to value * (levels-1) / FULL, then index * 255 / (levels-1) truncated.
pub fn quantize_color(value: i64, levels: usize) -> (q: u8)
    requires
        0 <= value <= FULL,
        2 <= levels <= MAX_LEVELS,
    ensures
        q == quantize_spec(value as int, levels as int),
        is_level(q as int, levels as int),
{
    proof {
        lemma_quant_level_range(value as int, levels as int);
        lemma_level_value_range(quant_level(value as int, levels as int), levels as int);
    }
    let lm1 = (levels - 1) as u64;
    let level = (2 * (value as u64) * lm1 + (FULL as u64)) / (2 * (FULL as u64));
    let q64 = level * 255 / lm1;
    q64 as u8
}

/// Quantizes the three channels of a color independently.
pub fn find_nearest_color(c0: i64, c1: i64, c2: i64, levels: usize) -> (q: (u8, u8, u8))
    requires
        0 <= c0 <= FULL,
        0 <= c1 <= FULL,
        0 <= c2 <= FULL,
        2 <= levels <= MAX_LEVELS,
    ensures
        q.0 == quantize_spec(c0 as int, levels as int),
        q.1 == quantize_spec(c1 as int, levels as int),
        q.2 == quantize_spec(c2 as int, levels as int),
{
    (quantize_color(c0, levels), quantize_color(c1, levels), quantize_color(c2, levels))
}

} // verus!
