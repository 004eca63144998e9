//! Color quantization: an accumulated radiance vector and a sample count
//! become the three 8-bit-range integers of one textual pixel record.

use crate::fix::{div_fixed, fx_div, fx_mul, lemma_fx_mul_bound, mul_fixed, ONE, ONE_U};
use crate::util::{clamp, sclamp};
use crate::vec::{v_fits, Vec3, VEC_MAX};
use vstd::arithmetic::div_mod::{
    lemma_div_is_ordered_by_denominator, lemma_div_pos_is_pos, lemma_multiply_divide_lt,
};
use vstd::prelude::*;

verus! {

/// A vector whose components are red, green and blue intensities.
pub type Color = Vec3;

/// Largest clamped intensity: 0.999, truncated to sub-units.
pub const CLAMP_MAX: i128 = 4290672328;

/// The channel value for an accumulated intensity `c` over `n` samples:
/// scale by the truncated reciprocal of `n`, clamp into `[0, 0.999]`,
/// scale by 256, truncate to an integer.
pub open spec fn squant(c: int, n: int) -> int {
    (256 * sclamp(fx_mul(c, fx_div(ONE as int, n * (ONE as int))), 0, CLAMP_MAX as int)) / (
    ONE as int)
}

/// One quantized channel, given the precomputed per-sample scale.
fn channel(c: i128, scale: i128) -> (r: i32)
    requires
        -VEC_MAX <= c <= VEC_MAX,
        0 <= scale <= ONE,
    ensures
        r == (256 * sclamp(fx_mul(c as int, scale as int), 0, CLAMP_MAX as int)) / (ONE as int),
        0 <= r <= 255,
{
    proof {
        lemma_fx_mul_bound(c as int, scale as int, VEC_MAX as int, ONE as int);
    }
    let s = mul_fixed(c, scale);
    let cl = clamp(s, 0, CLAMP_MAX);
    let q = ((cl as u128) * 256) / ONE_U;
    proof {
        lemma_multiply_divide_lt((cl as int) * 256, ONE as int, 256);
        lemma_div_pos_is_pos((cl as int) * 256, ONE as int);
    }
    q as i32
}

/// The averaged, clamped, 8-bit-range quantization of an accumulated color:
/// the three space-separated integers of one pixel record, in order.
pub fn write_color(pixel_color: Color, samples_per_pixel: i32) -> (rgb: (i32, i32, i32))
    requires
        samples_per_pixel >= 1,
        v_fits(pixel_color@, VEC_MAX as int),
    ensures
        rgb.0 == squant(pixel_color@.x, samples_per_pixel as int),
        rgb.1 == squant(pixel_color@.y, samples_per_pixel as int),
        rgb.2 == squant(pixel_color@.z, samples_per_pixel as int),
        0 <= rgb.0 <= 255,
        0 <= rgb.1 <= 255,
        0 <= rgb.2 <= 255,
{
    let n = samples_per_pixel as i128;
    let scale = div_fixed(ONE, n * ONE);
    proof {
        lemma_div_is_ordered_by_denominator((ONE as int) * (ONE as int), ONE as int, (n as int) * (
        ONE as int));
        lemma_div_pos_is_pos((ONE as int) * (ONE as int), (n as int) * (ONE as int));
        assert((ONE as int) * (ONE as int) / (ONE as int) == ONE as int) by {
            vstd::arithmetic::div_mod::lemma_div_multiples_vanish(ONE as int, ONE as int);
        }
        assert((ONE as int) <= (n as int) * (ONE as int)) by (nonlinear_arith)
            requires
                1 <= n,
        ;
    }
    (
        channel(pixel_color.x, scale),
        channel(pixel_color.y, scale),
        channel(pixel_color.z, scale),
    )
}

} // verus!
