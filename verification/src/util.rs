//! Scalar utilities: uniform random scalars, clamping, degree/radian
//! conversion, and the polynomial trigonometry used by the camera.

use crate::fix::{
    div_fixed, fx_div, fx_mul, lemma_fx_div_bound, lemma_fx_mul_bound, mul_fixed, ONE,
};
use rand::Rng;
use vstd::prelude::*;

verus! {

/// The half circle constant scaled by `ONE` (the whole part of pi * 2^32).
pub const PI_FX: i128 = 13493037704;

/// 180 degrees as a fixed-point scalar.
pub const HALF_TURN_FX: i128 = 773094113280;

/// Largest value `tan_fixed` reports (2^48 sub-units, about 65536 whole units).
pub const TAN_MAX: i128 = 281474976710656;

/// Largest magnitude `degrees_to_radians` accepts (2^52).
pub const DEG_MAX: i128 = 4503599627370496;

/// Largest argument magnitude the trigonometric polynomials accept (2 units).
pub const TRIG_ARG_MAX: i128 = 8589934592;

/// Clamp of `x` into `[min, max]`, testing the lower bound first.
pub open spec fn sclamp(x: int, min: int, max: int) -> int {
    if x < min {
        min
    } else if x > max {
        max
    } else {
        x
    }
}

/// Degrees to radians: `d * pi / 180` in fixed point.
pub open spec fn sdeg2rad(d: int) -> int {
    fx_div(fx_mul(d, PI_FX as int), HALF_TURN_FX as int)
}

/// Degree-9 Taylor polynomial of the sine about zero.
pub open spec fn ssin(x: int) -> int {
    let x2 = fx_mul(x, x);
    let x3 = fx_mul(x2, x);
    let x5 = fx_mul(x3, x2);
    let x7 = fx_mul(x5, x2);
    let x9 = fx_mul(x7, x2);
    x - fx_div(x3, 25769803776) + fx_div(x5, 515396075520) - fx_div(x7, 21646635171840)
        + fx_div(x9, 1558557732372480)
}

/// Degree-8 Taylor polynomial of the cosine about zero.
pub open spec fn scos(x: int) -> int {
    let x2 = fx_mul(x, x);
    let x4 = fx_mul(x2, x2);
    let x6 = fx_mul(x4, x2);
    let x8 = fx_mul(x6, x2);
    (ONE as int) - fx_div(x2, 8589934592) + fx_div(x4, 103079215104) - fx_div(
        x6,
        3092376453120,
    ) + fx_div(x8, 173173081374720)
}

/// Tangent as the ratio of the two polynomials, clamped into `[0, TAN_MAX]`.
/// Meaningful on (0, pi/2), where the true tangent is positive; outside that
/// interval the clamp keeps the value defined.
pub open spec fn stan(x: int) -> int {
    let c = scos(x);
    if c <= 0 {
        0
    } else {
        sclamp(fx_div(ssin(x), c), 0, TAN_MAX as int)
    }
}

/// Uniform random scalar in `[0, 1)`, one fixed-point sub-unit at a time.
///
/// Relies on `rand::rng`, the thread-local generator (each thread owns its
/// own, so concurrent callers do not share mutable state), and on
/// `rand::Rng::random::<u32>`, which draws uniformly over all 32-bit values;
/// scaled into the fixed-point unit interval that is a uniform scalar in
/// `[0, 1)`. Nothing more than the range can be promised of a random draw.
#[verifier::external_body]
pub fn random_double() -> (r: i128)
    ensures
        0 <= r < ONE,
{
    let bits: u32 = rand::rng().random();
    bits as i128
}

/// Uniform random scalar in `[min, max)`: `min + (max - min) * random_double()`.
pub fn random_double_range(min: i128, max: i128) -> (r: i128)
    requires
        -2305843009213693952 <= min <= max <= 2305843009213693952,
    ensures
        min <= r <= max,
        min < max ==> r < max,
        exists|u: int| 0 <= u < ONE && r == min + #[trigger] fx_mul((max - min) as int, u),
{
    let u = random_double();
    let d = max - min;
    proof {
        lemma_fx_mul_bound(d as int, u as int, 4611686018427387904, ONE as int);
    }
    proof {
        lemma_fx_mul_bound(d as int, u as int, d as int, (ONE as int) - 1);
    }
    let o = mul_fixed(d, u);
    proof {
        if d > 0 {
            assert(o < d) by {
                vstd::arithmetic::mul::lemma_mul_is_distributive_sub(
                    d as int,
                    ONE as int,
                    1,
                );
                assert((d as int) * ((ONE as int) - 1) == -(d as int) + (d as int) * (ONE as int));
                vstd::arithmetic::div_mod::lemma_hoist_over_denominator(
                    -(d as int),
                    d as int,
                    ONE as nat,
                );
                vstd::arithmetic::div_mod::lemma_div_is_ordered(-(d as int), -1, ONE as int);
            }
        }
        assert(0 <= o) by {
            vstd::arithmetic::mul::lemma_mul_nonnegative(d as int, u as int);
            vstd::arithmetic::div_mod::lemma_div_pos_is_pos((d as int) * (u as int), ONE as int);
        }
        assert(0 <= (u as int) < ONE && (min + o) as int == min + fx_mul((max - min) as int, u as int));
    }
    min + o
}

/// Clamp `x` into `[min, max]`, the lower bound winning when they disagree.
pub fn clamp(x: i128, min: i128, max: i128) -> (r: i128)
    ensures
        r == sclamp(x as int, min as int, max as int),
{
    if x < min {
        return min;
    }
    if x > max {
        return max;
    }
    x
}

/// Degrees to radians, as `degrees * pi / 180` in fixed point.
pub fn degrees_to_radians(degrees: i128) -> (r: i128)
    requires
        -DEG_MAX <= degrees <= DEG_MAX,
    ensures
        r == sdeg2rad(degrees as int),
        -HALF_TURN_FX <= degrees <= HALF_TURN_FX ==> -PI_FX <= r <= PI_FX,
{
    proof {
        lemma_fx_mul_bound(degrees as int, PI_FX as int, DEG_MAX as int, PI_FX as int);
    }
    let p = mul_fixed(degrees, PI_FX);
    let r = div_fixed(p, HALF_TURN_FX);
    proof {
        if -HALF_TURN_FX <= degrees <= HALF_TURN_FX {
            lemma_fx_mul_bound(degrees as int, PI_FX as int, HALF_TURN_FX as int, PI_FX as int);
            assert((HALF_TURN_FX as int) * (PI_FX as int) == (ONE as int) * 2428746786720)
                by (nonlinear_arith);
            vstd::arithmetic::div_mod::lemma_div_multiples_vanish(2428746786720, ONE as int);
            lemma_fx_div_bound(p as int, HALF_TURN_FX as int, 2428746786720);
            assert(2428746786720 * (ONE as int) == (HALF_TURN_FX as int) * (PI_FX as int))
                by (nonlinear_arith);
            vstd::arithmetic::div_mod::lemma_div_multiples_vanish(
                PI_FX as int,
                HALF_TURN_FX as int,
            );
        }
    }
    r
}

/// Degree-9 sine polynomial on fixed-point scalars.
pub fn sin_fixed(x: i128) -> (r: i128)
    requires
        -TRIG_ARG_MAX <= x <= TRIG_ARG_MAX,
    ensures
        r == ssin(x as int),
        -4398046511104 <= r <= 4398046511104,
{
    proof {
        lemma_fx_mul_bound(x as int, x as int, 8589934592, 8589934592);
    }
    let x2 = mul_fixed(x, x);
    proof {
        lemma_fx_mul_bound(x2 as int, x as int, 17179869184, 8589934592);
    }
    let x3 = mul_fixed(x2, x);
    proof {
        lemma_fx_mul_bound(x3 as int, x2 as int, 34359738368, 17179869184);
    }
    let x5 = mul_fixed(x3, x2);
    proof {
        lemma_fx_mul_bound(x5 as int, x2 as int, 137438953472, 17179869184);
    }
    let x7 = mul_fixed(x5, x2);
    proof {
        lemma_fx_mul_bound(x7 as int, x2 as int, 549755813888, 17179869184);
    }
    let x9 = mul_fixed(x7, x2);
    proof {
        lemma_fx_div_bound(x3 as int, 25769803776, 34359738368);
        lemma_fx_div_bound(x5 as int, 515396075520, 137438953472);
        lemma_fx_div_bound(x7 as int, 21646635171840, 549755813888);
        lemma_fx_div_bound(x9 as int, 1558557732372480, 2199023255552);
    }
    let t3 = div_fixed(x3, 25769803776);
    let t5 = div_fixed(x5, 515396075520);
    let t7 = div_fixed(x7, 21646635171840);
    let t9 = div_fixed(x9, 1558557732372480);
    x - t3 + t5 - t7 + t9
}

/// Degree-8 cosine polynomial on fixed-point scalars.
pub fn cos_fixed(x: i128) -> (r: i128)
    requires
        -TRIG_ARG_MAX <= x <= TRIG_ARG_MAX,
    ensures
        r == scos(x as int),
        -2199023255552 <= r <= 2199023255552,
{
    proof {
        lemma_fx_mul_bound(x as int, x as int, 8589934592, 8589934592);
    }
    let x2 = mul_fixed(x, x);
    proof {
        lemma_fx_mul_bound(x2 as int, x2 as int, 17179869184, 17179869184);
    }
    let x4 = mul_fixed(x2, x2);
    proof {
        lemma_fx_mul_bound(x4 as int, x2 as int, 68719476736, 17179869184);
    }
    let x6 = mul_fixed(x4, x2);
    proof {
        lemma_fx_mul_bound(x6 as int, x2 as int, 274877906944, 17179869184);
    }
    let x8 = mul_fixed(x6, x2);
    proof {
        lemma_fx_div_bound(x2 as int, 8589934592, 17179869184);
        lemma_fx_div_bound(x4 as int, 103079215104, 68719476736);
        lemma_fx_div_bound(x6 as int, 3092376453120, 274877906944);
        lemma_fx_div_bound(x8 as int, 173173081374720, 1099511627776);
    }
    let t2 = div_fixed(x2, 8589934592);
    let t4 = div_fixed(x4, 103079215104);
    let t6 = div_fixed(x6, 3092376453120);
    let t8 = div_fixed(x8, 173173081374720);
    ONE - t2 + t4 - t6 + t8
}

/// Tangent by the polynomial ratio, clamped into `[0, TAN_MAX]`.
pub fn tan_fixed(x: i128) -> (r: i128)
    requires
        -TRIG_ARG_MAX <= x <= TRIG_ARG_MAX,
    ensures
        r == stan(x as int),
        0 <= r <= TAN_MAX,
{
    let s = sin_fixed(x);
    let c = cos_fixed(x);
    if c <= 0 {
        0
    } else {
        let t = div_fixed(s, c);
        if t < 0 {
            0
        } else if t > TAN_MAX {
            TAN_MAX
        } else {
            t
        }
    }
}

} // verus!
