//! The 3-component vector algebra: arithmetic, dot and cross products,
//! normalization, reflection, refraction, and the rejection samplers.
//! Components are fixed-point scalars (see `fix`), and every operation's
//! contract states its result exactly over the mathematical model `V3`.

use crate::fix::{
    div_fixed, fx_div, fx_mul, fx_sqrt, is_isqrt, lemma_fx_mul_bound, lemma_fx_square_nonneg,
    mul_fixed, s_abs, sqrt_fixed, lemma_abs_mul, FX_DIV_MAX, FX_PROD_MAX, FX_RES_MAX, ONE,
};
use crate::util::{random_double, random_double_range};
use vstd::arithmetic::div_mod::{lemma_div_is_ordered, lemma_fundamental_div_mod};
use vstd::arithmetic::mul::{lemma_mul_inequality, lemma_mul_nonnegative};
use vstd::prelude::*;

verus! {

/// Largest component magnitude the multiplicative operations accept (2^61).
pub const VEC_MAX: i128 = 2305843009213693952;

/// Largest component magnitude the additive operations accept (2^125).
pub const ADD_MAX: i128 = 42535295865117307932921825928971026432;

/// Two whole units; also the component bound of a normalized vector.
pub const TWO_ONE: i128 = 8589934592;

/// Bound on a squared length of components within `VEC_MAX` (3 * 2^90).
pub const LSQ_MAX: i128 = 3713820117856140824697372672;

/// Sub-units strictly below the 1e-8 near-zero threshold: a component is
/// near zero exactly when its magnitude is below this count.
pub const NEAR_ZERO_EPS: i128 = 43;

/// Draws a rejection sampler makes before it settles for a fixed interior
/// point. The verifier demands a termination bound; at an acceptance rate
/// above half per draw, exhausting 2^62 draws never happens in practice.
pub const RETRY_CAP: u64 = 4611686018427387904;

/// Mathematical model of a vector: three unbounded integer components.
pub ghost struct V3 {
    pub x: int,
    pub y: int,
    pub z: int,
}

/// A 3-component vector of fixed-point scalars. The same representation
/// serves positions, directions, and RGB color triples.
#[derive(Clone, Copy, PartialEq, Eq, Structural, Debug)]
pub struct Vec3 {
    pub x: i128,
    pub y: i128,
    pub z: i128,
}

/// A vector used as a position.
pub type Point3 = Vec3;

impl View for Vec3 {
    type V = V3;

    open spec fn view(&self) -> V3 {
        V3 { x: self.x as int, y: self.y as int, z: self.z as int }
    }
}

/// All three components lie within `bound`.
pub open spec fn v_fits(v: V3, bound: int) -> bool {
    &&& -bound <= v.x <= bound
    &&& -bound <= v.y <= bound
    &&& -bound <= v.z <= bound
}

/// Component-wise negation.
pub open spec fn sneg(v: V3) -> V3 {
    V3 { x: -v.x, y: -v.y, z: -v.z }
}

/// Component-wise sum.
pub open spec fn sadd(u: V3, v: V3) -> V3 {
    V3 { x: u.x + v.x, y: u.y + v.y, z: u.z + v.z }
}

/// Component-wise difference.
pub open spec fn ssub(u: V3, v: V3) -> V3 {
    V3 { x: u.x - v.x, y: u.y - v.y, z: u.z - v.z }
}

/// Component-wise (Hadamard) product, used for color blending.
pub open spec fn smul(u: V3, v: V3) -> V3 {
    V3 { x: fx_mul(u.x, v.x), y: fx_mul(u.y, v.y), z: fx_mul(u.z, v.z) }
}

/// Every component scaled by `t`.
pub open spec fn sscale(v: V3, t: int) -> V3 {
    V3 { x: fx_mul(v.x, t), y: fx_mul(v.y, t), z: fx_mul(v.z, t) }
}

/// Every component divided by `t`.
pub open spec fn sdivs(v: V3, t: int) -> V3 {
    V3 { x: fx_div(v.x, t), y: fx_div(v.y, t), z: fx_div(v.z, t) }
}

/// Sum of pairwise component products.
pub open spec fn sdot(u: V3, v: V3) -> int {
    fx_mul(u.x, v.x) + fx_mul(u.y, v.y) + fx_mul(u.z, v.z)
}

/// Sum of squared components.
pub open spec fn slsq(v: V3) -> int {
    fx_mul(v.x, v.x) + fx_mul(v.y, v.y) + fx_mul(v.z, v.z)
}

/// Right-handed cross product.
pub open spec fn scross(u: V3, v: V3) -> V3 {
    V3 {
        x: fx_mul(u.y, v.z) - fx_mul(u.z, v.y),
        y: fx_mul(u.z, v.x) - fx_mul(u.x, v.z),
        z: fx_mul(u.x, v.y) - fx_mul(u.y, v.x),
    }
}

/// All components below the near-zero threshold in magnitude.
pub open spec fn snear_zero(v: V3) -> bool {
    &&& s_abs(v.x) < NEAR_ZERO_EPS
    &&& s_abs(v.y) < NEAR_ZERO_EPS
    &&& s_abs(v.z) < NEAR_ZERO_EPS
}

/// The vector divided by its own length.
pub open spec fn sunit(v: V3) -> V3 {
    sdivs(v, fx_sqrt(slsq(v)))
}

/// Reflection of `v` about the plane with unit normal `n`.
pub open spec fn sreflect(v: V3, n: V3) -> V3 {
    ssub(v, sscale(sscale(n, TWO_ONE as int), sdot(v, n)))
}

/// Snell refraction of the unit direction `uv` at unit normal `n`, for the
/// given ratio of refractive indices. Total internal reflection is not
/// detected here: the radicand's magnitude keeps the square root defined,
/// and callers test for it beforehand.
pub open spec fn srefract(uv: V3, n: V3, eta: int) -> V3 {
    let d = sdot(sneg(uv), n);
    let cos_theta = if d < ONE {
        d
    } else {
        ONE as int
    };
    let perp = sscale(sadd(uv, sscale(n, cos_theta)), eta);
    let par = sscale(n, -fx_sqrt(s_abs((ONE as int) - slsq(perp))));
    sadd(perp, par)
}

impl Vec3 {
    /// Exact construction; no validation.
    pub fn new(x: i128, y: i128, z: i128) -> (r: Vec3)
        ensures
            r@ == (V3 { x: x as int, y: y as int, z: z as int }),
    {
        Vec3 { x, y, z }
    }

    /// A vector whose components are each uniform in `[0, 1)`.
    pub fn random() -> (r: Vec3)
        ensures
            0 <= r@.x < ONE,
            0 <= r@.y < ONE,
            0 <= r@.z < ONE,
    {
        Vec3 { x: random_double(), y: random_double(), z: random_double() }
    }

    /// A vector whose components are each uniform in `[min, max)`.
    pub fn random_range(min: i128, max: i128) -> (r: Vec3)
        requires
            -VEC_MAX <= min <= max <= VEC_MAX,
        ensures
            v_fits(r@, VEC_MAX as int),
            min <= r@.x <= max && min <= r@.y <= max && min <= r@.z <= max,
            min < max ==> r@.x < max && r@.y < max && r@.z < max,
    {
        Vec3 {
            x: random_double_range(min, max),
            y: random_double_range(min, max),
            z: random_double_range(min, max),
        }
    }

    /// First component.
    pub fn x(&self) -> (r: i128)
        ensures
            r == self@.x,
    {
        self.x
    }

    /// Second component.
    pub fn y(&self) -> (r: i128)
        ensures
            r == self@.y,
    {
        self.y
    }

    /// Third component.
    pub fn z(&self) -> (r: i128)
        ensures
            r == self@.z,
    {
        self.z
    }

    /// Component-wise negation.
    pub fn neg(&self) -> (r: Vec3)
        requires
            v_fits(self@, ADD_MAX as int),
        ensures
            r@ == sneg(self@),
            v_fits(r@, ADD_MAX as int),
    {
        Vec3 { x: -self.x, y: -self.y, z: -self.z }
    }

    /// Component-wise sum.
    pub fn plus(&self, v: Vec3) -> (r: Vec3)
        requires
            v_fits(self@, ADD_MAX as int),
            v_fits(v@, ADD_MAX as int),
        ensures
            r@ == sadd(self@, v@),
    {
        Vec3 { x: self.x + v.x, y: self.y + v.y, z: self.z + v.z }
    }

    /// Component-wise difference.
    pub fn minus(&self, v: Vec3) -> (r: Vec3)
        requires
            v_fits(self@, ADD_MAX as int),
            v_fits(v@, ADD_MAX as int),
        ensures
            r@ == ssub(self@, v@),
    {
        Vec3 { x: self.x - v.x, y: self.y - v.y, z: self.z - v.z }
    }

    /// Component-wise (Hadamard) product.
    pub fn mul_comp(&self, v: Vec3) -> (r: Vec3)
        requires
            v_fits(self@, VEC_MAX as int),
            v_fits(v@, VEC_MAX as int),
        ensures
            r@ == smul(self@, v@),
            v_fits(r@, FX_RES_MAX as int),
    {
        proof {
            lemma_fx_mul_bound(self@.x, v@.x, VEC_MAX as int, VEC_MAX as int);
            lemma_fx_mul_bound(self@.y, v@.y, VEC_MAX as int, VEC_MAX as int);
            lemma_fx_mul_bound(self@.z, v@.z, VEC_MAX as int, VEC_MAX as int);
        }
        Vec3 {
            x: mul_fixed(self.x, v.x),
            y: mul_fixed(self.y, v.y),
            z: mul_fixed(self.z, v.z),
        }
    }

    /// Every component scaled by `t`.
    pub fn scale(&self, t: i128) -> (r: Vec3)
        requires
            v_fits(self@, ADD_MAX as int),
            -ADD_MAX <= t <= ADD_MAX,
            -FX_PROD_MAX <= self@.x * t <= FX_PROD_MAX,
            -FX_PROD_MAX <= self@.y * t <= FX_PROD_MAX,
            -FX_PROD_MAX <= self@.z * t <= FX_PROD_MAX,
        ensures
            r@ == sscale(self@, t as int),
            v_fits(r@, FX_RES_MAX as int),
    {
        Vec3 {
            x: mul_fixed(self.x, t),
            y: mul_fixed(self.y, t),
            z: mul_fixed(self.z, t),
        }
    }

    /// Every component divided by `t`.
    pub fn div_scalar(&self, t: i128) -> (r: Vec3)
        requires
            v_fits(self@, FX_DIV_MAX as int),
            t != 0,
            -ADD_MAX <= t <= ADD_MAX,
        ensures
            r@ == sdivs(self@, t as int),
    {
        Vec3 {
            x: div_fixed(self.x, t),
            y: div_fixed(self.y, t),
            z: div_fixed(self.z, t),
        }
    }

    /// Add `v` into `self`.
    pub fn add_assign(&mut self, v: Vec3)
        requires
            v_fits(old(self)@, ADD_MAX as int),
            v_fits(v@, ADD_MAX as int),
        ensures
            final(self)@ == sadd(old(self)@, v@),
    {
        self.x = self.x + v.x;
        self.y = self.y + v.y;
        self.z = self.z + v.z;
    }

    /// Scale `self` by `t` in place.
    pub fn mul_assign(&mut self, t: i128)
        requires
            v_fits(old(self)@, ADD_MAX as int),
            -ADD_MAX <= t <= ADD_MAX,
            -FX_PROD_MAX <= old(self)@.x * t <= FX_PROD_MAX,
            -FX_PROD_MAX <= old(self)@.y * t <= FX_PROD_MAX,
            -FX_PROD_MAX <= old(self)@.z * t <= FX_PROD_MAX,
        ensures
            final(self)@ == sscale(old(self)@, t as int),
    {
        self.x = mul_fixed(self.x, t);
        self.y = mul_fixed(self.y, t);
        self.z = mul_fixed(self.z, t);
    }

    /// Sum of squared components.
    pub fn length_squared(&self) -> (r: i128)
        requires
            v_fits(self@, VEC_MAX as int),
        ensures
            r == slsq(self@),
            0 <= r <= LSQ_MAX,
    {
        proof {
            lemma_fx_mul_bound(self@.x, self@.x, VEC_MAX as int, VEC_MAX as int);
            lemma_fx_mul_bound(self@.y, self@.y, VEC_MAX as int, VEC_MAX as int);
            lemma_fx_mul_bound(self@.z, self@.z, VEC_MAX as int, VEC_MAX as int);
            lemma_fx_square_nonneg(self@.x);
            lemma_fx_square_nonneg(self@.y);
            lemma_fx_square_nonneg(self@.z);
        }
        mul_fixed(self.x, self.x) + mul_fixed(self.y, self.y) + mul_fixed(self.z, self.z)
    }

    /// Square root of the squared length.
    pub fn length(&self) -> (r: i128)
        requires
            v_fits(self@, VEC_MAX as int),
        ensures
            r == fx_sqrt(slsq(self@)),
            0 <= r,
            is_isqrt(slsq(self@) * (ONE as int), r as int),
    {
        let lsq = self.length_squared();
        sqrt_fixed(lsq)
    }

    /// True exactly when every component is below the 1e-8 threshold in
    /// magnitude.
    pub fn near_zero(&self) -> (r: bool)
        ensures
            r == snear_zero(self@),
    {
        -NEAR_ZERO_EPS < self.x && self.x < NEAR_ZERO_EPS && -NEAR_ZERO_EPS < self.y && self.y
            < NEAR_ZERO_EPS && -NEAR_ZERO_EPS < self.z && self.z < NEAR_ZERO_EPS
    }
}

/// Sum of pairwise component products.
pub fn dot(u: Vec3, v: Vec3) -> (r: i128)
    requires
        v_fits(u@, VEC_MAX as int),
        v_fits(v@, VEC_MAX as int),
    ensures
        r == sdot(u@, v@),
        -LSQ_MAX <= r <= LSQ_MAX,
{
    proof {
        lemma_fx_mul_bound(u@.x, v@.x, VEC_MAX as int, VEC_MAX as int);
        lemma_fx_mul_bound(u@.y, v@.y, VEC_MAX as int, VEC_MAX as int);
        lemma_fx_mul_bound(u@.z, v@.z, VEC_MAX as int, VEC_MAX as int);
    }
    mul_fixed(u.x, v.x) + mul_fixed(u.y, v.y) + mul_fixed(u.z, v.z)
}

/// Right-handed cross product.
pub fn cross(u: Vec3, v: Vec3) -> (r: Vec3)
    requires
        v_fits(u@, VEC_MAX as int),
        v_fits(v@, VEC_MAX as int),
    ensures
        r@ == scross(u@, v@),
        v_fits(r@, 2 * (FX_RES_MAX as int)),
{
    proof {
        lemma_fx_mul_bound(u@.y, v@.z, VEC_MAX as int, VEC_MAX as int);
        lemma_fx_mul_bound(u@.z, v@.y, VEC_MAX as int, VEC_MAX as int);
        lemma_fx_mul_bound(u@.z, v@.x, VEC_MAX as int, VEC_MAX as int);
        lemma_fx_mul_bound(u@.x, v@.z, VEC_MAX as int, VEC_MAX as int);
        lemma_fx_mul_bound(u@.x, v@.y, VEC_MAX as int, VEC_MAX as int);
        lemma_fx_mul_bound(u@.y, v@.x, VEC_MAX as int, VEC_MAX as int);
    }
    Vec3 {
        x: mul_fixed(u.y, v.z) - mul_fixed(u.z, v.y),
        y: mul_fixed(u.z, v.x) - mul_fixed(u.x, v.z),
        z: mul_fixed(u.x, v.y) - mul_fixed(u.y, v.x),
    }
}

/// A component of a vector divided by the vector's length stays within two
/// whole units.
proof fn lemma_unit_component_bound(vi: int, lsq: int, len: int)
    requires
        fx_mul(vi, vi) <= lsq,
        1 <= lsq,
        is_isqrt(lsq * (ONE as int), len),
    ensures
        65536 <= len,
        -(TWO_ONE as int) <= fx_div(vi, len) <= TWO_ONE as int,
{
    assert(ONE as int <= lsq * (ONE as int)) by (nonlinear_arith)
        requires
            1 <= lsq,
    ;
    if len < 65536 {
        assert((len + 1) * (len + 1) <= 65536 * 65536) by (nonlinear_arith)
            requires
                0 <= len + 1 <= 65536,
        ;
        assert(false);
    }
    let m = s_abs(vi);
    lemma_abs_mul(vi, vi);
    assert(m * m == s_abs(vi * vi));
    lemma_mul_nonnegative(m, m);
    if m > 2 * len {
        assert((2 * len + 1) * (2 * len + 1) <= m * m) by (nonlinear_arith)
            requires
                0 <= 2 * len + 1 <= m,
        ;
        assert(vi * vi >= 0) by (nonlinear_arith);
        lemma_fundamental_div_mod(m * m, ONE as int);
        assert(fx_mul(vi, vi) == (m * m) / (ONE as int));
        assert(fx_mul(vi, vi) * (ONE as int) >= m * m - (ONE as int) + 1) by (nonlinear_arith)
            requires
                m * m == (ONE as int) * ((m * m) / (ONE as int)) + (m * m) % (ONE as int),
                0 <= (m * m) % (ONE as int) < (ONE as int),
                fx_mul(vi, vi) == (m * m) / (ONE as int),
        ;
        lemma_mul_inequality(fx_mul(vi, vi), lsq, ONE as int);
        assert(lsq * (ONE as int) >= m * m - (ONE as int) + 1);
        assert(lsq * (ONE as int) < (len + 1) * (len + 1));
        assert(false) by (nonlinear_arith)
            requires
                (2 * len + 1) * (2 * len + 1) - (ONE as int) + 1 < (len + 1) * (len + 1),
                65536 <= len,
                ONE == 4294967296,
        ;
    }
    lemma_abs_mul(vi, ONE as int);
    assert(s_abs(vi * (ONE as int)) == m * (ONE as int));
    assert(m * (ONE as int) <= (2 * len) * (ONE as int)) by (nonlinear_arith)
        requires
            m <= 2 * len,
            0 <= len,
    ;
    lemma_mul_nonnegative(m, ONE as int);
    lemma_div_is_ordered(m * (ONE as int), (2 * len) * (ONE as int), len);
    assert(((2 * len) * (ONE as int)) / len == 2 * (ONE as int)) by {
        assert((2 * len) * (ONE as int) == len * (2 * (ONE as int))) by (nonlinear_arith);
        vstd::arithmetic::div_mod::lemma_div_multiples_vanish(2 * (ONE as int), len);
    }
    vstd::arithmetic::div_mod::lemma_div_pos_is_pos(s_abs(vi * (ONE as int)), len);
}

/// The vector divided by its own length: a unit vector up to rounding.
pub fn unit_vector(v: Vec3) -> (r: Vec3)
    requires
        v_fits(v@, VEC_MAX as int),
        slsq(v@) > 0,
    ensures
        r@ == sunit(v@),
        v_fits(r@, TWO_ONE as int),
{
    let lsq = v.length_squared();
    let len = sqrt_fixed(lsq);
    proof {
        lemma_fx_square_nonneg(v@.x);
        lemma_fx_square_nonneg(v@.y);
        lemma_fx_square_nonneg(v@.z);
        lemma_unit_component_bound(v@.x, lsq as int, len as int);
        lemma_unit_component_bound(v@.y, lsq as int, len as int);
        lemma_unit_component_bound(v@.z, lsq as int, len as int);
    }
    Vec3 {
        x: div_fixed(v.x, len),
        y: div_fixed(v.y, len),
        z: div_fixed(v.z, len),
    }
}

/// A uniform point strictly inside the unit ball, by rejection sampling:
/// draw from the enclosing cube until the squared length falls below one.
/// A draw that rounds to the zero vector is rejected as well, so that the
/// result can always be normalized (the reference lets a zero sample flow
/// into a division; fixed-point scalars have no infinity to carry that).
pub fn random_in_unit_sphere() -> (r: Vec3)
    ensures
        v_fits(r@, ONE as int),
        0 < slsq(r@) < ONE,
{
    let mut i: u64 = 0;
    while i < RETRY_CAP
        decreases RETRY_CAP - i,
    {
        let p = Vec3::random_range(-ONE, ONE);
        let lsq = p.length_squared();
        if 0 < lsq && lsq < ONE {
            return p;
        }
        i = i + 1;
    }
    let fallback = Vec3 { x: 2147483648, y: 0, z: 0 };
    proof {
        assert((2147483648int) * (2147483648int) == (ONE as int) * 1073741824) by (nonlinear_arith);
        vstd::arithmetic::div_mod::lemma_div_multiples_vanish(1073741824, ONE as int);
        assert(fx_mul(2147483648, 2147483648) == 1073741824);
        assert(fx_mul(0, 0) == 0);
        assert(slsq(fallback@) == 1073741824);
    }
    fallback
}

/// A uniform point inside the unit disk in the z = 0 plane, by rejection
/// sampling; used for lens sampling.
pub fn random_in_unit_disk() -> (r: Vec3)
    ensures
        v_fits(r@, ONE as int),
        0 <= slsq(r@) < ONE,
        r@.z == 0,
{
    let mut i: u64 = 0;
    while i < RETRY_CAP
        decreases RETRY_CAP - i,
    {
        let p = Vec3 {
            x: random_double_range(-ONE, ONE),
            y: random_double_range(-ONE, ONE),
            z: 0,
        };
        let lsq = p.length_squared();
        if lsq < ONE {
            proof {
                lemma_fx_square_nonneg(p@.x);
                lemma_fx_square_nonneg(p@.y);
                lemma_fx_square_nonneg(p@.z);
            }
            return p;
        }
        i = i + 1;
    }
    Vec3 { x: 0, y: 0, z: 0 }
}

/// Reflection of `v` about the plane with unit normal `n` (`n` is expected
/// to be unit length; the bounds ask only what the arithmetic needs).
pub fn reflect(v: Vec3, n: Vec3) -> (r: Vec3)
    requires
        v_fits(v@, VEC_MAX as int),
        v_fits(n@, 4 * (TWO_ONE as int)),
    ensures
        r@ == sreflect(v@, n@),
{
    proof {
        lemma_fx_mul_bound(v@.x, n@.x, VEC_MAX as int, 4 * (TWO_ONE as int));
        lemma_fx_mul_bound(v@.y, n@.y, VEC_MAX as int, 4 * (TWO_ONE as int));
        lemma_fx_mul_bound(v@.z, n@.z, VEC_MAX as int, 4 * (TWO_ONE as int));
    }
    let d = dot(v, n);
    proof {
        lemma_fx_mul_bound(n@.x, TWO_ONE as int, 4 * (TWO_ONE as int), TWO_ONE as int);
        lemma_fx_mul_bound(n@.y, TWO_ONE as int, 4 * (TWO_ONE as int), TWO_ONE as int);
        lemma_fx_mul_bound(n@.z, TWO_ONE as int, 4 * (TWO_ONE as int), TWO_ONE as int);
    }
    let n2 = n.scale(TWO_ONE);
    proof {
        lemma_fx_mul_bound(n2@.x, d as int, 68719476736, 55340232221128654848);
        lemma_fx_mul_bound(n2@.y, d as int, 68719476736, 55340232221128654848);
        lemma_fx_mul_bound(n2@.z, d as int, 68719476736, 55340232221128654848);
    }
    let s = n2.scale(d);
    v.minus(s)
}

/// Snell refraction of the unit direction `uv` at unit normal `n`, given the
/// ratio of refractive indices (incident medium over transmission medium).
pub fn refract(uv: Vec3, n: Vec3, etai_over_etat: i128) -> (r: Vec3)
    requires
        v_fits(uv@, TWO_ONE as int),
        v_fits(n@, TWO_ONE as int),
        0 <= etai_over_etat <= 1099511627776,
    ensures
        r@ == srefract(uv@, n@, etai_over_etat as int),
{
    let neg_uv = uv.neg();
    proof {
        lemma_fx_mul_bound(neg_uv@.x, n@.x, TWO_ONE as int, TWO_ONE as int);
        lemma_fx_mul_bound(neg_uv@.y, n@.y, TWO_ONE as int, TWO_ONE as int);
        lemma_fx_mul_bound(neg_uv@.z, n@.z, TWO_ONE as int, TWO_ONE as int);
    }
    let d = dot(neg_uv, n);
    let cos_theta = if d < ONE {
        d
    } else {
        ONE
    };
    proof {
        lemma_fx_mul_bound(n@.x, cos_theta as int, TWO_ONE as int, 51539607552);
        lemma_fx_mul_bound(n@.y, cos_theta as int, TWO_ONE as int, 51539607552);
        lemma_fx_mul_bound(n@.z, cos_theta as int, TWO_ONE as int, 51539607552);
    }
    let scaled_n = n.scale(cos_theta);
    let perp_in = uv.plus(scaled_n);
    proof {
        lemma_fx_mul_bound(perp_in@.x, etai_over_etat as int, 111669149696, 1099511627776);
        lemma_fx_mul_bound(perp_in@.y, etai_over_etat as int, 111669149696, 1099511627776);
        lemma_fx_mul_bound(perp_in@.z, etai_over_etat as int, 111669149696, 1099511627776);
    }
    let r_out_perp = perp_in.scale(etai_over_etat);
    let plsq = r_out_perp.length_squared();
    let k = ONE - plsq;
    let m = if k >= 0 {
        k
    } else {
        -k
    };
    let s = sqrt_fixed(m);
    proof {
        lemma_fx_mul_bound(n@.x, -(s as int), TWO_ONE as int, 9223372036854775807);
        lemma_fx_mul_bound(n@.y, -(s as int), TWO_ONE as int, 9223372036854775807);
        lemma_fx_mul_bound(n@.z, -(s as int), TWO_ONE as int, 9223372036854775807);
    }
    let r_out_parallel = n.scale(-s);
    r_out_perp.plus(r_out_parallel)
}

/// A direction uniformly distributed on the unit sphere's surface: a uniform
/// ball sample, normalized.
pub fn random_unit_vector() -> (r: Vec3)
    ensures
        v_fits(r@, TWO_ONE as int),
        exists|p: V3|
            v_fits(p, ONE as int) && 0 < slsq(p) < ONE && r@ == #[trigger] sunit(p),
{
    let p = random_in_unit_sphere();
    let r = unit_vector(p);
    proof {
        assert(v_fits(p@, ONE as int) && 0 < slsq(p@) < ONE && r@ == sunit(p@));
    }
    r
}

/// The dot product does not depend on the order of its arguments.
pub proof fn lemma_dot_symmetric(u: V3, v: V3)
    ensures
        sdot(u, v) == sdot(v, u),
{
}

/// Swapping the arguments of the cross product negates it.
pub proof fn lemma_cross_antisymmetric(u: V3, v: V3)
    ensures
        scross(u, v) == sneg(scross(v, u)),
{
}

/// The squared length of a vector is its dot product with itself.
pub proof fn lemma_length_squared_is_dot(v: V3)
    ensures
        slsq(v) == sdot(v, v),
{
}

} // verus!
