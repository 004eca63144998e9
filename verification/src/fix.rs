//! Fixed-point scalar arithmetic: every scalar of the vector algebra is an
//! `i128` count of sub-units, with `ONE` sub-units to a whole unit. Products
//! and quotients truncate toward zero, and the contracts state the results
//! exactly over mathematical integers.

use vstd::arithmetic::div_mod::lemma_div_is_ordered;
use vstd::arithmetic::mul::lemma_mul_cancels_negatives;
use vstd::arithmetic::mul::lemma_mul_nonnegative;
use vstd::arithmetic::mul::lemma_mul_unary_negation;
use vstd::prelude::*;

verus! {

/// One whole unit of the fixed-point scale: scalars carry 32 fractional bits.
pub const ONE: i128 = 4294967296;

/// `ONE` as an unsigned divisor for the magnitude arithmetic below.
pub const ONE_U: u128 = 4294967296;

/// Largest product `a * b` that `mul_fixed` accepts (2^124).
pub const FX_PROD_MAX: i128 = 21267647932558653966460912964485513216;

/// Bound on the result of `mul_fixed` under `FX_PROD_MAX` (2^92).
pub const FX_RES_MAX: i128 = 4951760157141521099596496896;

/// Largest numerator magnitude that `div_fixed` accepts (2^90).
pub const FX_DIV_MAX: i128 = 1237940039285380274899124224;

/// Largest argument that `sqrt_fixed` accepts (2^94 - 1).
pub const FX_SQRT_MAX: i128 = 19807040628566084398385987583;

/// Magnitude of a mathematical integer.
pub open spec fn s_abs(a: int) -> int {
    if a >= 0 {
        a
    } else {
        -a
    }
}

/// Division truncating toward zero, the rounding of the executable magnitude
/// arithmetic below (the spec operator `/` rounds toward negative infinity).
pub open spec fn t_div(a: int, b: int) -> int {
    if (a >= 0) == (b >= 0) {
        s_abs(a) / s_abs(b)
    } else {
        -(s_abs(a) / s_abs(b))
    }
}

/// Product of two fixed-point scalars.
pub open spec fn fx_mul(a: int, b: int) -> int {
    t_div(a * b, ONE as int)
}

/// Quotient of two fixed-point scalars.
pub open spec fn fx_div(a: int, b: int) -> int {
    t_div(a * (ONE as int), b)
}

/// `r` is the integer square root of `x`.
pub open spec fn is_isqrt(x: int, r: int) -> bool {
    &&& 0 <= r
    &&& r * r <= x
    &&& x < (r + 1) * (r + 1)
}

/// Integer square root; meaningful for `x >= 0` (see `lemma_isqrt_exists`).
pub open spec fn isqrt(x: int) -> int {
    choose|r: int| is_isqrt(x, r)
}

/// Square root of a nonnegative fixed-point scalar.
pub open spec fn fx_sqrt(a: int) -> int {
    isqrt(a * (ONE as int))
}

/// Every nonnegative integer has an integer square root.
pub proof fn lemma_isqrt_exists(x: int)
    requires
        0 <= x,
    ensures
        is_isqrt(x, isqrt(x)),
    decreases x,
{
    if x == 0 {
        assert(is_isqrt(0, 0)) by (nonlinear_arith);
    } else {
        lemma_isqrt_exists(x - 1);
        let r = isqrt(x - 1);
        if (r + 1) * (r + 1) <= x {
            assert(x == (r + 1) * (r + 1));
            assert(is_isqrt(x, r + 1)) by (nonlinear_arith)
                requires
                    0 <= r,
                    x == (r + 1) * (r + 1),
            ;
        } else {
            assert(is_isqrt(x, r));
        }
    }
    assert(exists|r: int| is_isqrt(x, r));
}

/// The integer square root is unique.
pub proof fn lemma_isqrt_unique(x: int, r1: int, r2: int)
    requires
        is_isqrt(x, r1),
        is_isqrt(x, r2),
    ensures
        r1 == r2,
{
    if r1 < r2 {
        assert(r2 * r2 <= x);
        assert((r1 + 1) * (r1 + 1) <= r2 * r2) by (nonlinear_arith)
            requires
                0 <= r1 + 1 <= r2,
        ;
    }
    if r2 < r1 {
        assert((r2 + 1) * (r2 + 1) <= r1 * r1) by (nonlinear_arith)
            requires
                0 <= r2 + 1 <= r1,
        ;
    }
}

/// The magnitude of a product is the product of the magnitudes.
pub proof fn lemma_abs_mul(a: int, b: int)
    ensures
        s_abs(a * b) == s_abs(a) * s_abs(b),
{
    if a >= 0 && b >= 0 {
        lemma_mul_nonnegative(a, b);
    } else if a >= 0 && b < 0 {
        lemma_mul_unary_negation(a, b);
        lemma_mul_nonnegative(a, -b);
        assert(a * -b == -(a * b)) by (nonlinear_arith);
    } else if a < 0 && b >= 0 {
        lemma_mul_unary_negation(a, b);
        lemma_mul_nonnegative(-a, b);
        assert(-a * b == -(a * b)) by (nonlinear_arith);
    } else {
        lemma_mul_cancels_negatives(a, b);
        lemma_mul_nonnegative(-a, -b);
        assert(-a * -b == a * b) by (nonlinear_arith);
    }
}

/// Bounds on both factors bound the product and the fixed-point product.
pub proof fn lemma_fx_mul_bound(a: int, b: int, ba: int, bb: int)
    requires
        -ba <= a <= ba,
        -bb <= b <= bb,
        0 <= ba,
        0 <= bb,
    ensures
        -(ba * bb) <= a * b <= ba * bb,
        -((ba * bb) / (ONE as int)) <= fx_mul(a, b) <= (ba * bb) / (ONE as int),
{
    assert(-(ba * bb) <= a * b <= ba * bb) by (nonlinear_arith)
        requires
            -ba <= a <= ba,
            -bb <= b <= bb,
            0 <= ba,
            0 <= bb,
    ;
    lemma_abs_mul(a, b);
    assert(s_abs(a * b) <= ba * bb);
    lemma_div_is_ordered(s_abs(a * b), ba * bb, ONE as int);
    assert(0 <= s_abs(a * b) / (ONE as int)) by {
        vstd::arithmetic::div_mod::lemma_div_pos_is_pos(s_abs(a * b), ONE as int);
    }
}

/// A bound on the numerator bounds the fixed-point quotient by a positive divisor.
pub proof fn lemma_fx_div_bound(a: int, b: int, ba: int)
    requires
        -ba <= a <= ba,
        0 <= ba,
        1 <= b,
    ensures
        -((ba * (ONE as int)) / b) <= fx_div(a, b) <= (ba * (ONE as int)) / b,
{
    lemma_abs_mul(a, ONE as int);
    assert(s_abs(a) * (ONE as int) <= ba * (ONE as int)) by (nonlinear_arith)
        requires
            s_abs(a) <= ba,
    ;
    lemma_mul_nonnegative(s_abs(a), ONE as int);
    lemma_div_is_ordered(s_abs(a * (ONE as int)), ba * (ONE as int), b);
    vstd::arithmetic::div_mod::lemma_div_pos_is_pos(s_abs(a * (ONE as int)), b);
}

/// A nonnegative square stays nonnegative through the fixed-point product.
pub proof fn lemma_fx_square_nonneg(a: int)
    ensures
        0 <= fx_mul(a, a),
{
    if a >= 0 {
        lemma_mul_nonnegative(a, a);
    } else {
        lemma_mul_cancels_negatives(a, a);
        lemma_mul_nonnegative(-a, -a);
    }
    vstd::arithmetic::div_mod::lemma_div_pos_is_pos(a * a, ONE as int);
}

/// A zero factor makes the fixed-point product zero.
pub proof fn lemma_fx_mul_zero(a: int)
    ensures
        fx_mul(a, 0) == 0,
        fx_mul(0, a) == 0,
{
    vstd::arithmetic::div_mod::lemma_div_of0(ONE as int);
}

/// The sign test on the factors decides the sign of the product.
pub proof fn lemma_sign_cases(a: int, b: int)
    ensures
        ((a < 0) != (b < 0)) ==> a * b <= 0,
        ((a < 0) == (b < 0)) ==> a * b >= 0,
{
    assert(((a < 0) != (b < 0)) ==> a * b <= 0) by (nonlinear_arith);
    assert(((a < 0) == (b < 0)) ==> a * b >= 0) by (nonlinear_arith);
}

/// Magnitude of a signed scalar.
pub fn iabs(a: i128) -> (m: u128)
    requires
        a != i128::MIN,
    ensures
        m == s_abs(a as int),
{
    if a >= 0 {
        a as u128
    } else {
        (-a) as u128
    }
}

/// Fixed-point product, truncating toward zero.
pub fn mul_fixed(a: i128, b: i128) -> (r: i128)
    requires
        -FX_PROD_MAX <= (a as int) * (b as int) <= FX_PROD_MAX,
        a != i128::MIN,
        b != i128::MIN,
    ensures
        r == fx_mul(a as int, b as int),
        -FX_RES_MAX <= r <= FX_RES_MAX,
{
    let ma = iabs(a);
    let mb = iabs(b);
    proof {
        lemma_abs_mul(a as int, b as int);
        lemma_sign_cases(a as int, b as int);
        lemma_div_is_ordered(s_abs((a as int) * (b as int)), FX_PROD_MAX as int, ONE as int);
        vstd::arithmetic::div_mod::lemma_div_pos_is_pos(
            s_abs((a as int) * (b as int)),
            ONE as int,
        );
    }
    let p = ma * mb;
    let q = p / ONE_U;
    if (a < 0) != (b < 0) {
        -(q as i128)
    } else {
        q as i128
    }
}

/// Fixed-point quotient, truncating toward zero.
pub fn div_fixed(a: i128, b: i128) -> (r: i128)
    requires
        -FX_DIV_MAX <= a <= FX_DIV_MAX,
        b != 0,
        b != i128::MIN,
    ensures
        r == fx_div(a as int, b as int),
{
    let ma = iabs(a);
    let mb = iabs(b);
    proof {
        lemma_abs_mul(a as int, ONE as int);
        assert(s_abs(a as int) * (ONE as int) <= FX_DIV_MAX * (ONE as int)) by (nonlinear_arith)
            requires
                s_abs(a as int) <= FX_DIV_MAX,
        ;
        lemma_div_is_ordered(s_abs((a as int) * (ONE as int)), FX_DIV_MAX * (ONE as int), mb as int);
        vstd::arithmetic::div_mod::lemma_div_is_ordered_by_denominator(
            FX_DIV_MAX * (ONE as int),
            1,
            mb as int,
        );
        vstd::arithmetic::div_mod::lemma_div_pos_is_pos(s_abs((a as int) * (ONE as int)), mb as int);
    }
    let p = ma * ONE_U;
    let q = p / mb;
    if (a < 0) != (b < 0) {
        -(q as i128)
    } else {
        q as i128
    }
}

/// Integer square root of an unsigned scalar, by binary search.
pub fn usqrt(x: u128) -> (r: u128)
    requires
        x < 85070591730234615865843651857942052864,
    ensures
        is_isqrt(x as int, r as int),
        r == isqrt(x as int),
{
    let mut lo: u128 = 0;
    let mut hi: u128 = 9223372036854775808;
    while lo + 1 < hi
        invariant
            lo < hi <= 9223372036854775808,
            (lo as int) * (lo as int) <= x,
            x < (hi as int) * (hi as int),
        decreases hi - lo,
    {
        let mid = lo + (hi - lo) / 2;
        assert(lo < mid < hi);
        assert((mid as int) * (mid as int) <= 85070591730234615865843651857942052864)
            by (nonlinear_arith)
            requires
                0 <= mid <= 9223372036854775808,
        ;
        if mid * mid <= x {
            lo = mid;
        } else {
            hi = mid;
        }
    }
    proof {
        assert(hi == lo + 1);
        assert(is_isqrt(x as int, lo as int));
        lemma_isqrt_exists(x as int);
        lemma_isqrt_unique(x as int, lo as int, isqrt(x as int));
    }
    lo
}

/// Square root of a nonnegative fixed-point scalar.
pub fn sqrt_fixed(a: i128) -> (r: i128)
    requires
        0 <= a <= FX_SQRT_MAX,
    ensures
        r == fx_sqrt(a as int),
        0 <= r <= 9223372036854775807,
        is_isqrt((a as int) * (ONE as int), r as int),
{
    proof {
        lemma_mul_nonnegative(a as int, ONE as int);
        assert((a as int) * (ONE as int) < 85070591730234615865843651857942052864)
            by (nonlinear_arith)
            requires
                0 <= a <= FX_SQRT_MAX,
        ;
    }
    let p = (a as u128) * ONE_U;
    let r = usqrt(p);
    proof {
        assert((r as int) * (r as int) <= p);
        assert(9223372036854775807 < r ==> (r as int) * (r as int) > p) by (nonlinear_arith)
            requires
                p < 85070591730234615865843651857942052864,
        ;
    }
    r as i128
}

} // verus!
