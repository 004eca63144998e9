//! The thin-lens camera: an orthonormal viewing basis and viewport geometry
//! derived once from extrinsic parameters, and a ray per normalized screen
//! coordinate, with an optional finite aperture for depth of field.

use crate::fix::{
    div_fixed, fx_div, fx_mul, lemma_fx_div_bound, lemma_fx_mul_bound, lemma_fx_mul_zero,
    mul_fixed, ONE,
};
use crate::ray::{Ray, RayV};
use crate::util::{degrees_to_radians, sdeg2rad, stan, tan_fixed, HALF_TURN_FX, PI_FX, TAN_MAX};
use crate::vec::{
    cross, random_in_unit_disk, sadd, scross, sdivs, slsq, sscale, ssub, sunit, unit_vector,
    v_fits, Point3, Vec3, TWO_ONE, V3,
};
use vstd::arithmetic::div_mod::{lemma_div_multiples_vanish, lemma_div_pos_is_pos};
use vstd::arithmetic::mul::lemma_mul_nonnegative;
use vstd::prelude::*;

verus! {

/// Largest magnitude a camera parameter may carry (2^48, 65536 whole units).
pub const CAM_MAX: i128 = 281474976710656;

/// Bound on the viewport span vectors' components (2^84).
pub const SPAN_MAX: i128 = 19342813113834066795298816;

/// Bound on the lower-left corner's components (2^86).
pub const CORNER_MAX: i128 = 77371252455336267181195264;

/// Largest magnitude of a screen coordinate (2^38, 64 whole units).
pub const SCREEN_MAX: i128 = 274877906944;

/// The camera's backward axis: from the target toward the eye.
pub open spec fn scam_w(from: V3, lookat: V3) -> V3 {
    sunit(ssub(from, lookat))
}

/// The camera's right axis.
pub open spec fn scam_u(from: V3, lookat: V3, vup: V3) -> V3 {
    sunit(scross(vup, scam_w(from, lookat)))
}

/// The camera's up axis.
pub open spec fn scam_v(from: V3, lookat: V3, vup: V3) -> V3 {
    scross(scam_w(from, lookat), scam_u(from, lookat, vup))
}

/// Viewport height for a vertical field of view given in degrees.
pub open spec fn svp_h(vfov: int) -> int {
    2 * stan(fx_div(sdeg2rad(vfov), 2 * (ONE as int)))
}

/// Viewport width: the height scaled by the aspect ratio.
pub open spec fn svp_w(vfov: int, aspect: int) -> int {
    fx_mul(aspect, svp_h(vfov))
}

/// An immutable, precomputed geometric frame, read-only once constructed.
pub struct Camera {
    pub origin: Point3,
    pub lower_left_corner: Point3,
    pub horizontal: Vec3,
    pub vertical: Vec3,
    pub u: Vec3,
    pub v: Vec3,
    pub lens_radius: i128,
}

/// Lens offset for a disk sample `d`: the sample scaled by the lens radius
/// and projected onto the camera's right and up axes.
pub open spec fn soffset(cam: &Camera, d: V3) -> V3 {
    sadd(
        sscale(cam.u@, fx_mul(d.x, cam.lens_radius as int)),
        sscale(cam.v@, fx_mul(d.y, cam.lens_radius as int)),
    )
}

/// The ray emitted for screen coordinates `(s, t)` and lens sample `d`: it
/// starts at the sampled lens position and points at the focus-plane
/// viewport point.
pub open spec fn sray(cam: &Camera, s: int, t: int, d: V3) -> RayV {
    let off = soffset(cam, d);
    RayV {
        orig: sadd(cam.origin@, off),
        dir: ssub(
            ssub(
                sadd(
                    sadd(cam.lower_left_corner@, sscale(cam.horizontal@, s)),
                    sscale(cam.vertical@, t),
                ),
                cam.origin@,
            ),
            off,
        ),
    }
}

impl Camera {
    /// The bounds every constructed camera keeps, and `get_ray` relies on.
    pub open spec fn wf(&self) -> bool {
        &&& v_fits(self.origin@, CAM_MAX as int)
        &&& v_fits(self.u@, TWO_ONE as int)
        &&& v_fits(self.v@, 34359738368)
        &&& v_fits(self.horizontal@, SPAN_MAX as int)
        &&& v_fits(self.vertical@, SPAN_MAX as int)
        &&& v_fits(self.lower_left_corner@, CORNER_MAX as int)
        &&& 0 <= self.lens_radius <= CAM_MAX
    }

    /// Derive the frame from the extrinsic parameters: field of view and
    /// aspect ratio fix the viewport, Gram-Schmidt on the view direction and
    /// the up hint gives the basis, and the focus distance scales the
    /// viewport so the focus plane is sharp. A configuration whose up hint
    /// is parallel to the view direction has no basis; the two positivity
    /// preconditions state that caller responsibility.
    pub fn new(
        from: Point3,
        lookat: Point3,
        vup: Vec3,
        vfov: i128,
        aspect_ratio: i128,
        aperture: i128,
        focus_dist: i128,
    ) -> (r: Camera)
        requires
            v_fits(from@, CAM_MAX as int),
            v_fits(lookat@, CAM_MAX as int),
            v_fits(vup@, CAM_MAX as int),
            0 < vfov < HALF_TURN_FX,
            0 < aspect_ratio <= CAM_MAX,
            0 <= aperture <= CAM_MAX,
            0 <= focus_dist <= CAM_MAX,
            slsq(ssub(from@, lookat@)) > 0,
            slsq(scross(vup@, scam_w(from@, lookat@))) > 0,
        ensures
            r.origin == from,
            r.u@ == scam_u(from@, lookat@, vup@),
            r.v@ == scam_v(from@, lookat@, vup@),
            r.horizontal@ == sscale(
                scam_u(from@, lookat@, vup@),
                fx_mul(focus_dist as int, svp_w(vfov as int, aspect_ratio as int)),
            ),
            r.vertical@ == sscale(
                scam_v(from@, lookat@, vup@),
                fx_mul(focus_dist as int, svp_h(vfov as int)),
            ),
            r.lower_left_corner@ == ssub(
                ssub(
                    ssub(from@, sdivs(r.horizontal@, 2 * (ONE as int))),
                    sdivs(r.vertical@, 2 * (ONE as int)),
                ),
                sscale(scam_w(from@, lookat@), focus_dist as int),
            ),
            r.lens_radius == fx_div(aperture as int, 2 * (ONE as int)),
            r.wf(),
    {
        let theta = degrees_to_radians(vfov);
        proof {
            lemma_fx_div_bound(theta as int, TWO_ONE as int, PI_FX as int);
            assert(((PI_FX as int) * (ONE as int)) / (TWO_ONE as int) == 6746518852) by {
                assert((PI_FX as int) * (ONE as int) == (TWO_ONE as int) * 6746518852)
                    by (nonlinear_arith);
                lemma_div_multiples_vanish(6746518852, TWO_ONE as int);
            }
        }
        let half_theta = div_fixed(theta, TWO_ONE);
        let h = tan_fixed(half_theta);
        let viewport_height = 2 * h;
        proof {
            lemma_fx_mul_bound(
                aspect_ratio as int,
                viewport_height as int,
                CAM_MAX as int,
                2 * (TAN_MAX as int),
            );
            assert(((CAM_MAX as int) * (2 * (TAN_MAX as int))) / (ONE as int)
                == 36893488147419103232) by {
                assert((CAM_MAX as int) * (2 * (TAN_MAX as int)) == (ONE as int)
                    * 36893488147419103232) by (nonlinear_arith);
                lemma_div_multiples_vanish(36893488147419103232, ONE as int);
            }
        }
        let viewport_width = mul_fixed(aspect_ratio, viewport_height);
        proof {
            lemma_fx_mul_bound(
                focus_dist as int,
                viewport_width as int,
                CAM_MAX as int,
                36893488147419103232,
            );
            lemma_fx_mul_bound(
                focus_dist as int,
                viewport_height as int,
                CAM_MAX as int,
                2 * (TAN_MAX as int),
            );
        }
        let span_h = mul_fixed(focus_dist, viewport_width);
        let span_v = mul_fixed(focus_dist, viewport_height);

        let w = unit_vector(from.minus(lookat));
        proof {
            lemma_fx_mul_bound(vup@.y, w@.z, CAM_MAX as int, TWO_ONE as int);
            lemma_fx_mul_bound(vup@.z, w@.y, CAM_MAX as int, TWO_ONE as int);
            lemma_fx_mul_bound(vup@.z, w@.x, CAM_MAX as int, TWO_ONE as int);
            lemma_fx_mul_bound(vup@.x, w@.z, CAM_MAX as int, TWO_ONE as int);
            lemma_fx_mul_bound(vup@.x, w@.y, CAM_MAX as int, TWO_ONE as int);
            lemma_fx_mul_bound(vup@.y, w@.x, CAM_MAX as int, TWO_ONE as int);
        }
        let uv_cross = cross(vup, w);
        let u = unit_vector(uv_cross);
        let v = cross(w, u);
        proof {
            lemma_fx_mul_bound(w@.y, u@.z, TWO_ONE as int, TWO_ONE as int);
            lemma_fx_mul_bound(w@.z, u@.y, TWO_ONE as int, TWO_ONE as int);
            lemma_fx_mul_bound(w@.z, u@.x, TWO_ONE as int, TWO_ONE as int);
            lemma_fx_mul_bound(w@.x, u@.z, TWO_ONE as int, TWO_ONE as int);
            lemma_fx_mul_bound(w@.x, u@.y, TWO_ONE as int, TWO_ONE as int);
            lemma_fx_mul_bound(w@.y, u@.x, TWO_ONE as int, TWO_ONE as int);
            lemma_fx_mul_bound(u@.x, span_h as int, TWO_ONE as int, 2417851639229258349412352);
            lemma_fx_mul_bound(u@.y, span_h as int, TWO_ONE as int, 2417851639229258349412352);
            lemma_fx_mul_bound(u@.z, span_h as int, TWO_ONE as int, 2417851639229258349412352);
            lemma_fx_mul_bound(v@.x, span_v as int, 34359738368, 36893488147419103232);
            lemma_fx_mul_bound(v@.y, span_v as int, 34359738368, 36893488147419103232);
            lemma_fx_mul_bound(v@.z, span_v as int, 34359738368, 36893488147419103232);
        }
        let horizontal = u.scale(span_h);
        let vertical = v.scale(span_v);
        proof {
            lemma_fx_div_bound(horizontal@.x, TWO_ONE as int, SPAN_MAX as int);
            lemma_fx_div_bound(horizontal@.y, TWO_ONE as int, SPAN_MAX as int);
            lemma_fx_div_bound(horizontal@.z, TWO_ONE as int, SPAN_MAX as int);
            lemma_fx_div_bound(vertical@.x, TWO_ONE as int, SPAN_MAX as int);
            lemma_fx_div_bound(vertical@.y, TWO_ONE as int, SPAN_MAX as int);
            lemma_fx_div_bound(vertical@.z, TWO_ONE as int, SPAN_MAX as int);
            assert(((SPAN_MAX as int) * (ONE as int)) / (TWO_ONE as int)
                == 9671406556917033397649408) by {
                assert((SPAN_MAX as int) * (ONE as int) == (TWO_ONE as int)
                    * 9671406556917033397649408) by (nonlinear_arith);
                lemma_div_multiples_vanish(9671406556917033397649408, TWO_ONE as int);
            }
            lemma_fx_mul_bound(w@.x, focus_dist as int, TWO_ONE as int, CAM_MAX as int);
            lemma_fx_mul_bound(w@.y, focus_dist as int, TWO_ONE as int, CAM_MAX as int);
            lemma_fx_mul_bound(w@.z, focus_dist as int, TWO_ONE as int, CAM_MAX as int);
        }
        let half_h = horizontal.div_scalar(TWO_ONE);
        let half_v = vertical.div_scalar(TWO_ONE);
        let fw = w.scale(focus_dist);
        let lower_left_corner = from.minus(half_h).minus(half_v).minus(fw);

        proof {
            lemma_fx_div_bound(aperture as int, TWO_ONE as int, CAM_MAX as int);
            assert(((CAM_MAX as int) * (ONE as int)) / (TWO_ONE as int) == 140737488355328) by {
                assert((CAM_MAX as int) * (ONE as int) == (TWO_ONE as int) * 140737488355328)
                    by (nonlinear_arith);
                lemma_div_multiples_vanish(140737488355328, TWO_ONE as int);
            }
            lemma_mul_nonnegative(aperture as int, ONE as int);
            lemma_div_pos_is_pos((aperture as int) * (ONE as int), TWO_ONE as int);
        }
        let lens_radius = div_fixed(aperture, TWO_ONE);

        Camera { origin: from, lower_left_corner, horizontal, vertical, u, v, lens_radius }
    }

    /// The ray for screen coordinates `(s, t)` and an explicitly given lens
    /// sample: the deterministic core of `get_ray`, exact for every sample.
    pub fn ray_with_sample(&self, s: i128, t: i128, d: Vec3) -> (r: Ray)
        requires
            self.wf(),
            -SCREEN_MAX <= s <= SCREEN_MAX,
            -SCREEN_MAX <= t <= SCREEN_MAX,
            v_fits(d@, ONE as int),
        ensures
            r@ == sray(self, s as int, t as int, d@),
    {
        proof {
            lemma_fx_mul_bound(d@.x, self.lens_radius as int, ONE as int, CAM_MAX as int);
            lemma_fx_mul_bound(d@.y, self.lens_radius as int, ONE as int, CAM_MAX as int);
            lemma_fx_mul_bound(d@.z, self.lens_radius as int, ONE as int, CAM_MAX as int);
        }
        let rd = d.scale(self.lens_radius);
        proof {
            lemma_fx_mul_bound(self.u@.x, rd@.x, TWO_ONE as int, 281474976710656);
            lemma_fx_mul_bound(self.u@.y, rd@.x, TWO_ONE as int, 281474976710656);
            lemma_fx_mul_bound(self.u@.z, rd@.x, TWO_ONE as int, 281474976710656);
            lemma_fx_mul_bound(self.v@.x, rd@.y, 34359738368, 281474976710656);
            lemma_fx_mul_bound(self.v@.y, rd@.y, 34359738368, 281474976710656);
            lemma_fx_mul_bound(self.v@.z, rd@.y, 34359738368, 281474976710656);
        }
        let offset = self.u.scale(rd.x).plus(self.v.scale(rd.y));
        proof {
            lemma_fx_mul_bound(self.horizontal@.x, s as int, SPAN_MAX as int, SCREEN_MAX as int);
            lemma_fx_mul_bound(self.horizontal@.y, s as int, SPAN_MAX as int, SCREEN_MAX as int);
            lemma_fx_mul_bound(self.horizontal@.z, s as int, SPAN_MAX as int, SCREEN_MAX as int);
            lemma_fx_mul_bound(self.vertical@.x, t as int, SPAN_MAX as int, SCREEN_MAX as int);
            lemma_fx_mul_bound(self.vertical@.y, t as int, SPAN_MAX as int, SCREEN_MAX as int);
            lemma_fx_mul_bound(self.vertical@.z, t as int, SPAN_MAX as int, SCREEN_MAX as int);
        }
        let dir = self
            .lower_left_corner
            .plus(self.horizontal.scale(s))
            .plus(self.vertical.scale(t))
            .minus(self.origin)
            .minus(offset);
        Ray::new(self.origin.plus(offset), dir)
    }

    /// The ray for screen coordinates `(s, t)`, its origin jittered across
    /// the lens disk. With a zero lens radius the offset vanishes and the
    /// camera is exactly a pinhole: the ray is the same on every call.
    pub fn get_ray(&self, s: i128, t: i128) -> (r: Ray)
        requires
            self.wf(),
            -SCREEN_MAX <= s <= SCREEN_MAX,
            -SCREEN_MAX <= t <= SCREEN_MAX,
        ensures
            exists|d: V3|
                v_fits(d, ONE as int) && 0 <= slsq(d) < ONE && d.z == 0 && r@ == #[trigger] sray(
                    self,
                    s as int,
                    t as int,
                    d,
                ),
            self.lens_radius == 0 ==> r@ == sray(
                self,
                s as int,
                t as int,
                (V3 { x: 0, y: 0, z: 0 }),
            ),
    {
        let p = random_in_unit_disk();
        let r = self.ray_with_sample(s, t, p);
        proof {
            assert(v_fits(p@, ONE as int) && 0 <= slsq(p@) < ONE && p@.z == 0 && r@ == sray(
                self,
                s as int,
                t as int,
                p@,
            ));
            if self.lens_radius == 0 {
                lemma_pinhole_deterministic(self, s as int, t as int, p@, V3 { x: 0, y: 0, z: 0 });
            }
        }
        r
    }
}

/// With a zero lens radius the emitted ray does not depend on the lens
/// sample: any two rays for the same screen coordinates coincide.
pub proof fn lemma_pinhole_deterministic(c: &Camera, s: int, t: int, d1: V3, d2: V3)
    requires
        c.lens_radius == 0,
    ensures
        sray(c, s, t, d1) == sray(c, s, t, d2),
{
    lemma_fx_mul_zero(d1.x);
    lemma_fx_mul_zero(d1.y);
    lemma_fx_mul_zero(d2.x);
    lemma_fx_mul_zero(d2.y);
    lemma_fx_mul_zero(c.u@.x);
    lemma_fx_mul_zero(c.u@.y);
    lemma_fx_mul_zero(c.u@.z);
    lemma_fx_mul_zero(c.v@.x);
    lemma_fx_mul_zero(c.v@.y);
    lemma_fx_mul_zero(c.v@.z);
    assert(soffset(c, d1) == soffset(c, d2));
}

} // verus!
