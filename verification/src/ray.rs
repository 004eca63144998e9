//! A parametric ray: an origin point plus a direction vector, evaluated by
//! `at(t)`. A pure value type with no failure modes.

use crate::fix::FX_PROD_MAX;
use crate::vec::{sadd, sscale, v_fits, Point3, Vec3, ADD_MAX, V3};
use vstd::prelude::*;

verus! {

/// Mathematical model of a ray.
pub ghost struct RayV {
    pub orig: V3,
    pub dir: V3,
}

/// An origin and a direction (not required to be unit length), immutable
/// after construction.
#[derive(Clone, Copy, PartialEq, Eq, Structural, Debug)]
pub struct Ray {
    pub orig: Point3,
    pub dir: Vec3,
}

impl View for Ray {
    type V = RayV;

    open spec fn view(&self) -> RayV {
        RayV { orig: self.orig@, dir: self.dir@ }
    }
}

/// The point `origin + t * direction`.
pub open spec fn sat(r: RayV, t: int) -> V3 {
    sadd(r.orig, sscale(r.dir, t))
}

impl Ray {
    /// Exact construction; no validation.
    pub fn new(origin: Point3, direction: Vec3) -> (r: Ray)
        ensures
            r.orig == origin,
            r.dir == direction,
    {
        Ray { orig: origin, dir: direction }
    }

    /// The ray's origin.
    pub fn origin(&self) -> (r: Point3)
        ensures
            r == self.orig,
    {
        self.orig
    }

    /// The ray's direction.
    pub fn direction(&self) -> (r: Vec3)
        ensures
            r == self.dir,
    {
        self.dir
    }

    /// The ray evaluated at parameter `t`; `t` may carry any sign, callers
    /// impose the valid interval.
    pub fn at(&self, t: i128) -> (r: Point3)
        requires
            v_fits(self.orig@, ADD_MAX as int),
            v_fits(self.dir@, ADD_MAX as int),
            -ADD_MAX <= t <= ADD_MAX,
            -FX_PROD_MAX <= self.dir@.x * t <= FX_PROD_MAX,
            -FX_PROD_MAX <= self.dir@.y * t <= FX_PROD_MAX,
            -FX_PROD_MAX <= self.dir@.z * t <= FX_PROD_MAX,
        ensures
            r@ == sat(self@, t as int),
    {
        self.orig.plus(self.dir.scale(t))
    }
}

} // verus!
