//! Rays: an origin, a direction, and parametric point evaluation.

use vstd::prelude::*;

use crate::fx::mul_ok;
use crate::vec3::{bounded, lemma_scale_bound, vadd, vscale, Vec3, V3, GEOM_LIM};

verus! {

/// Largest ray parameter magnitude accepted by point evaluation; it also
/// serves as the stand-in for an unbounded search interval.
pub const T_LIM: i64 = 0x4000_0000;

/// Mathematical model of a ray.
pub ghost struct RayV {
    pub origin: V3,
    pub dir: V3,
}

/// A ray: origin plus direction, the direction not necessarily unit length.
#[derive(Clone, Copy, PartialEq, Eq, Structural, Debug)]
pub struct Ray {
    origin: Vec3,
    dir: Vec3,
}

impl View for Ray {
    type V = RayV;

    closed spec fn view(&self) -> RayV {
        RayV { origin: self.origin@, dir: self.dir@ }
    }
}

/// The point reached after travelling `t` along the ray.
pub open spec fn point_at_s(r: RayV, t: int) -> V3 {
    vadd(r.origin, vscale(r.dir, t))
}

/// A ray whose components are small enough for the intersection arithmetic.
pub open spec fn ray_wf(r: RayV) -> bool {
    bounded(r.origin, GEOM_LIM as int) && bounded(r.dir, GEOM_LIM as int)
}

impl Ray {
    /// Builds a ray from origin and direction.
    pub fn new(origin: Vec3, dir: Vec3) -> (r: Ray)
        ensures
            r@ == (RayV { origin: origin@, dir: dir@ }),
    {
        Ray { origin, dir }
    }

    /// The ray's direction.
    pub fn get_dir(&self) -> (d: Vec3)
        ensures
            d@ == self@.dir,
    {
        self.dir
    }

    /// The ray's origin.
    pub fn get_origin(&self) -> (o: Vec3)
        ensures
            o@ == self@.origin,
    {
        self.origin
    }

    /// The point reached after travelling `t` along the ray.
    pub fn point_at_parameter(&self, t: i64) -> (p: Vec3)
        requires
            ray_wf(self@),
            -(T_LIM as int) <= t as int <= T_LIM as int,
        ensures
            p@ == point_at_s(self@, t as int),
    {
        proof {
            lemma_scale_bound(self@.dir, t as int, GEOM_LIM as int, T_LIM as int, 0x80_0000_0000);
        }
        self.origin.add(self.dir.scale(t))
    }
}

} // verus!
