//! The pinhole camera: an axis-aligned image-plane rectangle in world space.

use vstd::prelude::*;

use crate::fx::ONE;
use crate::ray::{Ray, RayV};
use crate::vec3::{bounded, lemma_scale_bound, vadd, vscale, vsub, Vec3, V3, GEOM_LIM};

verus! {

/// Mathematical model of a camera.
pub ghost struct CameraV {
    pub origin: V3,
    pub lower_left_corner: V3,
    pub horizontal: V3,
    pub vertical: V3,
}

/// A fixed camera at the origin looking down the negative `z` axis, with a
/// 2:1 image plane at distance one.
pub struct Camera {
    origin: Vec3,
    lower_left_corner: Vec3,
    horizontal: Vec3,
    vertical: Vec3,
}

impl View for Camera {
    type V = CameraV;

    closed spec fn view(&self) -> CameraV {
        CameraV {
            origin: self.origin@,
            lower_left_corner: self.lower_left_corner@,
            horizontal: self.horizontal@,
            vertical: self.vertical@,
        }
    }
}

/// A camera whose spanning vectors are in the representable range.
pub open spec fn camera_wf(c: CameraV) -> bool {
    bounded(c.origin, GEOM_LIM as int) && bounded(c.lower_left_corner, GEOM_LIM as int) && bounded(
        c.horizontal,
        GEOM_LIM as int,
    ) && bounded(c.vertical, GEOM_LIM as int)
}

/// The ray through image-plane coordinates `(u, v)`.
pub open spec fn get_ray_s(c: CameraV, u: int, v: int) -> RayV {
    RayV {
        origin: c.origin,
        dir: vsub(
            vadd(vadd(c.lower_left_corner, vscale(c.horizontal, u)), vscale(c.vertical, v)),
            c.origin,
        ),
    }
}

impl Camera {
    /// The standard camera: origin at zero, image plane from `(-2, -1, -1)`
    /// spanned by `(4, 0, 0)` and `(0, 2, 0)`.
    pub fn new() -> (r: Camera)
        ensures
            r@ == (CameraV {
                origin: V3 { x: 0, y: 0, z: 0 },
                lower_left_corner: V3 { x: -2 * ONE as int, y: -(ONE as int), z: -(ONE as int) },
                horizontal: V3 { x: 4 * ONE as int, y: 0, z: 0 },
                vertical: V3 { x: 0, y: 2 * ONE as int, z: 0 },
            }),
            camera_wf(r@),
    {
        Camera {
            lower_left_corner: Vec3(-2 * ONE, -ONE, -ONE),
            horizontal: Vec3(4 * ONE, 0, 0),
            vertical: Vec3(0, 2 * ONE, 0),
            origin: Vec3(0, 0, 0),
        }
    }

    /// The ray through image-plane coordinates `(u, v)`, each in `[0, 1]`.
    pub fn get_ray(&self, u: i64, v: i64) -> (r: Ray)
        requires
            camera_wf(self@),
            0 <= u as int <= ONE as int,
            0 <= v as int <= ONE as int,
        ensures
            r@ == get_ray_s(self@, u as int, v as int),
    {
        proof {
            lemma_scale_bound(
                self@.horizontal,
                u as int,
                GEOM_LIM as int,
                ONE as int,
                GEOM_LIM as int,
            );
            lemma_scale_bound(
                self@.vertical,
                v as int,
                GEOM_LIM as int,
                ONE as int,
                GEOM_LIM as int,
            );
        }
        Ray::new(
            self.origin,
            self.lower_left_corner.add(self.horizontal.scale(u)).add(self.vertical.scale(v)).sub(
                self.origin,
            ),
        )
    }
}

} // verus!
