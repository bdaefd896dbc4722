//! Sphere intersection: the hit record, the intersection capability, and the
//! quadratic-root hit test with its exact contract.

use vstd::prelude::*;

use crate::fx::{
    abs_i, fdiv, fdiv_s, fmul, fmul_s, fsqrt, fsqrt_s, lemma_sqrt_exists, lemma_sqrt_unique,
    mul_ok, ONE,
};
use crate::material::{mat_wf, Material};
use crate::ray::{point_at_s, ray_wf, Ray, RayV, T_LIM};
use crate::vec3::{
    bounded, dot_ok, dot_s, lemma_dot_bound, lemma_fmul_abs, lemma_sqr_magn_nonneg,
    lemma_sqrt_below, vdiv_scalar, vsub, Vec3, V3, GEOM_LIM,
};

verus! {

/// Mathematical model of a hit record.
pub ghost struct HitV {
    pub t: int,
    pub point: V3,
    pub normal: V3,
    pub material: Material,
}

/// The result of a successful intersection test: ray parameter, world-space
/// point, outward normal, and a copy of the surface material.
#[derive(Clone, Copy, PartialEq, Eq, Structural, Debug)]
pub struct HitInfo {
    pub hit_param: i64,
    pub hit_point: Vec3,
    pub normal: Vec3,
    pub material: Material,
}

impl View for HitInfo {
    type V = HitV;

    open spec fn view(&self) -> HitV {
        HitV {
            t: self.hit_param as int,
            point: self.hit_point@,
            normal: self.normal@,
            material: self.material,
        }
    }
}

impl HitInfo {
    /// A placeholder record: zero parameter and vectors, and a dull metal
    /// surface.
    pub fn new() -> (r: HitInfo)
        ensures
            r@.t == 0,
            r@.point == (V3 { x: 0, y: 0, z: 0 }),
            r@.normal == (V3 { x: 0, y: 0, z: 0 }),
            r@.material == (Material::Metal { albedo: Vec3(0, 0, 0), fuzziness: ONE }),
    {
        HitInfo {
            hit_param: 0,
            hit_point: Vec3::zero(),
            normal: Vec3::zero(),
            material: Material::new(Vec3::zero(), true, false, false, ONE, 98304),
        }
    }
}

/// A ray parameter within the representable search band.
pub open spec fn t_ok(t: int) -> bool {
    -(T_LIM as int) <= t <= T_LIM as int
}

/// The capability of being intersected by a ray: the executable test must
/// agree with the implementor's own spec-level intersection function.
pub trait Hitable: Sized {
    /// The implementor's well-formedness condition.
    spec fn wf(&self) -> bool;

    /// What the intersection test returns, as a mathematical function.
    spec fn hit_spec(&self, ray: RayV, t_min: int, t_max: int) -> Option<HitV>;

    /// The intersection test: the nearest crossing strictly inside
    /// `(t_min, t_max)`, if any.
    fn hit(&self, ray: &Ray, t_min: i64, t_max: i64) -> (r: Option<HitInfo>)
        requires
            self.wf(),
            ray_wf(ray@),
            t_ok(t_min as int),
            t_ok(t_max as int),
        ensures
            (r is Some) == (self.hit_spec(ray@, t_min as int, t_max as int) is Some),
            r matches Some(h) ==> self.hit_spec(ray@, t_min as int, t_max as int) == Some(h@)
                && (t_min as int) < h@.t < (t_max as int),
    ;
}

/// Mathematical model of a sphere.
pub ghost struct SphereV {
    pub center: V3,
    pub radius: int,
    pub material: Material,
}

/// Scene geometry: center, nonzero radius, material.
#[derive(Clone, Copy, PartialEq, Eq, Structural, Debug)]
pub struct Sphere {
    center: Vec3,
    radius: i64,
    material: Material,
}

impl View for Sphere {
    type V = SphereV;

    closed spec fn view(&self) -> SphereV {
        SphereV { center: self.center@, radius: self.radius as int, material: self.material }
    }
}

/// A sphere whose geometry is in range and whose material is valid.
pub open spec fn sphere_wf(s: SphereV) -> bool {
    bounded(s.center, GEOM_LIM as int) && 1 <= abs_i(s.radius) <= GEOM_LIM as int && mat_wf(
        s.material,
    )
}

/// The quadratic coefficient `a = dir . dir`.
pub open spec fn quad_a_s(ray: RayV) -> int {
    dot_s(ray.dir, ray.dir)
}

/// The quadratic coefficient `b = 2 (origin - center) . dir`.
pub open spec fn quad_b_s(c: V3, ray: RayV) -> int {
    2 * dot_s(vsub(ray.origin, c), ray.dir)
}

/// The quadratic coefficient `c = |origin - center|^2 - radius^2`.
pub open spec fn quad_c_s(c: V3, rad: int, ray: RayV) -> int {
    dot_s(vsub(ray.origin, c), vsub(ray.origin, c)) - fmul_s(rad, rad)
}

/// The discriminant `b^2 - 4 a c` of the intersection quadratic.
pub open spec fn disc_s(c: V3, rad: int, ray: RayV) -> int {
    fmul_s(quad_b_s(c, ray), quad_b_s(c, ray)) - 4 * fmul_s(quad_a_s(ray), quad_c_s(c, rad, ray))
}

/// The nearer root of the intersection quadratic.
pub open spec fn root_near_s(c: V3, rad: int, ray: RayV) -> int {
    fdiv_s(-quad_b_s(c, ray) - fsqrt_s(disc_s(c, rad, ray)), 2 * quad_a_s(ray))
}

/// The farther root of the intersection quadratic.
pub open spec fn root_far_s(c: V3, rad: int, ray: RayV) -> int {
    fdiv_s(-quad_b_s(c, ray) + fsqrt_s(disc_s(c, rad, ray)), 2 * quad_a_s(ray))
}

/// The record produced for a hit of the sphere at parameter `t`.
pub open spec fn mk_hit_s(s: SphereV, ray: RayV, t: int) -> HitV {
    let p = point_at_s(ray, t);
    HitV {
        t,
        point: p,
        normal: vdiv_scalar(vsub(p, s.center), s.radius),
        material: s.material,
    }
}

/// The sphere intersection function: the nearer root is preferred, and a
/// root counts only strictly inside `(t_min, t_max)`.
pub open spec fn sphere_hit_spec(s: SphereV, ray: RayV, t_min: int, t_max: int) -> Option<HitV> {
    let disc = disc_s(s.center, s.radius, ray);
    if disc > 0 && quad_a_s(ray) != 0 {
        let t1 = root_near_s(s.center, s.radius, ray);
        if t_min < t1 < t_max {
            Some(mk_hit_s(s, ray, t1))
        } else {
            let t2 = root_far_s(s.center, s.radius, ray);
            if t_min < t2 < t_max {
                Some(mk_hit_s(s, ray, t2))
            } else {
                None
            }
        }
    } else {
        None
    }
}

/// Bounds for every intermediate value of the intersection quadratic.
proof fn lemma_quad_bounds(c: V3, rad: int, ray: RayV)
    requires
        bounded(c, GEOM_LIM as int),
        abs_i(rad) <= GEOM_LIM as int,
        ray_wf(ray),
    ensures
        dot_ok(ray.dir, ray.dir),
        dot_ok(vsub(ray.origin, c), ray.dir),
        dot_ok(vsub(ray.origin, c), vsub(ray.origin, c)),
        mul_ok(rad, rad),
        0 <= quad_a_s(ray) <= 0xc_0000_0000,
        abs_i(quad_b_s(c, ray)) <= 0x30_0000_0000,
        abs_i(quad_c_s(c, rad, ray)) <= 0x34_0000_0000,
        mul_ok(quad_b_s(c, ray), quad_b_s(c, ray)),
        mul_ok(quad_a_s(ray), quad_c_s(c, rad, ray)),
        abs_i(disc_s(c, rad, ray)) <= 0x12c0_0000_0000_0000,
{
    let g = GEOM_LIM as int;
    let oc = vsub(ray.origin, c);
    lemma_dot_bound(ray.dir, ray.dir, g, g, 0x4_0000_0000);
    lemma_sqr_magn_nonneg(ray.dir);
    assert(bounded(oc, 2 * g));
    lemma_dot_bound(oc, ray.dir, 2 * g, g, 0x8_0000_0000);
    lemma_dot_bound(oc, oc, 2 * g, 2 * g, 0x10_0000_0000);
    lemma_fmul_abs(rad, rad, g, g, 0x4_0000_0000);
    let b = quad_b_s(c, ray);
    let qc = quad_c_s(c, rad, ray);
    let a = quad_a_s(ray);
    lemma_fmul_abs(b, b, 0x30_0000_0000, 0x30_0000_0000, 0x900_0000_0000_0000);
    lemma_fmul_abs(a, qc, 0xc_0000_0000, 0x34_0000_0000, 0x270_0000_0000_0000);
}

/// The square root of the discriminant stays below 2^39.
proof fn lemma_disc_root_bound(d: int)
    requires
        0 <= d <= 0x12c0_0000_0000_0000,
    ensures
        0 <= fsqrt_s(d) < 0x80_0000_0000,
{
    assert(d * (ONE as int) < 0x80_0000_0000 * 0x80_0000_0000) by (nonlinear_arith)
        requires
            0 <= d <= 0x12c0_0000_0000_0000,
    ;
    assert(d * (ONE as int) >= 0) by (nonlinear_arith)
        requires
            0 <= d,
    ;
    lemma_sqrt_below(d * (ONE as int), 0x80_0000_0000);
}

impl Sphere {
    /// Builds a sphere; the radius must be nonzero, and everything must be
    /// in the representable range.
    pub fn new(material: Material, center: Vec3, radius: i64) -> (r: Sphere)
        requires
            bounded(center@, GEOM_LIM as int),
            1 <= abs_i(radius as int) <= GEOM_LIM as int,
            mat_wf(material),
        ensures
            r@ == (SphereV { center: center@, radius: radius as int, material }),
            sphere_wf(r@),
    {
        Sphere { material, center, radius }
    }

    /// A copy of the sphere's material.
    pub fn get_material(&self) -> (m: Material)
        ensures
            m == self@.material,
    {
        self.material
    }

    /// The unit sphere at the origin with the given material.
    pub fn unit_from_origin(material: Material) -> (r: Sphere)
        requires
            mat_wf(material),
        ensures
            r@ == (SphereV { center: V3 { x: 0, y: 0, z: 0 }, radius: ONE as int, material }),
            sphere_wf(r@),
    {
        Sphere { material, center: Vec3::zero(), radius: ONE }
    }

    /// A unit sphere at the given center.
    pub fn unit_from_point(center: Vec3, material: Material) -> (r: Sphere)
        requires
            bounded(center@, GEOM_LIM as int),
            mat_wf(material),
        ensures
            r@ == (SphereV { center: center@, radius: ONE as int, material }),
            sphere_wf(r@),
    {
        Sphere { material, center, radius: ONE }
    }

    /// Assembles the hit record for parameter `t`.
    fn make_hit(&self, ray: &Ray, t: i64) -> (r: HitInfo)
        requires
            sphere_wf(self@),
            ray_wf(ray@),
            t_ok(t as int),
        ensures
            r@ == mk_hit_s(self@, ray@, t as int),
    {
        proof {
            crate::vec3::lemma_scale_bound(
                ray@.dir,
                t as int,
                GEOM_LIM as int,
                T_LIM as int,
                0x80_0000_0000,
            );
        }
        let p: Vec3 = ray.point_at_parameter(t);
        HitInfo {
            hit_param: t,
            hit_point: p,
            normal: p.sub(self.center).div_scalar(self.radius),
            material: self.material,
        }
    }
}

impl Hitable for Sphere {
    open spec fn wf(&self) -> bool {
        sphere_wf(self@)
    }

    open spec fn hit_spec(&self, ray: RayV, t_min: int, t_max: int) -> Option<HitV> {
        sphere_hit_spec(self@, ray, t_min, t_max)
    }

    fn hit(&self, ray: &Ray, t_min: i64, t_max: i64) -> (r: Option<HitInfo>) {
        proof {
            lemma_quad_bounds(self@.center, self@.radius, ray@);
        }
        let oc: Vec3 = ray.get_origin().sub(self.center);
        let a: i64 = Vec3::dot(ray.get_dir(), ray.get_dir());
        let b: i64 = 2 * Vec3::dot(oc, ray.get_dir());
        let c: i64 = Vec3::dot(oc, oc) - fmul(self.radius, self.radius);
        let disc: i64 = fmul(b, b) - 4 * fmul(a, c);
        if disc > 0 && a != 0 {
            proof {
                lemma_disc_root_bound(disc as int);
            }
            let sq: i64 = fsqrt(disc);
            let t1: i64 = fdiv(0 - b - sq, 2 * a);
            if t_min < t1 && t1 < t_max {
                Some(self.make_hit(ray, t1))
            } else {
                let t2: i64 = fdiv(0 - b + sq, 2 * a);
                if t_min < t2 && t2 < t_max {
                    Some(self.make_hit(ray, t2))
                } else {
                    None
                }
            }
        } else {
            None
        }
    }
}

/// The nearer root never exceeds the farther root.
pub proof fn lemma_sphere_root_order(c: V3, rad: int, ray: RayV)
    requires
        0 < disc_s(c, rad, ray),
        1 <= quad_a_s(ray),
    ensures
        root_near_s(c, rad, ray) <= root_far_s(c, rad, ray),
        0 <= fsqrt_s(disc_s(c, rad, ray)),
{
    let d = disc_s(c, rad, ray);
    let n = d * (ONE as int);
    assert(0 <= n) by (nonlinear_arith)
        requires
            0 < d,
            n == d * 65536,
    ;
    let w = lemma_sqrt_exists(n);
    lemma_sqrt_unique(n, w);
    let sq = fsqrt_s(d);
    assert(0 <= sq);
    let b = quad_b_s(c, ray);
    crate::fx::lemma_tdiv_mono(
        (-b - sq) * (ONE as int),
        (-b + sq) * (ONE as int),
        2 * quad_a_s(ray),
    );
    assert((-b - sq) * (ONE as int) <= (-b + sq) * (ONE as int)) by (nonlinear_arith)
        requires
            0 <= sq,
    ;
}

/// Law: a hit found in a wide band survives a shrink of the band's upper
/// end, as long as the shrink stays above the hit.
pub proof fn lemma_sphere_shrink_keep(
    s: SphereV,
    ray: RayV,
    t_min: int,
    t_max: int,
    cc: int,
    h: HitV,
)
    requires
        sphere_hit_spec(s, ray, t_min, t_max) == Some(h),
        h.t < cc,
        cc <= t_max,
    ensures
        sphere_hit_spec(s, ray, t_min, cc) == Some(h),
{
    lemma_sqr_magn_nonneg(ray.dir);
    let t1 = root_near_s(s.center, s.radius, ray);
    let t2 = root_far_s(s.center, s.radius, ray);
    lemma_sphere_root_order(s.center, s.radius, ray);
    if t_min < t1 < t_max {
        assert(h.t == t1);
    } else {
        assert(h.t == t2);
        assert(t1 <= t_min);
    }
}

/// Law: a hit found in a narrow band is exactly what the wide band finds.
pub proof fn lemma_sphere_shrink_back(
    s: SphereV,
    ray: RayV,
    t_min: int,
    t_max: int,
    cc: int,
    h: HitV,
)
    requires
        sphere_hit_spec(s, ray, t_min, cc) == Some(h),
        cc <= t_max,
    ensures
        sphere_hit_spec(s, ray, t_min, t_max) == Some(h),
{
    lemma_sqr_magn_nonneg(ray.dir);
    let t1 = root_near_s(s.center, s.radius, ray);
    let t2 = root_far_s(s.center, s.radius, ray);
    lemma_sphere_root_order(s.center, s.radius, ray);
    if t_min < t1 < cc {
        assert(h.t == t1);
    } else {
        assert(h.t == t2);
        assert(t1 <= t_min);
    }
}

/// Law: when the search band excludes both roots of the quadratic — or when
/// the discriminant offers no root at all — the sphere reports no hit.
pub proof fn lemma_sphere_hit_excluded(s: SphereV, ray: RayV, t_min: int, t_max: int)
    requires
        disc_s(s.center, s.radius, ray) <= 0 || !(t_min < root_near_s(s.center, s.radius, ray)
            < t_max) && !(t_min < root_far_s(s.center, s.radius, ray) < t_max),
    ensures
        sphere_hit_spec(s, ray, t_min, t_max) is None,
{
}

/// Law: a hit record reports the point reached along the ray at the hit
/// parameter, and the normal is the offset from the center scaled by the
/// inverse radius.
pub proof fn lemma_sphere_hit_record(s: SphereV, ray: RayV, t_min: int, t_max: int, h: HitV)
    requires
        sphere_hit_spec(s, ray, t_min, t_max) == Some(h),
    ensures
        h.point == point_at_s(ray, h.t),
        h.normal == vdiv_scalar(vsub(h.point, s.center), s.radius),
        h.material == s.material,
        t_min < h.t < t_max,
{
}

/// A standalone near-root query: the nearer crossing parameter of a ray
/// and a sphere, or minus one when the discriminant is negative.
pub open spec fn hit_sphere_s(c: V3, rad: int, ray: RayV) -> int {
    if disc_s(c, rad, ray) < 0 {
        -(ONE as int)
    } else {
        root_near_s(c, rad, ray)
    }
}

/// The nearer crossing parameter of a ray and a sphere, or minus one when
/// the ray misses; the ray direction must be nonzero in the fixed-point
/// sense, as the root is divided by it.
pub fn hit_sphere(center: Vec3, radius: i64, ray: &Ray) -> (t: i64)
    requires
        bounded(center@, GEOM_LIM as int),
        abs_i(radius as int) <= GEOM_LIM as int,
        ray_wf(ray@),
        1 <= quad_a_s(ray@),
    ensures
        t as int == hit_sphere_s(center@, radius as int, ray@),
{
    proof {
        lemma_quad_bounds(center@, radius as int, ray@);
    }
    let oc: Vec3 = ray.get_origin().sub(center);
    let a: i64 = Vec3::dot(ray.get_dir(), ray.get_dir());
    let b: i64 = 2 * Vec3::dot(oc, ray.get_dir());
    let c: i64 = Vec3::dot(oc, oc) - fmul(radius, radius);
    let disc: i64 = fmul(b, b) - 4 * fmul(a, c);
    if disc < 0 {
        -ONE
    } else {
        proof {
            lemma_disc_root_bound(disc as int);
        }
        let sq: i64 = fsqrt(disc);
        fdiv(0 - b - sq, 2 * a)
    }
}

} // verus!
