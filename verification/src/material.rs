//! Surface materials: a closed tagged variant over diffuse, metal and
//! dielectric behaviour, and the Schlick reflectance approximation.

use vstd::prelude::*;

use crate::fx::{abs_i, fdiv, fdiv_s, fmul, fmul_s, lemma_tdiv_le, mul_ok, tdiv, ONE};
use crate::hit::{HitInfo, HitV};
use crate::ray::{ray_wf, Ray, RayV};
use crate::rng::{lcg_next_s, lcg_out_s, random_point_in_unit_sphere, sample_scan_s, Prng, SAMPLE_TRIES};
use crate::vec3::{
    bounded, dot_s, lemma_dot_bound, lemma_fmul_abs, lemma_scale_bound, lemma_sq_nonneg,
    lemma_unit_bound, magn_s, reflect_s, refract_s, sqr_magn_s, unit_s, vadd, vneg, vscale, vsub,
    Vec3, V3, GEOM_LIM, UNIT_LIM,
};

verus! {

/// Smallest accepted refraction index, about 0.01.
pub const RI_MIN: i64 = 656;

/// Largest accepted refraction index, 128.
pub const RI_MAX: i64 = 0x80_0000;

/// A surface material: exactly one of the three kinds is active by
/// construction.
#[derive(Clone, Copy, PartialEq, Eq, Structural, Debug)]
pub enum Material {
    /// Lambertian-style diffuse surface with a base color.
    Diffuse { albedo: Vec3 },
    /// Mirror-like surface with a base color and a reflection blur in
    /// `[0, 1]`.
    Metal { albedo: Vec3, fuzziness: i64 },
    /// Clear refracting surface with a positive refraction index.
    Dielectric { refraction_index: i64 },
}

/// A color: every channel lies in `[0, 1]`.
pub open spec fn color_wf(c: V3) -> bool {
    0 <= c.x <= ONE as int && 0 <= c.y <= ONE as int && 0 <= c.z <= ONE as int
}

/// The material invariant: channels in range, blur in `[0, 1]`, refraction
/// index within the representable band.
pub open spec fn mat_wf(m: Material) -> bool {
    match m {
        Material::Diffuse { albedo } => color_wf(albedo@),
        Material::Metal { albedo, fuzziness } => color_wf(albedo@) && 0 <= fuzziness <= ONE as int,
        Material::Dielectric { refraction_index } => RI_MIN as int <= refraction_index
            <= RI_MAX as int,
    }
}

/// Exactly one of the three kind flags is set.
pub open spec fn one_kind(metal: bool, diffuse: bool, dielectric: bool) -> bool {
    (metal && !diffuse && !dielectric) || (!metal && diffuse && !dielectric) || (!metal && !diffuse
        && dielectric)
}

/// The base of the Schlick approximation for a refraction index.
pub open spec fn schlick_r0_s(ri: int) -> int {
    let q = fdiv_s((ONE as int) - ri, (ONE as int) + ri);
    fmul_s(q, q)
}

/// Fifth power in fixed point, squaring twice and multiplying once.
pub open spec fn pow5_s(x: int) -> int {
    let x2 = fmul_s(x, x);
    let x4 = fmul_s(x2, x2);
    fmul_s(x4, x)
}

/// The Schlick reflectance approximation.
pub open spec fn schlick_s(cosine: int, ri: int) -> int {
    let r0 = schlick_r0_s(ri);
    r0 + fmul_s((ONE as int) - r0, pow5_s((ONE as int) - cosine))
}

/// The Schlick base term lies in `[0, 1]` for any accepted refraction index.
pub proof fn lemma_schlick_r0_range(ri: int)
    requires
        RI_MIN as int <= ri <= RI_MAX as int,
    ensures
        0 <= schlick_r0_s(ri) <= ONE as int,
{
    let s = ONE as int;
    let q = fdiv_s(s - ri, s + ri);
    assert(abs_i((s - ri) * s) <= s * abs_i(s + ri)) by (nonlinear_arith)
        requires
            656 <= ri,
            s == 65536,
    ;
    lemma_tdiv_le((s - ri) * s, s + ri, s);
    lemma_sq_nonneg(q);
    lemma_fmul_abs(q, q, s, s, s);
}

/// Fixed-point products of nonnegative values are monotone in both factors
/// and nonnegative.
pub proof fn lemma_fmul_mono_nonneg(a: int, b: int, c: int, d: int)
    requires
        0 <= a <= b,
        0 <= c <= d,
    ensures
        0 <= fmul_s(a, c) <= fmul_s(b, d),
{
    let s = ONE as int;
    assert(0 <= a * c <= b * d) by (nonlinear_arith)
        requires
            0 <= a <= b,
            0 <= c <= d,
    ;
    assert(0 <= tdiv(a * c, s) <= tdiv(b * d, s)) by (nonlinear_arith)
        requires
            0 <= a * c <= b * d,
            s == 65536,
    ;
}

/// Law: the Schlick term grows as the cosine of the incidence angle falls
/// toward zero — grazing rays reflect more.
pub proof fn lemma_schlick_monotone(c1: int, c2: int, ri: int)
    requires
        0 <= c1 <= c2 <= ONE as int,
        RI_MIN as int <= ri <= RI_MAX as int,
    ensures
        schlick_s(c2, ri) <= schlick_s(c1, ri),
{
    let s = ONE as int;
    let r0 = schlick_r0_s(ri);
    lemma_schlick_r0_range(ri);
    let p1 = s - c1;
    let p2 = s - c2;
    assert(0 <= p2 <= p1 <= s);
    lemma_fmul_mono_nonneg(p2, p1, p2, p1);
    lemma_fmul_mono_nonneg(fmul_s(p2, p2), fmul_s(p1, p1), fmul_s(p2, p2), fmul_s(p1, p1));
    lemma_fmul_mono_nonneg(fmul_s(fmul_s(p2, p2), fmul_s(p2, p2)), fmul_s(
        fmul_s(p1, p1),
        fmul_s(p1, p1),
    ), p2, p1);
    assert(0 <= pow5_s(p2) <= pow5_s(p1));
    lemma_fmul_mono_nonneg(s - r0, s - r0, pow5_s(p2), pow5_s(p1));
}

impl Material {
    /// Builds a material from a set of kind flags: the flags
    /// must name exactly one kind, and the parameters of that kind must be
    /// within range.
    pub fn new(
        albedo: Vec3,
        metal: bool,
        diffuse: bool,
        dielectric: bool,
        fuzziness: i64,
        refraction_index: i64,
    ) -> (r: Material)
        requires
            one_kind(metal, diffuse, dielectric),
            color_wf(albedo@),
            metal ==> 0 <= fuzziness <= ONE as int,
            dielectric ==> RI_MIN as int <= refraction_index <= RI_MAX as int,
        ensures
            diffuse ==> r == (Material::Diffuse { albedo }),
            metal ==> r == (Material::Metal { albedo, fuzziness }),
            dielectric ==> r == (Material::Dielectric { refraction_index }),
            mat_wf(r),
    {
        if diffuse {
            Material::Diffuse { albedo }
        } else if metal {
            Material::Metal { albedo, fuzziness }
        } else {
            Material::Dielectric { refraction_index }
        }
    }

    /// The Schlick approximation of Fresnel reflectance for a given cosine
    /// of incidence and refraction index.
    pub fn schlick(cosine: i64, refraction_index: i64) -> (r: i64)
        requires
            -2 * (ONE as int) <= cosine as int <= 2 * (ONE as int),
            RI_MIN as int <= refraction_index as int <= RI_MAX as int,
        ensures
            r as int == schlick_s(cosine as int, refraction_index as int),
    {
        let s: i64 = ONE;
        proof {
            lemma_schlick_r0_range(refraction_index as int);
            let sp = ONE as int;
            let q = fdiv_s(sp - refraction_index, sp + refraction_index);
            assert(abs_i((sp - refraction_index) * sp) <= sp * abs_i(sp + refraction_index))
                by (nonlinear_arith)
                requires
                    656 <= refraction_index as int,
                    sp == 65536,
            ;
            lemma_tdiv_le((sp - refraction_index) * sp, sp + refraction_index, sp);
            lemma_fmul_abs(q, q, sp, sp, sp);
            let p1 = sp - cosine;
            lemma_fmul_abs(p1, p1, 3 * sp, 3 * sp, 9 * sp);
            lemma_fmul_abs(fmul_s(p1, p1), fmul_s(p1, p1), 9 * sp, 9 * sp, 81 * sp);
            lemma_fmul_abs(fmul_s(fmul_s(p1, p1), fmul_s(p1, p1)), p1, 81 * sp, 3 * sp, 243 * sp);
            lemma_fmul_abs(sp - fmul_s(q, q), pow5_s(p1), sp, 243 * sp, 243 * sp);
        }
        let q: i64 = fdiv(s - refraction_index, s + refraction_index);
        let r0: i64 = fmul(q, q);
        let p1: i64 = s - cosine;
        let p2: i64 = fmul(p1, p1);
        let p4: i64 = fmul(p2, p2);
        let p5: i64 = fmul(p4, p1);
        r0 + fmul(s - r0, p5)
    }
}

/// A point strictly inside the unit sphere in the fixed-point sense.
pub open spec fn in_unit_sphere(p: V3) -> bool {
    sqr_magn_s(p) < ONE as int && bounded(p, ONE as int)
}

/// The geometric side of a scatter query is in range: a well-formed ray with
/// a nonzero direction, and a hit record with bounded point and normal.
pub open spec fn scatter_ray_ok(ray_in: RayV, info: HitV) -> bool {
    ray_wf(ray_in) && 1 <= sqr_magn_s(ray_in.dir) && bounded(info.point, GEOM_LIM as int)
        && bounded(info.normal, GEOM_LIM as int)
}

/// What a diffuse scatter returns, for the unit-sphere point `p` that was
/// drawn: the albedo, and a ray from the hit point toward the normal
/// perturbed by `p`.
pub open spec fn diffuse_rel(albedo: Vec3, info: HitV, r: Option<(V3, RayV)>, p: V3) -> bool {
    in_unit_sphere(p) && r == Some(
        (albedo@, RayV { origin: info.point, dir: vadd(info.normal, p) }),
    )
}

/// What a metal scatter returns, for the unit-sphere point `p` that was
/// drawn: the mirror direction blurred by `p` scaled with the fuzziness,
/// kept only when it leaves the surface.
pub open spec fn metal_rel(
    albedo: Vec3,
    fuzziness: i64,
    ray_in: RayV,
    info: HitV,
    r: Option<(V3, RayV)>,
    p: V3,
) -> bool {
    let refl = reflect_s(unit_s(ray_in.dir), info.normal);
    let d = vadd(refl, vscale(p, fuzziness as int));
    in_unit_sphere(p) && r == (if dot_s(d, info.normal) > 0 {
        Some((albedo@, RayV { origin: info.point, dir: d }))
    } else {
        None
    })
}

/// The cosine handed to the Schlick term, clamped to the band the term
/// accepts; the clamp is inactive for geometrically sensible inputs.
pub open spec fn clamp_cos_s(c: int) -> int {
    if c > 2 * (ONE as int) {
        2 * (ONE as int)
    } else if c < -2 * (ONE as int) {
        -2 * (ONE as int)
    } else {
        c
    }
}

/// What a dielectric scatter returns, for the uniform draw `u` that decides
/// between reflection and refraction: white attenuation, and either the
/// mirror direction or the Snell direction; total internal reflection always
/// reflects.
pub open spec fn dielectric_rel(
    ri: int,
    ray_in: RayV,
    info: HitV,
    r: Option<(V3, RayV)>,
    u: int,
) -> bool {
    let refl = reflect_s(ray_in.dir, info.normal);
    let dn = dot_s(ray_in.dir, info.normal);
    let outward = if dn > 0 {
        vneg(info.normal)
    } else {
        info.normal
    };
    let ni = if dn > 0 {
        ri
    } else {
        fdiv_s(ONE as int, ri)
    };
    let cosc = clamp_cos_s(
        if dn > 0 {
            fdiv_s(fmul_s(ri, dn), magn_s(ray_in.dir))
        } else {
            fdiv_s(-dn, magn_s(ray_in.dir))
        },
    );
    let white = V3 { x: ONE as int, y: ONE as int, z: ONE as int };
    0 <= u < ONE as int && (match refract_s(ray_in.dir, outward, ni) {
        Some(refr) => r == Some(
            (
                white,
                RayV {
                    origin: info.point,
                    dir: if u < schlick_s(cosc, ri) {
                        refl
                    } else {
                        refr
                    },
                },
            ),
        ),
        None => r == Some((white, RayV { origin: info.point, dir: refl })),
    })
}

/// The view of an optional attenuation-and-ray pair.
pub open spec fn opt_pair_view(r: Option<(Vec3, Ray)>) -> Option<(V3, RayV)> {
    match r {
        Some((a, s)) => Some((a@, s@)),
        None => None,
    }
}

/// The scattering relation of a material: what can come back, over every
/// possible random draw.
pub open spec fn scatter_rel_m(m: Material, ray_in: RayV, info: HitV, r: Option<(V3, RayV)>) -> bool {
    match m {
        Material::Diffuse { albedo } => exists|p: V3| diffuse_rel(albedo, info, r, p),
        Material::Metal { albedo, fuzziness } => exists|p: V3|
            metal_rel(albedo, fuzziness, ray_in, info, r, p),
        Material::Dielectric { refraction_index } => exists|u: int|
            dielectric_rel(refraction_index as int, ray_in, info, r, u),
    }
}

/// The deterministic scattering outcome: given the generator state `s0` at
/// entry, exactly which result comes back and which state `s1` the generator
/// is left in. Diffuse and metal consume one rejection scan; a dielectric
/// draws one sample for the reflection coin, or nothing on total internal
/// reflection.
pub open spec fn scatter_det(
    m: Material,
    ray_in: RayV,
    info: HitV,
    s0: int,
    r: Option<(V3, RayV)>,
    s1: int,
) -> bool {
    match m {
        Material::Diffuse { albedo } => diffuse_rel(
            albedo,
            info,
            r,
            sample_scan_s(s0, SAMPLE_TRIES as nat).0,
        ) && s1 == sample_scan_s(s0, SAMPLE_TRIES as nat).1,
        Material::Metal { albedo, fuzziness } => metal_rel(
            albedo,
            fuzziness,
            ray_in,
            info,
            r,
            sample_scan_s(s0, SAMPLE_TRIES as nat).0,
        ) && s1 == sample_scan_s(s0, SAMPLE_TRIES as nat).1,
        Material::Dielectric { refraction_index } => {
            let dn = dot_s(ray_in.dir, info.normal);
            let outward = if dn > 0 {
                vneg(info.normal)
            } else {
                info.normal
            };
            let ni = if dn > 0 {
                refraction_index as int
            } else {
                fdiv_s(ONE as int, refraction_index as int)
            };
            match refract_s(ray_in.dir, outward, ni) {
                Some(_) => dielectric_rel(
                    refraction_index as int,
                    ray_in,
                    info,
                    r,
                    lcg_out_s(lcg_next_s(s0)),
                ) && s1 == lcg_next_s(s0),
                None => dielectric_rel(refraction_index as int, ray_in, info, r, 0) && s1 == s0,
            }
        },
    }
}

/// The scattering outcome is a function of the material, the ray, the hit
/// and the generator state: any two outcomes from the same state agree.
pub proof fn lemma_scatter_det_unique(
    m: Material,
    ray_in: RayV,
    info: HitV,
    s0: int,
    r1: Option<(V3, RayV)>,
    s1: int,
    r2: Option<(V3, RayV)>,
    s2: int,
)
    requires
        scatter_det(m, ray_in, info, s0, r1, s1),
        scatter_det(m, ray_in, info, s0, r2, s2),
    ensures
        r1 == r2,
        s1 == s2,
{
}

/// The capability of scattering an incoming ray at a hit.
pub trait Scattering: Sized {
    /// What the implementor asks of the ray and the hit record.
    spec fn scatter_req(&self, ray_in: RayV, info: HitV) -> bool;

    /// What can come back from a scatter, over every possible random draw.
    spec fn scatter_rel(&self, ray_in: RayV, info: HitV, r: Option<(V3, RayV)>) -> bool;

    /// Scatters the incoming ray at the hit: an attenuation color and a new
    /// ray, or nothing when the ray is absorbed.
    fn scatter(&self, ray_in: &Ray, info: &HitInfo, rng: &mut Prng) -> (r: Option<(Vec3, Ray)>)
        requires
            self.scatter_req(ray_in@, info@),
        ensures
            self.scatter_rel(ray_in@, info@, opt_pair_view(r)),
    ;
}

impl Material {
    /// Reports whether the material invariant holds.
    pub fn wf_check(&self) -> (b: bool)
        ensures
            b == mat_wf(*self),
    {
        match *self {
            Material::Diffuse { albedo } => color_check(&albedo),
            Material::Metal { albedo, fuzziness } => color_check(&albedo) && 0 <= fuzziness
                && fuzziness <= ONE,
            Material::Dielectric { refraction_index } => RI_MIN <= refraction_index
                && refraction_index <= RI_MAX,
        }
    }
}

/// Reports whether every channel of a color lies in `[0, 1]`.
pub fn color_check(c: &Vec3) -> (b: bool)
    ensures
        b == color_wf(c@),
{
    0 <= c.0 && c.0 <= ONE && 0 <= c.1 && c.1 <= ONE && 0 <= c.2 && c.2 <= ONE
}

impl Scattering for Material {
    open spec fn scatter_req(&self, ray_in: RayV, info: HitV) -> bool {
        mat_wf(*self) && scatter_ray_ok(ray_in, info)
    }

    open spec fn scatter_rel(&self, ray_in: RayV, info: HitV, r: Option<(V3, RayV)>) -> bool {
        scatter_rel_m(*self, ray_in, info, r)
    }

    fn scatter(&self, ray_in: &Ray, info: &HitInfo, rng: &mut Prng) -> (r: Option<(Vec3, Ray)>)
        ensures
            scatter_det(
                *self,
                ray_in@,
                info@,
                old(rng).state as int,
                opt_pair_view(r),
                final(rng).state as int,
            ),
    {
        match *self {
            Material::Diffuse { albedo } => {
                let p: Vec3 = random_point_in_unit_sphere(rng);
                let target: Vec3 = info.hit_point.add(info.normal).add(p);
                let scattered: Ray = Ray::new(info.hit_point, target.sub(info.hit_point));
                let res: Option<(Vec3, Ray)> = Some((albedo, scattered));
                proof {
                    assert(diffuse_rel(albedo, info@, opt_pair_view(res), p@));
                }
                res
            },
            Material::Metal { albedo, fuzziness } => {
                proof {
                    lemma_unit_bound(ray_in@.dir);
                    lemma_dot_bound(
                        unit_s(ray_in@.dir),
                        info@.normal,
                        UNIT_LIM as int,
                        GEOM_LIM as int,
                        0x2000_0000,
                    );
                    lemma_scale_bound(
                        info@.normal,
                        2 * (ONE as int),
                        GEOM_LIM as int,
                        2 * (ONE as int),
                        0x400_0000,
                    );
                    lemma_scale_bound(
                        vscale(info@.normal, 2 * (ONE as int)),
                        dot_s(unit_s(ray_in@.dir), info@.normal),
                        0x400_0000,
                        0x6000_0000,
                        0x180_0000_0000,
                    );
                }
                let uv: Vec3 = ray_in.get_dir().to_unit();
                let reflected: Vec3 = Vec3::reflect(uv, info.normal);
                let p: Vec3 = random_point_in_unit_sphere(rng);
                proof {
                    lemma_scale_bound(p@, fuzziness as int, ONE as int, ONE as int, ONE as int);
                    lemma_dot_bound(
                        vadd(reflect_s(unit_s(ray_in@.dir), info@.normal), vscale(p@, fuzziness as int)),
                        info@.normal,
                        0x182_0000_0000,
                        GEOM_LIM as int,
                        0x4_0000_0000_0000,
                    );
                }
                let scat_dir: Vec3 = reflected.add(p.scale(fuzziness));
                let scattered: Ray = Ray::new(info.hit_point, scat_dir);
                let dp: i64 = Vec3::dot(scat_dir, info.normal);
                if dp > 0 {
                    let res: Option<(Vec3, Ray)> = Some((albedo, scattered));
                    proof {
                        assert(metal_rel(albedo, fuzziness, ray_in@, info@, opt_pair_view(res), p@));
                    }
                    res
                } else {
                    proof {
                        assert(metal_rel(
                            albedo,
                            fuzziness,
                            ray_in@,
                            info@,
                            opt_pair_view(None::<(Vec3, Ray)>),
                            p@,
                        ));
                    }
                    None
                }
            },
            Material::Dielectric { refraction_index } => {
                let ri: i64 = refraction_index;
                proof {
                    lemma_dot_bound(
                        ray_in@.dir,
                        info@.normal,
                        GEOM_LIM as int,
                        GEOM_LIM as int,
                        0x4_0000_0000,
                    );
                    lemma_unit_bound(ray_in@.dir);
                    lemma_fmul_abs(
                        ri as int,
                        dot_s(ray_in@.dir, info@.normal),
                        RI_MAX as int,
                        0xc_0000_0000,
                        0x600_0000_0000,
                    );
                    assert(abs_i((ONE as int) * (ONE as int)) <= (RI_MAX as int) * abs_i(ri as int))
                        by (nonlinear_arith)
                        requires
                            656 <= ri as int,
                            RI_MAX == 0x80_0000,
                    ;
                    lemma_tdiv_le((ONE as int) * (ONE as int), ri as int, RI_MAX as int);
                    vstd::arithmetic::div_mod::lemma_div_pos_is_pos(0x1_0000_0000, ri as int);
                }
                let reflected: Vec3 = Vec3::reflect(ray_in.get_dir(), info.normal);
                let dn: i64 = Vec3::dot(ray_in.get_dir(), info.normal);
                let m: i64 = ray_in.get_dir().magn();
                let outward: Vec3;
                let ni: i64;
                let cos_raw: i64;
                if dn > 0 {
                    outward = info.normal.neg();
                    ni = ri;
                    cos_raw = fdiv(fmul(ri, dn), m);
                } else {
                    outward = info.normal;
                    ni = fdiv(ONE, ri);
                    cos_raw = fdiv(0 - dn, m);
                }
                let cosc: i64 = if cos_raw > 2 * ONE {
                    2 * ONE
                } else if cos_raw < -(2 * ONE) {
                    -(2 * ONE)
                } else {
                    cos_raw
                };
                match Vec3::refract(ray_in.get_dir(), outward, ni) {
                    Some(refracted) => {
                        let prob: i64 = Material::schlick(cosc, ri);
                        let u: i64 = rng.next_unit();
                        let dir: Vec3 = if u < prob {
                            reflected
                        } else {
                            refracted
                        };
                        let scattered: Ray = Ray::new(info.hit_point, dir);
                        let res: Option<(Vec3, Ray)> = Some((Vec3(ONE, ONE, ONE), scattered));
                        proof {
                            assert(dielectric_rel(
                                ri as int,
                                ray_in@,
                                info@,
                                opt_pair_view(res),
                                u as int,
                            ));
                        }
                        res
                    },
                    None => {
                        let scattered: Ray = Ray::new(info.hit_point, reflected);
                        let res: Option<(Vec3, Ray)> = Some((Vec3(ONE, ONE, ONE), scattered));
                        proof {
                            assert(dielectric_rel(ri as int, ray_in@, info@, opt_pair_view(res), 0));
                        }
                        res
                    },
                }
            },
        }
    }
}

} // verus!
