//! The recursive radiance function: cast, hit, scatter, recurse — or return
//! the sky gradient on a miss, and black once the ray is absorbed or the
//! bounce budget is spent.

use vstd::prelude::*;

use crate::fx::{fmul, fmul_s, HALF, ONE};
use crate::hit::Hitable;
use crate::material::{color_check, color_wf, lemma_scatter_det_unique, mat_wf, scatter_det, Scattering};
use crate::ray::{ray_wf, Ray, RayV, T_LIM};
use crate::rng::Prng;
use crate::vec3::{
    bounded, lemma_fmul_abs, lemma_scale_bound, lemma_unit_bound, sqr_magn_s, unit_s, vadd, vmul,
    vscale, Vec3, V3, GEOM_LIM,
};

verus! {

/// The lower end of every radiance hit query, excluding near-zero parameters
/// to avoid immediately re-hitting the originating surface.
pub const T_EPS: i64 = 66;

/// The maximum recursion depth of the radiance function.
pub const MAX_DEPTH: i32 = 50;

/// A bound on every channel of a radiance estimate.
pub const CLR_LIM: i64 = 0x20_0000;

/// White, the horizon end of the sky gradient.
pub open spec fn white_s() -> V3 {
    V3 { x: ONE as int, y: ONE as int, z: ONE as int }
}

/// Sky blue, the zenith end of the sky gradient.
pub open spec fn sky_blue_s() -> V3 {
    V3 { x: HALF as int, y: 45875, z: ONE as int }
}

/// The vertical blend factor of the sky gradient for a direction: half of
/// one plus the normalized `y` component; one half when the direction is too
/// short to normalize.
pub open spec fn bg_t_s(ray: RayV) -> int {
    if 1 <= sqr_magn_s(ray.dir) {
        fmul_s(HALF as int, unit_s(ray.dir).y + ONE as int)
    } else {
        HALF as int
    }
}

/// The background: white at the horizon blending to sky blue at the zenith.
pub open spec fn bg_s(ray: RayV) -> V3 {
    let t = bg_t_s(ray);
    vadd(vscale(white_s(), (ONE as int) - t), vscale(sky_blue_s(), t))
}

/// The zero radiance returned for absorbed rays.
pub open spec fn black_s() -> V3 {
    V3 { x: 0, y: 0, z: 0 }
}

/// The radiance relation: what `color` returns and in which state it leaves
/// the generator, for a given scene, ray, depth and entry state `s0`.
///
/// A miss returns the background; a hit with the bounce budget spent, or one
/// whose record falls outside the representable geometry band, is absorbed
/// and returns black, both without touching the generator. Otherwise the
/// material scatters deterministically from `s0`: an absorbed ray returns
/// black, and a scattered one multiplies the attenuation into the recursive
/// estimate of the scattered ray at the next depth — a scattered ray outside
/// the band is likewise absorbed. Every branch is deterministic, so the
/// estimate is a function of the scene, the ray, the depth and the seed.
pub open spec fn color_rel<T: Hitable>(
    world: T,
    ray: RayV,
    depth: int,
    s0: int,
    c: V3,
    s1: int,
) -> bool
    decreases (if depth < MAX_DEPTH as int {
        MAX_DEPTH as int - depth
    } else {
        0
    }),
{
    match world.hit_spec(ray, T_EPS as int, T_LIM as int) {
        None => c == bg_s(ray) && s1 == s0,
        Some(h) => {
            if depth < MAX_DEPTH as int && bounded(h.point, GEOM_LIM as int) && bounded(
                h.normal,
                GEOM_LIM as int,
            ) && mat_wf(h.material) && 1 <= sqr_magn_s(ray.dir) {
                exists|r: Option<(V3, RayV)>, s2: int|
                    #[trigger] scatter_det(h.material, ray, h, s0, r, s2) && (match r {
                        None => c == black_s() && s1 == s2,
                        Some((a, sc)) => {
                            if bounded(sc.origin, GEOM_LIM as int) && bounded(
                                sc.dir,
                                GEOM_LIM as int,
                            ) && color_wf(a) {
                                exists|rec: V3|
                                    c == #[trigger] vmul(a, rec) && color_rel(
                                        world,
                                        sc,
                                        depth + 1,
                                        s2,
                                        rec,
                                        s1,
                                    )
                            } else {
                                c == black_s() && s1 == s2
                            }
                        },
                    })
            } else {
                c == black_s() && s1 == s0
            }
        },
    }
}

/// Law: the radiance relation is deterministic — given one scene, ray,
/// depth and generator state, any two estimates it admits agree bit for
/// bit, generator state included. With a seeded generator, repeated calls
/// reproduce the same result.
pub proof fn lemma_color_rel_unique<T: Hitable>(
    world: T,
    ray: RayV,
    depth: int,
    s0: int,
    c1: V3,
    s1: int,
    c2: V3,
    s2: int,
)
    requires
        color_rel(world, ray, depth, s0, c1, s1),
        color_rel(world, ray, depth, s0, c2, s2),
    ensures
        c1 == c2,
        s1 == s2,
    decreases (if depth < MAX_DEPTH as int {
        MAX_DEPTH as int - depth
    } else {
        0
    }),
{
    match world.hit_spec(ray, T_EPS as int, T_LIM as int) {
        None => {},
        Some(h) => {
            if depth < MAX_DEPTH as int && bounded(h.point, GEOM_LIM as int) && bounded(
                h.normal,
                GEOM_LIM as int,
            ) && mat_wf(h.material) && 1 <= sqr_magn_s(ray.dir) {
                let (ra, sa) = choose|r: Option<(V3, RayV)>, s: int|
                    #[trigger] scatter_det(h.material, ray, h, s0, r, s) && (match r {
                        None => c1 == black_s() && s1 == s,
                        Some((a, sc)) => {
                            if bounded(sc.origin, GEOM_LIM as int) && bounded(
                                sc.dir,
                                GEOM_LIM as int,
                            ) && color_wf(a) {
                                exists|rec: V3|
                                    c1 == #[trigger] vmul(a, rec) && color_rel(
                                        world,
                                        sc,
                                        depth + 1,
                                        s,
                                        rec,
                                        s1,
                                    )
                            } else {
                                c1 == black_s() && s1 == s
                            }
                        },
                    });
                let (rb, sb) = choose|r: Option<(V3, RayV)>, s: int|
                    #[trigger] scatter_det(h.material, ray, h, s0, r, s) && (match r {
                        None => c2 == black_s() && s2 == s,
                        Some((a, sc)) => {
                            if bounded(sc.origin, GEOM_LIM as int) && bounded(
                                sc.dir,
                                GEOM_LIM as int,
                            ) && color_wf(a) {
                                exists|rec: V3|
                                    c2 == #[trigger] vmul(a, rec) && color_rel(
                                        world,
                                        sc,
                                        depth + 1,
                                        s,
                                        rec,
                                        s2,
                                    )
                            } else {
                                c2 == black_s() && s2 == s
                            }
                        },
                    });
                lemma_scatter_det_unique(h.material, ray, h, s0, ra, sa, rb, sb);
                match ra {
                    None => {},
                    Some((a, sc)) => {
                        if bounded(sc.origin, GEOM_LIM as int) && bounded(sc.dir, GEOM_LIM as int)
                            && color_wf(a) {
                            let reca = choose|rec: V3|
                                c1 == #[trigger] vmul(a, rec) && color_rel(
                                    world,
                                    sc,
                                    depth + 1,
                                    sa,
                                    rec,
                                    s1,
                                );
                            let recb = choose|rec: V3|
                                c2 == #[trigger] vmul(a, rec) && color_rel(
                                    world,
                                    sc,
                                    depth + 1,
                                    sa,
                                    rec,
                                    s2,
                                );
                            lemma_color_rel_unique(world, sc, depth + 1, sa, reca, s1, recb, s2);
                        }
                    },
                }
            }
        },
    }
}

/// The recursive radiance estimate of a ray in a scene.
///
/// The whole outcome — the estimate and the generator state left behind —
/// is pinned by `color_rel` as a function of the scene, the ray, the depth
/// and the entry state: misses return the background gradient exactly, an
/// exhausted budget or an absorbed ray returns black, and a scattered bounce
/// multiplies the material's attenuation into the recursive estimate. The
/// two non-random corollaries are restated directly, and every channel of
/// the result stays within `CLR_LIM`.
pub fn color<T: Hitable>(ray: Ray, world: &T, depth: i32, rng: &mut Prng) -> (c: Vec3)
    requires
        world.wf(),
        ray_wf(ray@),
    ensures
        color_rel(*world, ray@, depth as int, old(rng).state as int, c@, final(rng).state as int),
        world.hit_spec(ray@, T_EPS as int, T_LIM as int) is None ==> c@ == bg_s(ray@),
        world.hit_spec(ray@, T_EPS as int, T_LIM as int) is Some && depth >= MAX_DEPTH ==> c@
            == black_s(),
        bounded(c@, CLR_LIM as int),
    decreases (if depth < MAX_DEPTH {
        MAX_DEPTH - depth
    } else {
        0
    }),
{
    let ghost s0: int = rng.state as int;
    match world.hit(&ray, T_EPS, T_LIM) {
        Some(h) => {
            if depth < MAX_DEPTH && h.hit_point.in_bounds(GEOM_LIM) && h.normal.in_bounds(GEOM_LIM)
                && h.material.wf_check() && ray.get_dir().sqr_magn() >= 1 {
                match h.material.scatter(&ray, &h, rng) {
                    Some((att, scattered)) => {
                        let ghost s2: int = rng.state as int;
                        let ghost rv: Option<(V3, RayV)> = Some((att@, scattered@));
                        proof {
                            assert(scatter_det(h@.material, ray@, h@, s0, rv, s2));
                        }
                        if scattered.get_origin().in_bounds(GEOM_LIM) && scattered.get_dir()
                            .in_bounds(GEOM_LIM) && color_check(&att) {
                            let rec: Vec3 = color(scattered, world, depth + 1, rng);
                            proof {
                                lemma_fmul_abs(
                                    att@.x,
                                    rec@.x,
                                    ONE as int,
                                    CLR_LIM as int,
                                    CLR_LIM as int,
                                );
                                lemma_fmul_abs(
                                    att@.y,
                                    rec@.y,
                                    ONE as int,
                                    CLR_LIM as int,
                                    CLR_LIM as int,
                                );
                                lemma_fmul_abs(
                                    att@.z,
                                    rec@.z,
                                    ONE as int,
                                    CLR_LIM as int,
                                    CLR_LIM as int,
                                );
                            }
                            let out: Vec3 = att.mul(rec);
                            proof {
                                assert(color_rel(
                                    *world,
                                    scattered@,
                                    depth + 1,
                                    s2,
                                    rec@,
                                    rng.state as int,
                                ));
                                assert(out@ == vmul(att@, rec@));
                            }
                            out
                        } else {
                            Vec3::zero()
                        }
                    },
                    None => {
                        let ghost s2: int = rng.state as int;
                        proof {
                            assert(scatter_det(h@.material, ray@, h@, s0, None::<(V3, RayV)>, s2));
                        }
                        Vec3::zero()
                    },
                }
            } else {
                Vec3::zero()
            }
        },
        None => {
            let d: Vec3 = ray.get_dir();
            let sm: i64 = d.sqr_magn();
            let t: i64;
            if sm >= 1 {
                proof {
                    lemma_unit_bound(d@);
                    lemma_fmul_abs(
                        HALF as int,
                        unit_s(d@).y + ONE as int,
                        HALF as int,
                        0x11_0000,
                        0x8_8000,
                    );
                }
                t = fmul(HALF, d.to_unit().1 + ONE);
            } else {
                t = HALF;
            }
            proof {
                lemma_scale_bound(white_s(), (ONE as int) - t, ONE as int, 0x9_8000, 0x9_8000);
                lemma_scale_bound(sky_blue_s(), t as int, ONE as int, 0x8_8000, 0x8_8000);
            }
            Vec3(ONE, ONE, ONE).scale(ONE - t).add(Vec3(HALF, 45875, ONE).scale(t))
        },
    }
}

} // verus!
