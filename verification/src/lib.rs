//! A verified core for a small sphere path tracer.
//!
//! Given a pinhole camera and a scene of spheres with diffuse, metal or
//! dielectric surfaces, the library computes per-ray radiance estimates:
//! the ray-sphere hit test, the nearest-hit query over a scene, the
//! per-material scattering law, and the recursive radiance function with
//! sky-gradient background and a hard bounce cap.
//!
//! All geometry and shading is carried out in signed 16.16 fixed-point
//! arithmetic (`fx`), so that every operation has an exact mathematical
//! contract: each executable function is proved equal to a spec-level
//! counterpart over unbounded integers. Randomness comes from an injectable
//! seedable generator (`rng`), which keeps every estimate reproducible.

pub mod camera;
pub mod fx;
pub mod hit;
pub mod material;
pub mod ray;
pub mod render;
pub mod rng;
pub mod vec3;
pub mod world;
