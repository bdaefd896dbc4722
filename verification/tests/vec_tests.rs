use ppm::fx::{HALF, ONE};
use ppm::material::Material;
use ppm::ray::Ray;
use ppm::rng::{random_point_in_unit_sphere, Prng};
use ppm::vec3::Vec3;

#[test]
fn add_sub_neg_exact() {
    let a = Vec3(ONE, 2 * ONE, -ONE);
    let b = Vec3(HALF, -ONE, 3 * ONE);
    assert_eq!(a.add(b), Vec3(ONE + HALF, ONE, 2 * ONE));
    assert_eq!(a.sub(b), Vec3(HALF, 3 * ONE, -4 * ONE));
    assert_eq!(a.neg(), Vec3(-ONE, -2 * ONE, ONE));
    assert_eq!(Vec3::zero(), Vec3(0, 0, 0));
    assert_eq!(Vec3::new(1, 2, 3), Vec3(1, 2, 3));
}

#[test]
fn mul_scale_div_exact() {
    let a = Vec3(2 * ONE, 3 * ONE, 4 * ONE);
    assert_eq!(a.mul(Vec3(HALF, HALF, HALF)), Vec3(ONE, ONE + HALF, 2 * ONE));
    assert_eq!(Vec3(ONE, 2 * ONE, 0).scale(HALF), Vec3(HALF, ONE, 0));
    assert_eq!(Vec3(ONE, 2 * ONE, 3 * ONE).div(Vec3(2 * ONE, 2 * ONE, 2 * ONE)),
        Vec3(HALF, ONE, ONE + HALF));
    assert_eq!(Vec3(ONE, 2 * ONE, 4 * ONE).div_scalar(2 * ONE), Vec3(HALF, ONE, 2 * ONE));
}

#[test]
fn products_truncate_toward_zero() {
    // 3 * 0.5 at the smallest scale: 1.5 raw units truncates to 1
    assert_eq!(Vec3(3, 0, 0).scale(HALF), Vec3(1, 0, 0));
    // and -1.5 raw units truncates to -1, not -2
    assert_eq!(Vec3(-3, 0, 0).scale(HALF), Vec3(-1, 0, 0));
    // a raw unit squared vanishes
    assert_eq!(Vec3::dot(Vec3(1, 0, 0), Vec3(1, 0, 0)), 0);
}

#[test]
fn dot_and_magnitudes_exact() {
    assert_eq!(Vec3::dot(Vec3(ONE, 2 * ONE, 3 * ONE), Vec3(4 * ONE, 5 * ONE, 6 * ONE)), 32 * ONE);
    let v = Vec3(3 * ONE, 4 * ONE, 0);
    assert_eq!(v.sqr_magn(), 25 * ONE);
    assert_eq!(v.magn(), 5 * ONE);
    assert_eq!(Vec3(0, 2 * ONE, 0).to_unit(), Vec3(0, ONE, 0));
}

#[test]
fn reflect_general_formula() {
    // v = (1, -1, 0) against the upward normal mirrors the y component
    let r = Vec3::reflect(Vec3(ONE, -ONE, 0), Vec3(0, ONE, 0));
    assert_eq!(r, Vec3(ONE, ONE, 0));
}

#[test]
fn reflect_grazing_keeps_direction() {
    // v perpendicular to n: dot is zero, the direction passes unchanged
    let v = Vec3(ONE, 0, 0);
    let n = Vec3(0, ONE, 0);
    assert_eq!(Vec3::dot(v, n), 0);
    assert_eq!(Vec3::reflect(v, n), v);
}

#[test]
fn reflect_antiparallel_reverses() {
    let n = Vec3(0, ONE, 0);
    let v = n.neg();
    assert_eq!(Vec3::reflect(v, n), Vec3(0, ONE, 0));
}

#[test]
fn refract_total_internal_reflection() {
    // grazing entry with a dense-to-thin ratio of 1.5: the discriminant goes
    // negative and no refracted direction exists
    let v = Vec3(ONE, 0, 0);
    let n = Vec3(0, ONE, 0);
    assert!(Vec3::refract(v, n, 98304).is_none());
}

#[test]
fn refract_straight_through() {
    // head-on incidence passes straight through for any ratio
    let v = Vec3(0, -ONE, 0);
    let n = Vec3(0, ONE, 0);
    let r = Vec3::refract(v, n, ONE).expect("head-on refraction must exist");
    assert_eq!(r, Vec3(0, -ONE, 0));
}

#[test]
fn schlick_exact_values() {
    // glass at normal incidence: r0 = ((1 - 1.5) / (1 + 1.5))^2 = 0.04
    assert_eq!(Material::schlick(ONE, 98304), 2621);
    // at grazing incidence the term reaches one exactly
    assert_eq!(Material::schlick(0, 98304), ONE);
    // and half-way
    assert_eq!(Material::schlick(HALF, 98304), 4587);
}

#[test]
fn schlick_grows_toward_grazing() {
    let glass = 98304;
    let a = Material::schlick(ONE, glass);
    let b = Material::schlick(HALF, glass);
    let c = Material::schlick(0, glass);
    assert!(a <= b && b <= c);
    assert!(a < c);
}

#[test]
fn material_new_picks_one_kind() {
    let white = Vec3(ONE, ONE, ONE);
    assert!(matches!(Material::new(white, false, true, false, 0, ONE),
        Material::Diffuse { .. }));
    assert!(matches!(Material::new(white, true, false, false, HALF, ONE),
        Material::Metal { .. }));
    assert!(matches!(Material::new(white, false, false, true, 0, 98304),
        Material::Dielectric { .. }));
}

#[test]
fn point_at_parameter_exact() {
    let ray = Ray::new(Vec3(ONE, ONE, ONE), Vec3(0, 0, -ONE));
    assert_eq!(ray.point_at_parameter(2 * ONE), Vec3(ONE, ONE, -ONE));
    assert_eq!(ray.get_origin(), Vec3(ONE, ONE, ONE));
    assert_eq!(ray.get_dir(), Vec3(0, 0, -ONE));
}

#[test]
fn prng_is_deterministic_and_in_range() {
    let mut a = Prng::new(42);
    let mut b = Prng::new(42);
    for _ in 0..32 {
        let x = a.next_unit();
        let y = b.next_unit();
        assert_eq!(x, y);
        assert!(0 <= x && x < ONE);
    }
    let mut c = Prng::from_entropy();
    let z = c.next_unit();
    assert!(0 <= z && z < ONE);
}

#[test]
fn random_point_stays_inside_unit_sphere() {
    let mut rng = Prng::new(7);
    for _ in 0..200 {
        let p = random_point_in_unit_sphere(&mut rng);
        assert!(p.sqr_magn() < ONE);
    }
}

#[test]
fn sampler_is_reproducible() {
    // the sampled point and the state left behind are a function of the seed
    let mut a = Prng::new(99);
    let mut b = Prng::new(99);
    let p = random_point_in_unit_sphere(&mut a);
    let q = random_point_in_unit_sphere(&mut b);
    assert_eq!(p, q);
    assert_eq!(a.next_unit(), b.next_unit());
}

#[test]
fn reflect_antiparallel_with_magnitude_within_tolerance() {
    // a diagonal unit normal: both squared halves truncate to exactly half
    let n = Vec3(46341, 46341, 0);
    assert_eq!(Vec3::dot(n, n), ONE);
    // a direction three units long, anti-parallel to the normal
    let v = n.scale(-3 * ONE);
    let r = Vec3::reflect(v, n);
    // the reflection is the reverse, within 2 * (3k / ONE) + 15 raw units
    let bound = 2 * (3 * (3 * ONE) / ONE) + 15;
    assert!((r.0 + v.0).abs() <= bound);
    assert!((r.1 + v.1).abs() <= bound);
    assert!((r.2 + v.2).abs() <= bound);
}
