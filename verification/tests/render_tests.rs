use ppm::camera::Camera;
use ppm::fx::{HALF, ONE};
use ppm::hit::{hit_sphere, HitInfo, Hitable, Sphere};
use ppm::material::Material;
use ppm::ray::{Ray, T_LIM};
use ppm::render::{color, T_EPS};
use ppm::rng::Prng;
use ppm::vec3::Vec3;
use ppm::world::HitableList;

fn white_diffuse() -> Material {
    Material::new(Vec3(ONE, ONE, ONE), false, true, false, 0, ONE)
}

fn white_mirror() -> Material {
    Material::new(Vec3(ONE, ONE, ONE), true, false, false, 0, ONE)
}

#[test]
fn sphere_hit_reports_near_root_point_and_normal() {
    let s = Sphere::new(white_diffuse(), Vec3(0, 0, -2 * ONE), ONE);
    let ray = Ray::new(Vec3(0, 0, 0), Vec3(0, 0, -ONE));
    let h = s.hit(&ray, 1, T_LIM).expect("the ray points straight at the sphere");
    assert_eq!(h.hit_param, ONE);
    assert_eq!(h.hit_point, Vec3(0, 0, -ONE));
    // the hit point sits exactly one radius from the center
    assert_eq!(h.hit_point.sub(Vec3(0, 0, -2 * ONE)).magn(), ONE);
    // and the normal is that offset divided by the radius
    assert_eq!(h.normal, Vec3(0, 0, ONE));
}

#[test]
fn sphere_hit_excluded_range_misses() {
    // the roots are at 1 and 3; a band strictly between and beyond excludes both
    let s = Sphere::new(white_diffuse(), Vec3(0, 0, -2 * ONE), ONE);
    let ray = Ray::new(Vec3(0, 0, 0), Vec3(0, 0, -ONE));
    assert!(s.hit(&ray, ONE, 3 * ONE).is_none());
    assert!(s.hit(&ray, 4 * ONE, T_LIM).is_none());
}

#[test]
fn sphere_hit_takes_far_root_when_near_is_below_band() {
    let s = Sphere::new(white_diffuse(), Vec3(0, 0, -2 * ONE), ONE);
    let ray = Ray::new(Vec3(0, 0, 0), Vec3(0, 0, -ONE));
    let h = s.hit(&ray, 2 * ONE, T_LIM).expect("the far root lies inside the band");
    assert_eq!(h.hit_param, 3 * ONE);
}

#[test]
fn list_returns_nearest_hit() {
    let far = Sphere::new(white_diffuse(), Vec3(0, 0, -4 * ONE), ONE);
    let near = Sphere::new(white_diffuse(), Vec3(0, 0, -2 * ONE), ONE);
    let world = HitableList::new_filled_list(vec![far, near]);
    let ray = Ray::new(Vec3(0, 0, 0), Vec3(0, 0, -ONE));
    let h = world.hit(&ray, 1, T_LIM).expect("both spheres lie on the ray");
    assert_eq!(h.hit_param, ONE);
    let alone = far.hit(&ray, 1, T_LIM).expect("the far sphere is hit on its own");
    assert!(h.hit_param <= alone.hit_param);
}

#[test]
fn empty_list_misses() {
    let world: HitableList<Sphere> = HitableList::new();
    let ray = Ray::new(Vec3(0, 0, 0), Vec3(0, 0, -ONE));
    assert!(world.hit(&ray, 1, T_LIM).is_none());
}

#[test]
fn hit_sphere_near_root_and_miss() {
    let ray = Ray::new(Vec3(0, 0, 0), Vec3(0, 0, -ONE));
    assert_eq!(hit_sphere(Vec3(0, 0, -2 * ONE), ONE, &ray), ONE);
    assert_eq!(hit_sphere(Vec3(0, 10 * ONE, 0), ONE, &ray), -ONE);
}

#[test]
fn hit_info_default_record() {
    let h = HitInfo::new();
    assert_eq!(h.hit_param, 0);
    assert_eq!(h.hit_point, Vec3(0, 0, 0));
    assert_eq!(h.normal, Vec3(0, 0, 0));
    assert!(matches!(h.material, Material::Metal { .. }));
}

#[test]
fn camera_center_ray_looks_down_z() {
    let cam = Camera::new();
    let ray = cam.get_ray(HALF, HALF);
    assert_eq!(ray.get_origin(), Vec3(0, 0, 0));
    assert_eq!(ray.get_dir(), Vec3(0, 0, -ONE));
    let corner = cam.get_ray(0, 0);
    assert_eq!(corner.get_dir(), Vec3(-2 * ONE, -ONE, -ONE));
}

#[test]
fn miss_returns_background_gradient_exactly() {
    let world: HitableList<Sphere> = HitableList::new();
    let mut rng = Prng::new(1);
    // straight up: pure sky blue
    let up = color(Ray::new(Vec3(0, 0, 0), Vec3(0, ONE, 0)), &world, 0, &mut rng);
    assert_eq!(up, Vec3(HALF, 45875, ONE));
    // straight down: pure white
    let down = color(Ray::new(Vec3(0, 0, 0), Vec3(0, -ONE, 0)), &world, 0, &mut rng);
    assert_eq!(down, Vec3(ONE, ONE, ONE));
}

#[test]
fn single_sphere_scene_is_deterministic() {
    let sphere = Sphere::new(white_diffuse(), Vec3(0, 0, -ONE), HALF);
    let cam = Camera::new();

    // the center ray hits the near face at half a unit
    let ray = cam.get_ray(HALF, HALF);
    let world = HitableList::new_filled_list(vec![sphere]);
    let h = world.hit(&ray, T_EPS, T_LIM).expect("the center ray hits the sphere");
    assert_eq!(h.hit_param, HALF);
    assert_eq!(h.hit_point, Vec3(0, 0, -HALF));

    // with the same seed, repeated radiance estimates agree bit for bit
    let mut rng1 = Prng::new(123);
    let mut rng2 = Prng::new(123);
    let c1 = color(cam.get_ray(HALF, HALF), &world, 0, &mut rng1);
    let c2 = color(cam.get_ray(HALF, HALF), &world, 0, &mut rng2);
    assert_eq!(c1, c2);
}

#[test]
fn mirrored_spheres_exhaust_depth_and_return_black() {
    // two facing mirrors: the ray bounces between them until the bounce
    // budget runs out, and the estimate is exactly black
    let a = Sphere::new(white_mirror(), Vec3(0, 0, -2 * ONE), ONE);
    let b = Sphere::new(white_mirror(), Vec3(0, 0, 2 * ONE), ONE);
    let world = HitableList::new_filled_list(vec![a, b]);
    let mut rng = Prng::new(5);
    let c = color(Ray::new(Vec3(0, 0, 0), Vec3(0, 0, -ONE)), &world, 0, &mut rng);
    assert_eq!(c, Vec3(0, 0, 0));
}

#[test]
fn depth_cap_returns_black_immediately() {
    let sphere = Sphere::new(white_diffuse(), Vec3(0, 0, -2 * ONE), ONE);
    let world = HitableList::new_filled_list(vec![sphere]);
    let mut rng = Prng::new(9);
    let c = color(Ray::new(Vec3(0, 0, 0), Vec3(0, 0, -ONE)), &world, 50, &mut rng);
    assert_eq!(c, Vec3(0, 0, 0));
}

#[test]
fn off_axis_hit_point_lies_on_surface_within_tolerance() {
    // a diagonal ray against an offset sphere: the reported point sits one
    // radius from the center, up to fixed-point rounding
    let radius = 2 * ONE;
    let center = Vec3(2 * ONE, ONE, 0);
    let s = Sphere::new(white_diffuse(), center, radius);
    let ray = Ray::new(Vec3(0, 0, 0), Vec3(ONE, ONE, 0));
    let h = s.hit(&ray, 1, T_LIM).expect("the diagonal ray hits the sphere");
    let dist = h.hit_point.sub(center).magn();
    assert!((dist - radius).abs() <= 16, "distance {} vs radius {}", dist, radius);
    // the normal is exactly the offset scaled by the inverse radius
    assert_eq!(h.normal, h.hit_point.sub(center).div_scalar(radius));
}

#[test]
fn equal_hits_keep_the_first_primitive() {
    // two coincident spheres with different albedos: the shrinking bound is
    // strict, so the second sphere's equal hit cannot displace the first
    let first = Sphere::new(
        Material::new(Vec3(ONE, 0, 0), false, true, false, 0, ONE),
        Vec3(0, 0, -2 * ONE),
        ONE,
    );
    let second = Sphere::new(
        Material::new(Vec3(0, ONE, 0), false, true, false, 0, ONE),
        Vec3(0, 0, -2 * ONE),
        ONE,
    );
    let world = HitableList::new_filled_list(vec![first, second]);
    let ray = Ray::new(Vec3(0, 0, 0), Vec3(0, 0, -ONE));
    let h = world.hit(&ray, 1, T_LIM).expect("both spheres lie on the ray");
    assert_eq!(h.material, Material::Diffuse { albedo: Vec3(ONE, 0, 0) });
}
