use raytracer::hitable::{T_EPS, T_MAX};
use raytracer::hitablelist::HitableList;
use raytracer::material::{Lambertian, Material};
use raytracer::ray::Ray;
use raytracer::sphere::Sphere;
use raytracer::vec3::Vec3;

const ONE: i64 = 65536;

fn v(x: i64, y: i64, z: i64) -> Vec3 {
    Vec3 { x, y, z }
}

fn gray() -> Material {
    Material::Lambertian(Lambertian { albedo: v(32768, 32768, 32768) })
}

#[test]
fn vec_new_and_getters() {
    let a = Vec3::new(Some([1, 2, 3]));
    assert_eq!(a.get_x(), 1);
    assert_eq!(a.get_y(), 2);
    assert_eq!(a.get_z(), 3);
    assert_eq!(a.get_r(), 1);
    assert_eq!(a.get_g(), 2);
    assert_eq!(a.get_b(), 3);
    let z = Vec3::new(None);
    assert_eq!(z, v(0, 0, 0));
}

#[test]
fn vec_arithmetic() {
    let a = v(ONE, 2 * ONE, -ONE);
    let b = v(ONE, ONE, ONE);
    assert_eq!(a.add(&b), v(2 * ONE, 3 * ONE, 0));
    assert_eq!(a.sub(&b), v(0, ONE, -2 * ONE));
    assert_eq!(a.neg(), v(-ONE, -2 * ONE, ONE));
    assert_eq!(a.scale(2 * ONE), v(2 * ONE, 4 * ONE, -2 * ONE));
    assert_eq!(a.mul(&b), a);
    assert_eq!(Vec3::dot(&v(ONE, 0, 0), &v(ONE, 0, 0)), ONE);
    assert_eq!(Vec3::dot(&v(ONE, 0, 0), &v(0, ONE, 0)), 0);
    assert_eq!(Vec3::cross(&v(ONE, 0, 0), &v(0, ONE, 0)), v(0, 0, ONE));
}

#[test]
fn vec_length_345() {
    let a = v(3 * ONE, 4 * ONE, 0);
    assert_eq!(a.squared_length(), 25 * ONE);
    assert_eq!(a.length(), 5 * ONE);
}

#[test]
fn unit_vector_axis_exact() {
    let u = Vec3::unit_vector(v(2 * ONE, 0, 0));
    assert_eq!(u, v(ONE, 0, 0));
    assert_eq!(u.squared_length(), ONE);
}

#[test]
fn unit_vector_length_within_tolerance() {
    // a non-axis direction: the normalized square length misses one only by
    // rounding
    let u = Vec3::unit_vector(v(3 * ONE, 4 * ONE, 0));
    let sq = u.squared_length();
    assert!(65532 <= sq && sq <= ONE, "squared length {sq}");

    let w = Vec3::unit_vector(v(-12345678, 7654321, 987654));
    let sqw = w.squared_length();
    assert!(65530 <= sqw && sqw <= ONE, "squared length {sqw}");
}

#[test]
fn make_unit_vector_matches_unit_vector() {
    let mut a = v(3 * ONE, 4 * ONE, 0);
    a.make_unit_vector();
    assert_eq!(a, Vec3::unit_vector(v(3 * ONE, 4 * ONE, 0)));
}

#[test]
fn gamma2_correct_exact() {
    let mut c = v(16384, 0, ONE);
    c.gamma2_correct();
    assert_eq!(c, v(32768, 0, ONE));
}

#[test]
fn sphere_head_on_hit_at_radius() {
    // a sphere at the origin with radius r, probed from (0, 0, 2r) toward the
    // origin: hit at t = r with normal (0, 0, 1)
    let s = Sphere { center: v(0, 0, 0), radius: ONE, material: gray() };
    let r = Ray { origin: v(0, 0, 2 * ONE), direction: v(0, 0, -ONE) };
    let h = s.hit(&r, T_EPS, T_MAX).expect("head-on ray must hit");
    assert_eq!(h.t, ONE);
    assert_eq!(h.p, v(0, 0, ONE));
    assert_eq!(h.normal, v(0, 0, ONE));
}

#[test]
fn sphere_miss() {
    let s = Sphere { center: v(0, 0, 0), radius: ONE, material: gray() };
    let r = Ray { origin: v(0, 0, 2 * ONE), direction: v(0, 0, ONE) };
    assert!(s.hit(&r, T_EPS, T_MAX).is_none());
    let sideways = Ray { origin: v(0, 3 * ONE, 2 * ONE), direction: v(0, 0, -ONE) };
    assert!(s.hit(&sideways, T_EPS, T_MAX).is_none());
}

#[test]
fn sphere_no_self_intersection_outward() {
    // origin exactly on the surface, leaving: with the acne bound the sphere
    // is not re-intersected at all
    let s = Sphere { center: v(0, 0, 0), radius: ONE, material: gray() };
    let r = Ray { origin: v(0, 0, ONE), direction: v(0, 0, ONE) };
    assert!(s.hit(&r, T_EPS, T_MAX).is_none());
}

#[test]
fn sphere_no_self_intersection_inward() {
    // origin exactly on the surface, entering: only the far traversal is
    // reported, never the starting point at parameter zero
    let s = Sphere { center: v(0, 0, 0), radius: ONE, material: gray() };
    let r = Ray { origin: v(0, 0, ONE), direction: v(0, 0, -ONE) };
    let h = s.hit(&r, T_EPS, T_MAX).expect("must cross to the far side");
    assert_eq!(h.t, 2 * ONE);
    assert_eq!(h.p, v(0, 0, -ONE));
}

#[test]
fn negative_radius_flips_normal() {
    let s = Sphere { center: v(0, 0, 0), radius: -ONE, material: gray() };
    let r = Ray { origin: v(0, 0, 2 * ONE), direction: v(0, 0, -ONE) };
    let h = s.hit(&r, T_EPS, T_MAX).expect("geometry is unchanged");
    assert_eq!(h.t, ONE);
    assert_eq!(h.normal, v(0, 0, -ONE));
}

#[test]
fn scene_returns_nearer_of_two_overlapping_spheres() {
    let near = Sphere { center: v(0, 0, -4 * ONE), radius: ONE, material: gray() };
    let far = Sphere {
        center: v(0, 0, -6 * ONE),
        radius: ONE,
        material: Material::Lambertian(Lambertian { albedo: v(100, 200, 300) }),
    };
    let ray = Ray { origin: v(0, 0, 0), direction: v(0, 0, -ONE) };

    let hn = near.hit(&ray, T_EPS, T_MAX).expect("near sphere is hit");
    let hf = far.hit(&ray, T_EPS, T_MAX).expect("far sphere is hit");
    assert_eq!(hn.t, 3 * ONE);
    assert_eq!(hf.t, 5 * ONE);

    // in either listing order the aggregate agrees with the nearer of the two
    // individual queries
    let w1 = HitableList { list: vec![near, far] };
    let r1 = w1.hit(&ray, T_EPS, T_MAX).expect("scene is hit");
    assert_eq!(r1.rec.t, hn.t);
    assert_eq!(r1.rec.p, hn.p);
    assert_eq!(r1.material, near.material);

    let w2 = HitableList { list: vec![far, near] };
    let r2 = w2.hit(&ray, T_EPS, T_MAX).expect("scene is hit");
    assert_eq!(r2.rec.t, hn.t);
    assert_eq!(r2.material, near.material);
}

#[test]
fn empty_scene_misses() {
    let w = HitableList { list: Vec::new() };
    let ray = Ray { origin: v(0, 0, 0), direction: v(0, 0, -ONE) };
    assert!(w.hit(&ray, T_EPS, T_MAX).is_none());
}

#[test]
fn point_at_parameter_walks_the_ray() {
    let r = Ray { origin: v(ONE, 0, 0), direction: v(0, 0, -ONE) };
    assert_eq!(r.point_at_parameter(2 * ONE), v(ONE, 0, -2 * ONE));
}
