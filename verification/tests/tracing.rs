use raytracer::hitablelist::HitableList;
use raytracer::material::{Dielectric, Lambertian, Material, Metal};
use raytracer::ray::Ray;
use raytracer::sphere::Sphere;
use raytracer::tracer::{background_color, trace, MAX_DEPTH};
use raytracer::vec3::Vec3;

const ONE: i64 = 65536;

fn v(x: i64, y: i64, z: i64) -> Vec3 {
    Vec3 { x, y, z }
}

fn empty_scene() -> HitableList {
    HitableList { list: Vec::new() }
}

#[test]
fn background_gradient_exact_values() {
    // straight ahead (horizontal): halfway between white and sky blue
    let level = Ray { origin: v(0, 0, 0), direction: v(0, 0, -ONE) };
    assert_eq!(background_color(&level), v(49152, 55705, ONE));
    // straight up: pure sky blue
    let up = Ray { origin: v(0, 0, 0), direction: v(0, ONE, 0) };
    assert_eq!(background_color(&up), v(32768, 45875, ONE));
    // straight down: pure white
    let down = Ray { origin: v(0, 0, 0), direction: v(0, -ONE, 0) };
    assert_eq!(background_color(&down), v(ONE, ONE, ONE));
}

#[test]
fn trace_empty_scene_returns_background() {
    // with no primitives the tracer returns exactly the background gradient,
    // for every ray and independent of the depth
    let w = empty_scene();
    for dir in [v(0, 0, -ONE), v(0, ONE, 0), v(3 * ONE, -4 * ONE, 5 * ONE)] {
        let r = Ray { origin: v(0, 0, 0), direction: dir };
        let bg = background_color(&r);
        assert_eq!(trace(&r, &w, 0), bg);
        assert_eq!(trace(&r, &w, 17), bg);
        assert_eq!(trace(&r, &w, MAX_DEPTH), bg);
    }
}

#[test]
fn trace_at_depth_limit_returns_black_on_hit() {
    // any hit with the bounce budget exhausted contributes black, whatever
    // the material
    for material in [
        Material::Lambertian(Lambertian { albedo: v(32768, 32768, 32768) }),
        Material::Metal(Metal { albedo: v(ONE, ONE, ONE), fuzz: 0 }),
        Material::Dielectric(Dielectric { ref_idx: 98304 }),
    ] {
        let w = HitableList {
            list: vec![Sphere { center: v(0, 0, -4 * ONE), radius: ONE, material }],
        };
        let r = Ray { origin: v(0, 0, 0), direction: v(0, 0, -ONE) };
        assert_eq!(trace(&r, &w, MAX_DEPTH), v(0, 0, 0));
    }
}

#[test]
fn trace_mirror_bounce_into_sky_is_exact() {
    // one perfect mirror bounce: the result is the albedo times the
    // background of the reflected ray, with no randomness left anywhere
    let w = HitableList {
        list: vec![Sphere {
            center: v(0, 0, -4 * ONE),
            radius: ONE,
            material: Material::Metal(Metal { albedo: v(32768, 32768, 32768), fuzz: 0 }),
        }],
    };
    let r = Ray { origin: v(0, 0, 0), direction: v(0, 0, -ONE) };
    // the head-on reflection flies back along +z, whose background is the
    // level gradient (49152, 55705, 65536); halved by the albedo
    assert_eq!(trace(&r, &w, 0), v(24576, 27852, 32768));
}

#[test]
fn trace_stays_in_unit_box() {
    let w = HitableList {
        list: vec![
            Sphere {
                center: v(0, -16 * ONE - ONE, -4 * ONE),
                radius: 16 * ONE,
                material: Material::Lambertian(Lambertian { albedo: v(32768, 40000, 20000) }),
            },
            Sphere {
                center: v(0, 0, -4 * ONE),
                radius: ONE,
                material: Material::Dielectric(Dielectric { ref_idx: 98304 }),
            },
        ],
    };
    for i in 0..50i64 {
        let r = Ray { origin: v(0, 0, 0), direction: v((i - 25) * 2048, -8192, -ONE) };
        let c = trace(&r, &w, 0);
        assert!(0 <= c.x && c.x <= ONE);
        assert!(0 <= c.y && c.y <= ONE);
        assert!(0 <= c.z && c.z <= ONE);
    }
}

#[test]
fn random_in_unit_sphere_stays_in_ball() {
    for _ in 0..200 {
        let p = Vec3::random_in_unit_sphere();
        assert!(p.squared_length() <= ONE);
        assert!(-ONE <= p.x && p.x <= ONE);
        assert!(-ONE <= p.y && p.y <= ONE);
        assert!(-ONE <= p.z && p.z <= ONE);
    }
}
