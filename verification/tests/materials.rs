use raytracer::hitable::HitRecord;
use raytracer::material::{
    reflect, refract, schlick, BounceSample, Dielectric, Lambertian, Metal,
};
use raytracer::ray::Ray;
use raytracer::vec3::Vec3;

const ONE: i64 = 65536;

fn v(x: i64, y: i64, z: i64) -> Vec3 {
    Vec3 { x, y, z }
}

fn head_on_hit() -> HitRecord {
    HitRecord { t: ONE, p: v(0, 0, 0), normal: v(0, 0, ONE) }
}

fn down_ray() -> Ray {
    Ray { origin: v(0, 0, 2 * ONE), direction: v(0, 0, -ONE) }
}

fn sample(p: Vec3, u: i64) -> BounceSample {
    BounceSample { p, u }
}

#[test]
fn reflect_head_on_bounces_back() {
    assert_eq!(reflect(v(0, 0, -ONE), v(0, 0, ONE)), v(0, 0, ONE));
}

#[test]
fn reflect_oblique() {
    // (1, 0, -1) against the upward z normal keeps x and flips z
    assert_eq!(reflect(v(ONE, 0, -ONE), v(0, 0, ONE)), v(ONE, 0, ONE));
}

#[test]
fn refract_matched_medium_keeps_direction() {
    // index ratio one: refraction with zero bending, never total internal
    // reflection
    let u = refract(v(0, 0, -ONE), v(0, 0, ONE), ONE).expect("no bending, no TIR");
    assert_eq!(u, v(0, 0, -ONE));
    // oblique entry: still no total internal reflection, and the direction is
    // kept up to one unit of rounding per component
    let u2 = refract(v(0, 3 * ONE, -4 * ONE), v(0, 0, ONE), ONE).expect("no bending, no TIR");
    let uv = Vec3::unit_vector(v(0, 3 * ONE, -4 * ONE));
    assert!((u2.x - uv.x).abs() <= 1);
    assert!((u2.y - uv.y).abs() <= 1);
    assert!((u2.z - uv.z).abs() <= 1);
}

#[test]
fn refract_total_internal_reflection() {
    // a grazing exit from a dense medium: no refracted ray exists
    assert!(refract(v(4 * ONE, 0, -ONE), v(0, 0, ONE), 2 * ONE).is_none());
}

#[test]
fn schlick_exact_values() {
    // n = 1.5 head-on: r0 = ((1-1.5)/(2.5))^2 = 0.04
    assert_eq!(schlick(ONE, 98304), 2621);
    // n = 1.5 grazing: full reflectance
    assert_eq!(schlick(0, 98304), ONE);
}

#[test]
fn lambertian_always_scatters_albedo_and_normal_lobe() {
    let m = Lambertian { albedo: v(32768, 16384, 8192) };
    let hr = HitRecord { t: ONE, p: v(0, 0, ONE), normal: v(0, 0, ONE) };
    let s = sample(v(100, -200, 300), 12345);
    let sr = m.scatter(&down_ray(), &hr, &s).expect("lambertian always scatters");
    assert_eq!(sr.attenuation, v(32768, 16384, 8192));
    assert_eq!(sr.scattered.origin, v(0, 0, ONE));
    assert_eq!(sr.scattered.direction, v(100, -200, ONE + 300));
}

#[test]
fn metal_fuzz_zero_is_deterministic() {
    // head-on strike with zero fuzz: the sample has no influence and the
    // attenuation is the albedo, exactly
    let m = Metal { albedo: v(45000, 40000, 35000), fuzz: 0 };
    let hr = head_on_hit();
    let a = m.scatter(&down_ray(), &hr, &sample(v(9999, -9999, 1234), 7)).expect("reflected");
    let b = m.scatter(&down_ray(), &hr, &sample(v(-4321, 8765, -1), 60000)).expect("reflected");
    assert_eq!(a, b);
    assert_eq!(a.attenuation, v(45000, 40000, 35000));
    assert_eq!(a.scattered.origin, v(0, 0, 0));
    assert_eq!(a.scattered.direction, v(0, 0, ONE));
}

#[test]
fn metal_fuzz_is_clamped_to_one() {
    let m = Metal { albedo: v(ONE, ONE, ONE), fuzz: 2 * ONE };
    let hr = head_on_hit();
    let sr = m.scatter(&down_ray(), &hr, &sample(v(0, ONE, 0), 0)).expect("reflected");
    // with the clamp the perturbation is the sample itself, not twice it
    assert_eq!(sr.scattered.direction, v(0, ONE, ONE));
}

#[test]
fn metal_absorbs_into_surface() {
    // a normal pointing away from the reflection: the perturbed direction
    // lands inside the surface and the ray is absorbed
    let m = Metal { albedo: v(ONE, ONE, ONE), fuzz: 0 };
    let hr = HitRecord { t: ONE, p: v(0, 0, 0), normal: v(0, 0, -ONE) };
    assert!(m.scatter(&down_ray(), &hr, &sample(v(0, 0, 0), 0)).is_none());
}

#[test]
fn dielectric_matched_medium_always_refracts_head_on() {
    // glass with index one in the same medium: never absorbs, and head-on the
    // ray passes with zero bending whatever the draw
    let m = Dielectric { ref_idx: ONE };
    let hr = head_on_hit();
    for u in [0, 1, 32768, ONE - 1] {
        let sr = m.scatter(&down_ray(), &hr, &sample(v(5, 6, 7), u)).expect(
            "dielectric never absorbs",
        );
        assert_eq!(sr.attenuation, v(ONE, ONE, ONE));
        assert_eq!(sr.scattered.origin, v(0, 0, 0));
        assert_eq!(sr.scattered.direction, v(0, 0, -ONE), "draw {u} must refract");
    }
}

#[test]
fn dielectric_glass_head_on_mostly_refracts() {
    // real glass head-on: reflectance is the small Schlick r0, so a draw
    // above it refracts and a draw below it reflects
    let m = Dielectric { ref_idx: 98304 };
    let hr = head_on_hit();
    let refr = m.scatter(&down_ray(), &hr, &sample(v(0, 0, 0), 30000)).expect("never absorbs");
    assert_eq!(refr.scattered.direction, v(0, 0, -ONE));
    let refl = m.scatter(&down_ray(), &hr, &sample(v(0, 0, 0), 0)).expect("never absorbs");
    assert_eq!(refl.scattered.direction, v(0, 0, ONE));
}

#[test]
fn dielectric_never_absorbs_under_total_internal_reflection() {
    // exiting a dense medium at a grazing angle: refraction is impossible and
    // the reflected ray is taken, for every draw
    let m = Dielectric { ref_idx: 2 * ONE };
    let hr = HitRecord { t: ONE, p: v(0, 0, 0), normal: v(0, 0, ONE) };
    let r = Ray { origin: v(-4 * ONE, 0, -ONE), direction: v(4 * ONE, 0, ONE) };
    let sr = m.scatter(&r, &hr, &sample(v(0, 0, 0), ONE - 1)).expect("never absorbs");
    assert_eq!(sr.scattered.direction, reflect(v(4 * ONE, 0, ONE), v(0, 0, ONE)));
}
