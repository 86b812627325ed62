use vstd::prelude::*;

use crate::fixed::{
    fmul_spec, isqrt_spec, lemma_fmul_one, lemma_isqrt_unique, lemma_tdiv_abs, lemma_tdiv_bounds,
    lemma_tdiv_exact, lemma_tdiv_mono, lemma_tdiv_neg, tdiv,
};
use crate::hitable::{hit_rec_ok, HitRecS, HitResS, T_EPS, T_MAX};
use crate::hitablelist::{list_hit_from, list_hit_spec};
use crate::material::{
    metal_scatter_spec, reflect_spec, refract_spec, scatter_spec, SampleS, ScatS,
};
use crate::ray::{ray_ok, RayS};
use crate::sphere::{sphere_hit_rec, sphere_hit_spec, SphereS};
use crate::tracer::{background_spec, black, trace_spec, MAX_DEPTH};
use crate::vec3::{dot_spec, unit_spec, vmul, vsub, V3};

verus! {

/// On a scene with no primitives, the tracer returns exactly the background
/// gradient for every admissible ray, whatever the depth and the samples.
pub proof fn lemma_trace_empty_scene(r: RayS, depth: int, ss: Seq<SampleS>)
    requires
        ray_ok(r),
    ensures
        trace_spec(Seq::<SphereS>::empty(), r, depth, ss) == background_spec(r),
{
    assert(list_hit_spec(Seq::<SphereS>::empty(), r, T_EPS as int, T_MAX as int) is None);
}

/// Once the bounce budget is exhausted, any ray that still hits something
/// contributes exactly black, whatever the scene holds.
pub proof fn lemma_trace_depth_exhausted(s: Seq<SphereS>, r: RayS, depth: int, ss: Seq<SampleS>)
    requires
        ray_ok(r),
        depth >= MAX_DEPTH as int,
        list_hit_spec(s, r, T_EPS as int, T_MAX as int) is Some,
    ensures
        trace_spec(s, r, depth, ss) == black(),
{
}

/// Along a traced path the scatter's attenuation multiplies the radiance of
/// the rest of the path, component by component — attenuations compose by
/// product, never by sum.
pub proof fn lemma_trace_composes(
    s: Seq<SphereS>,
    r: RayS,
    depth: int,
    ss: Seq<SampleS>,
    hit: HitResS,
    sc: ScatS,
)
    requires
        ray_ok(r),
        0 <= depth < MAX_DEPTH as int,
        ss.len() > 0,
        list_hit_spec(s, r, T_EPS as int, T_MAX as int) == Some(hit),
        hit_rec_ok(hit.rec),
        scatter_spec(hit.material, r, hit.rec, ss[0]) == Some(sc),
    ensures
        trace_spec(s, r, depth, ss) == vmul(
            sc.attenuation,
            trace_spec(s, sc.scattered, depth + 1, ss.drop_first()),
        ),
{
}

/// With zero fuzz the metal scatter is deterministic: the sample has no
/// influence, the outgoing direction is exactly the mirror reflection of the
/// normalized incoming direction, and the attenuation is exactly the albedo.
pub proof fn lemma_metal_fuzz_zero(albedo: V3, r: RayS, h: HitRecS, s1: SampleS, s2: SampleS)
    ensures
        metal_scatter_spec(albedo, 0, r, h, s1) == metal_scatter_spec(albedo, 0, r, h, s2),
        (match metal_scatter_spec(albedo, 0, r, h, s1) {
            Some(sc) => sc.scattered.direction == reflect_spec(unit_spec(r.direction), h.normal)
                && sc.attenuation == albedo && sc.scattered.origin == h.p,
            None => true,
        }),
{
    assert(s1.p.x * 0 == 0 && s1.p.y * 0 == 0 && s1.p.z * 0 == 0);
    assert(s2.p.x * 0 == 0 && s2.p.y * 0 == 0 && s2.p.z * 0 == 0);
    assert(tdiv(0, 65536) == 0);
}

/// A sphere of radius `256 * m` at the origin, probed head-on from
/// `(0, 0, 2r)` straight toward the origin with a unit direction, is hit at
/// parameter exactly `r`, at the point `(0, 0, r)`, with normal `(0, 0, 1)`.
/// Radii that are multiples of 1/256 make every intermediate rounding exact.
pub proof fn lemma_sphere_head_on(m: int, mat: crate::material::MatS, t_min: int)
    requires
        1 <= m <= 0x10_0000,
        0 <= t_min < 256 * m,
        256 * m < T_MAX as int,
    ensures
        ({
            let sph = SphereS { center: V3 { x: 0, y: 0, z: 0 }, radius: 256 * m, material: mat };
            let ray = RayS {
                origin: V3 { x: 0, y: 0, z: 512 * m },
                direction: V3 { x: 0, y: 0, z: -65536 },
            };
            sphere_hit_spec(sph, ray, t_min, T_MAX as int) == Some(
                HitRecS {
                    t: 256 * m,
                    p: V3 { x: 0, y: 0, z: 256 * m },
                    normal: V3 { x: 0, y: 0, z: 65536 },
                },
            )
        }),
{
    let sph = SphereS { center: V3 { x: 0, y: 0, z: 0 }, radius: 256 * m, material: mat };
    let ray = RayS {
        origin: V3 { x: 0, y: 0, z: 512 * m },
        direction: V3 { x: 0, y: 0, z: -65536 },
    };
    let oc = vsub(ray.origin, sph.center);
    let mm = m * m;
    assert(0int * 0int == 0) by (nonlinear_arith);
    assert((-65536int) * (-65536int) == 4294967296) by (nonlinear_arith);
    // a = |d|^2 = one, exactly
    let a = dot_spec(ray.direction, ray.direction);
    assert(a == tdiv(4294967296, 65536));
    lemma_tdiv_exact(65536, 65536);
    assert(a == 65536);
    // b = <oc, d> = -2r, exactly
    let b = dot_spec(oc, ray.direction);
    assert((512 * m) * (-65536int) == (-512 * m) * 65536) by (nonlinear_arith);
    lemma_tdiv_exact(-512 * m, 65536);
    assert(b == -512 * m);
    // c = |oc|^2 - r^2 = 3 r^2, exactly
    assert((512 * m) * (512 * m) == (4 * mm) * 65536) by (nonlinear_arith)
        requires
            mm == m * m,
    ;
    lemma_tdiv_exact(4 * mm, 65536);
    assert((256 * m) * (256 * m) == mm * 65536) by (nonlinear_arith)
        requires
            mm == m * m,
    ;
    lemma_tdiv_exact(mm, 65536);
    let c = dot_spec(oc, oc) - fmul_spec(sph.radius, sph.radius);
    assert(c == 3 * mm);
    // disc = b^2 - a c = r^2 in the squared scale
    assert((-512 * m) * (-512 * m) == 262144 * mm) by (nonlinear_arith)
        requires
            mm == m * m,
    ;
    assert(65536 * (3 * mm) == 196608 * mm) by (nonlinear_arith);
    let disc = b * b - a * c;
    assert(disc == 65536 * mm);
    assert(mm >= 1) by (nonlinear_arith)
        requires
            mm == m * m,
            m >= 1,
    ;
    // its square root is exactly r
    assert((256 * m) * (256 * m) <= 65536 * mm && 65536 * mm < (256 * m + 1) * (256 * m + 1))
        by (nonlinear_arith)
        requires
            mm == m * m,
            m >= 1,
    ;
    lemma_isqrt_unique((65536 * mm) as nat, 256 * m);
    let sq = isqrt_spec(disc as nat) as int;
    assert(sq == 256 * m);
    // the near root is exactly r and lies inside the interval
    assert((-b - sq) == 256 * m);
    lemma_tdiv_exact(256 * m, 65536);
    assert((256 * m) * 65536 == 256 * m * 65536) by (nonlinear_arith);
    let t1 = tdiv((-b - sq) * 65536, a);
    assert(t1 == 256 * m);
    // the record: point (0, 0, r), normal (0, 0, 1)
    assert(0int * (256 * m) == 0) by (nonlinear_arith);
    lemma_tdiv_abs(0, 65536);
    assert(fmul_spec(0, 256 * m) == 0);
    assert((-65536int) * (256 * m) == (-256 * m) * 65536) by (nonlinear_arith);
    lemma_tdiv_exact(-256 * m, 65536);
    assert(fmul_spec(-65536, 256 * m) == -256 * m);
    let rec = sphere_hit_rec(sph, ray, t1);
    assert(rec.p == (V3 { x: 0, y: 0, z: 256 * m }));
    assert((256 * m) * 65536 == 65536 * (256 * m)) by (nonlinear_arith);
    lemma_tdiv_exact(65536, 256 * m);
    lemma_tdiv_abs(0, 256 * m);
    assert(rec.normal == (V3 { x: 0, y: 0, z: 65536 }));
}

/// Acne avoidance: a ray whose origin lies exactly on the sphere's surface,
/// probed again with a nonnegative lower bound, never returns the parameter
/// zero of its own starting point. Leaving or tangent rays miss outright;
/// an inward ray can only report the far traversal of the sphere.
pub proof fn lemma_no_acne(s: SphereS, r: RayS, t_min: int, t_max: int)
    requires
        dot_spec(vsub(r.origin, s.center), vsub(r.origin, s.center)) == fmul_spec(
            s.radius,
            s.radius,
        ),
        dot_spec(r.direction, r.direction) > 0,
        0 <= t_min,
    ensures
        dot_spec(vsub(r.origin, s.center), r.direction) >= 0 ==> sphere_hit_spec(
            s,
            r,
            t_min,
            t_max,
        ) is None,
        (match sphere_hit_spec(s, r, t_min, t_max) {
            Some(h) => h.t == tdiv(
                -2 * dot_spec(vsub(r.origin, s.center), r.direction) * 65536,
                dot_spec(r.direction, r.direction),
            ),
            None => true,
        }),
{
    let oc = vsub(r.origin, s.center);
    let a = dot_spec(r.direction, r.direction);
    let b = dot_spec(oc, r.direction);
    let c = dot_spec(oc, oc) - fmul_spec(s.radius, s.radius);
    assert(c == 0);
    assert(a * c == 0);
    let disc = b * b - a * c;
    if b == 0 {
        assert(b * b == 0) by (nonlinear_arith)
            requires
                b == 0,
        ;
        assert(sphere_hit_spec(s, r, t_min, t_max) is None);
    } else {
        assert(disc == b * b);
        assert(b * b > 0) by (nonlinear_arith)
            requires
                b != 0,
        ;
        let sq = isqrt_spec(disc as nat) as int;
        if b > 0 {
            assert(b * b <= b * b && b * b < (b + 1) * (b + 1)) by (nonlinear_arith)
                requires
                    b > 0,
            ;
            lemma_isqrt_unique((b * b) as nat, b);
            assert(sq == b);
            let t1 = tdiv((-b - sq) * 65536, a);
            lemma_tdiv_neg((b + sq) * 65536, a);
            assert((-b - sq) * 65536 == -((b + sq) * 65536)) by (nonlinear_arith);
            lemma_tdiv_bounds((b + sq) * 65536, a);
            assert((b + sq) * 65536 >= 0);
            assert(t1 <= 0);
            lemma_tdiv_abs(0, a);
            assert((-b + sq) * 65536 == 0 * 65536) by (nonlinear_arith)
                requires
                    sq == b,
            ;
            assert(tdiv((-b + sq) * 65536, a) == 0);
            assert(sphere_hit_spec(s, r, t_min, t_max) is None);
        } else {
            assert((-b) * (-b) == b * b && b * b < (-b + 1) * (-b + 1)) by (nonlinear_arith)
                requires
                    b < 0,
            ;
            lemma_isqrt_unique((b * b) as nat, -b);
            assert(sq == -b);
            assert((-b - sq) * 65536 == 0 * 65536) by (nonlinear_arith)
                requires
                    sq == -b,
            ;
            lemma_tdiv_abs(0, a);
            let t1 = tdiv((-b - sq) * 65536, a);
            assert(t1 == 0);
            assert(!(t1 > t_min));
            assert((-b + sq) * 65536 == (-2 * b) * 65536) by (nonlinear_arith)
                requires
                    sq == -b,
            ;
            assert((-2 * b) * 65536 == -2 * b * 65536) by (nonlinear_arith);
        }
    }
}

/// Normalizing an axis-aligned vector whose length is a multiple of 1/256
/// gives exactly the unit axis vector, whose fixed-point squared length is
/// exactly one.
pub proof fn lemma_unit_axis(m: int)
    requires
        1 <= m <= 0x10_0000,
    ensures
        unit_spec(V3 { x: 256 * m, y: 0, z: 0 }) == (V3 { x: 65536, y: 0, z: 0 }),
        dot_spec(V3 { x: 65536, y: 0, z: 0 }, V3 { x: 65536, y: 0, z: 0 }) == 65536,
{
    let v = V3 { x: 256 * m, y: 0, z: 0 };
    let mm = m * m;
    assert(0int * 0int == 0) by (nonlinear_arith);
    assert((256 * m) * (256 * m) == mm * 65536) by (nonlinear_arith)
        requires
            mm == m * m,
    ;
    lemma_tdiv_exact(mm, 65536);
    let q = dot_spec(v, v);
    assert(q == mm);
    assert((256 * m) * (256 * m) <= mm * 65536 && mm * 65536 < (256 * m + 1) * (256 * m + 1))
        by (nonlinear_arith)
        requires
            mm == m * m,
            m >= 1,
    ;
    assert(mm * 65536 == 65536 * mm) by (nonlinear_arith);
    lemma_isqrt_unique((mm * 65536) as nat, 256 * m);
    let l = crate::vec3::len_spec(v);
    assert(l == 256 * m);
    assert((256 * m) * 65536 == 65536 * (256 * m)) by (nonlinear_arith);
    lemma_tdiv_exact(65536, 256 * m);
    lemma_tdiv_abs(0, 256 * m);
    assert(unit_spec(v).x == 65536);
    assert(unit_spec(v).y == 0 && unit_spec(v).z == 0);
    assert(65536int * 65536int == 65536 * 65536) by (nonlinear_arith);
    lemma_tdiv_exact(65536, 65536);
}

/// With a matching medium (index exactly one) refraction bends nothing:
/// whenever the incidence cosine is an exact multiple of 1/256 and the ray
/// enters the surface, the refracted direction is the incoming unit direction
/// itself, and total internal reflection cannot occur.
pub proof fn lemma_refract_matched_medium(v: V3, n: V3, k: int)
    requires
        dot_spec(unit_spec(v), n) == -(256 * k),
        k >= 1,
    ensures
        refract_spec(v, n, 65536) == Some(unit_spec(v)),
{
    let uv = unit_spec(v);
    let dt = dot_spec(uv, n);
    let kk = k * k;
    lemma_fmul_one(65536);
    assert((-(256 * k)) * (-(256 * k)) == kk * 65536) by (nonlinear_arith)
        requires
            kk == k * k,
    ;
    lemma_tdiv_exact(kk, 65536);
    assert(fmul_spec(dt, dt) == kk);
    let inner = 65536 - kk;
    lemma_fmul_one(inner);
    let disc = 65536 - fmul_spec(fmul_spec(65536, 65536), inner);
    assert(disc == kk);
    assert(kk >= 1) by (nonlinear_arith)
        requires
            kk == k * k,
            k >= 1,
    ;
    assert((256 * k) * (256 * k) <= kk * 65536 && kk * 65536 < (256 * k + 1) * (256 * k + 1))
        by (nonlinear_arith)
        requires
            kk == k * k,
            k >= 1,
    ;
    assert(kk * 65536 == 65536 * kk) by (nonlinear_arith);
    lemma_isqrt_unique((kk * 65536) as nat, 256 * k);
    assert(crate::fixed::fsqrt_spec(disc) == 256 * k);
    lemma_fmul_one(uv.x - fmul_spec(n.x, dt));
    lemma_fmul_one(uv.y - fmul_spec(n.y, dt));
    lemma_fmul_one(uv.z - fmul_spec(n.z, dt));
    lemma_tdiv_neg(n.x * (256 * k), 65536);
    lemma_tdiv_neg(n.y * (256 * k), 65536);
    lemma_tdiv_neg(n.z * (256 * k), 65536);
    assert(n.x * (-(256 * k)) == -(n.x * (256 * k)) && n.y * (-(256 * k)) == -(n.y * (256 * k))
        && n.z * (-(256 * k)) == -(n.z * (256 * k))) by (nonlinear_arith);
}

/// Nearest-hit selection: inside a query whose parameter already beat the
/// upper bound, a tighter bound keeps exactly the hits below it.
pub proof fn lemma_sphere_hit_shrink(s: SphereS, r: RayS, t_min: int, t_a: int, t_b: int)
    requires
        dot_spec(r.direction, r.direction) > 0,
        t_a <= t_b,
    ensures
        (match sphere_hit_spec(s, r, t_min, t_b) {
            Some(h) => if h.t < t_a {
                sphere_hit_spec(s, r, t_min, t_a) == Some(h)
            } else {
                sphere_hit_spec(s, r, t_min, t_a) is None
            },
            None => true,
        }),
{
    let oc = vsub(r.origin, s.center);
    let a = dot_spec(r.direction, r.direction);
    let b = dot_spec(oc, r.direction);
    let c = dot_spec(oc, oc) - fmul_spec(s.radius, s.radius);
    let disc = b * b - a * c;
    if disc > 0 {
        let sq = isqrt_spec(disc as nat) as int;
        crate::fixed::lemma_isqrt_correct(disc as nat);
        let t1 = tdiv((-b - sq) * 65536, a);
        let t2 = tdiv((-b + sq) * 65536, a);
        assert((-b - sq) * 65536 <= (-b + sq) * 65536) by (nonlinear_arith)
            requires
                sq >= 0,
        ;
        lemma_tdiv_mono((-b - sq) * 65536, (-b + sq) * 65536, a);
        assert(t1 <= t2);
    }
}

/// Scene aggregation returns the nearer of two overlapping spheres along a
/// ray that intersects both, exactly as the two individual queries say; on a
/// tie the first one listed wins.
pub proof fn lemma_nearest_of_two(
    s0: SphereS,
    s1: SphereS,
    r: RayS,
    t_min: int,
    t_max: int,
    h0: HitRecS,
    h1: HitRecS,
)
    requires
        dot_spec(r.direction, r.direction) > 0,
        sphere_hit_spec(s0, r, t_min, t_max) == Some(h0),
        sphere_hit_spec(s1, r, t_min, t_max) == Some(h1),
    ensures
        list_hit_spec(seq![s0, s1], r, t_min, t_max) == Some(
            if h1.t < h0.t {
                HitResS { rec: h1, material: s1.material }
            } else {
                HitResS { rec: h0, material: s0.material }
            },
        ),
{
    reveal_with_fuel(list_hit_from, 4);
    let s = seq![s0, s1];
    assert(s[0] == s0 && s[1] == s1 && s.len() == 2);
    assert(h0.t < t_max);
    lemma_sphere_hit_shrink(s1, r, t_min, h0.t, t_max);
}

} // verus!
