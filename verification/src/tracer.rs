use vstd::prelude::*;

use crate::fixed::{lemma_fmul_one, lemma_fmul_unit, lemma_tdiv_exact, lemma_tdiv_mono};
use crate::hitable::{hit_rec_ok, T_EPS, T_MAX};
use crate::hitablelist::{list_hit_spec, scene_wf, HitableList};
use crate::material::{draw_sample, scatter_spec, unit_box, SampleS};
use crate::ray::{ray_ok, Ray, RayS};
use crate::sphere::SphereS;
use crate::vec3::{unit_spec, vadd, vmul, vscale, Vec3, V3};

verus! {

/// Bounce budget: at this depth a path stops and contributes black.
pub const MAX_DEPTH: u32 = 50;

pub open spec fn black() -> V3 {
    V3 { x: 0, y: 0, z: 0 }
}

/// The vertical interpolation parameter of the background: the unit
/// direction's vertical component remapped from [-1,1] to [0,1], clamped
/// against the rounding of normalization.
pub open spec fn bg_t(uy: int) -> int {
    if uy < -65536 {
        0
    } else if uy > 65536 {
        65536
    } else {
        (uy + 65536) / 2
    }
}

/// The background gradient: white blended toward sky blue with `bg_t`.
pub open spec fn background_spec(r: RayS) -> V3 {
    let t = bg_t(unit_spec(r.direction).y);
    vadd(
        vscale(V3 { x: 65536, y: 65536, z: 65536 }, 65536 - t),
        vscale(V3 { x: 32768, y: 45875, z: 65536 }, t),
    )
}

/// What `trace` computes, as a function of the scene, the ray, the depth and
/// the samples drawn at each bounce (one per scatter, consumed from the
/// front; a missing sample stands in as zero). A ray outside `ray_ok`, a
/// numerically degenerate hit record, an exhausted bounce budget and an
/// absorbing scatter all end the path with black; a miss ends it with the
/// background; otherwise the scatter's attenuation multiplies the rest of the
/// path, component by component.
pub open spec fn trace_spec(s: Seq<SphereS>, r: RayS, depth: int, ss: Seq<SampleS>) -> V3
    decreases MAX_DEPTH as int - depth,
{
    if !ray_ok(r) {
        black()
    } else {
        match list_hit_spec(s, r, T_EPS as int, T_MAX as int) {
            None => background_spec(r),
            Some(hit) => {
                if depth >= MAX_DEPTH as int || depth < 0 {
                    black()
                } else if !hit_rec_ok(hit.rec) {
                    black()
                } else {
                    let smp = if ss.len() > 0 {
                        ss[0]
                    } else {
                        SampleS { p: V3 { x: 0, y: 0, z: 0 }, u: 0 }
                    };
                    match scatter_spec(hit.material, r, hit.rec, smp) {
                        None => black(),
                        Some(sc) => vmul(
                            sc.attenuation,
                            trace_spec(s, sc.scattered, depth + 1, ss.drop_first()),
                        ),
                    }
                }
            },
        }
    }
}

/// Multiplying an attenuation into black stays black.
pub proof fn lemma_vmul_black(a: V3)
    ensures
        vmul(a, black()) == black(),
{
    assert(a.x * 0 == 0 && a.y * 0 == 0 && a.z * 0 == 0);
    assert(crate::fixed::tdiv(0, 65536) == 0);
}

/// The background gradient, component by component in the unit box.
pub fn background_color(r: &Ray) -> (c: Vec3)
    requires
        ray_ok(r@),
    ensures
        c@ == background_spec(r@),
        unit_box(c@),
{
    let u = Vec3::unit_vector(r.direction);
    let t: i64 = if u.y < -65536 {
        0
    } else if u.y > 65536 {
        65536
    } else {
        ((u.y + 65536) as u64 / 2) as i64
    };
    proof {
        assert(t as int == bg_t(unit_spec(r@.direction).y));
        lemma_fmul_one(65536 - t as int);
        lemma_fmul_one(t as int);
        assert(32768 * (t as int) <= (t as int) * 65536 && 0 <= 32768 * (t as int) && 45875 * (
        t as int) <= (t as int) * 65536 && 0 <= 45875 * (t as int));
        lemma_tdiv_mono(32768 * (t as int), (t as int) * 65536, 65536);
        lemma_tdiv_mono(45875 * (t as int), (t as int) * 65536, 65536);
        lemma_tdiv_exact(t as int, 65536);
        crate::fixed::lemma_tdiv_bounds(32768 * (t as int), 65536);
        crate::fixed::lemma_tdiv_bounds(45875 * (t as int), 65536);
    }
    let white = Vec3 { x: 65536, y: 65536, z: 65536 };
    let sky = Vec3 { x: 32768, y: 45875, z: 65536 };
    white.scale(65536 - t).add(&sky.scale(t))
}

/// The radiance integrator. Its result is explained exactly by `trace_spec`
/// for the samples actually drawn; a scene miss gives exactly the background,
/// an exhausted budget on a hit gives exactly black, and the color always
/// stays in the unit box.
pub fn trace(ray: &Ray, world: &HitableList, depth: u32) -> (c: Vec3)
    requires
        scene_wf(world@),
        ray_ok(ray@),
        depth <= MAX_DEPTH,
    ensures
        exists|ss: Seq<SampleS>| c@ == trace_spec(world@, ray@, depth as int, ss),
        list_hit_spec(world@, ray@, T_EPS as int, T_MAX as int) is None ==> c@ == background_spec(
            ray@,
        ),
        (list_hit_spec(world@, ray@, T_EPS as int, T_MAX as int) is Some && depth == MAX_DEPTH)
            ==> c@ == black(),
        unit_box(c@),
    decreases MAX_DEPTH - depth,
{
    let ghost dd = depth as int;
    match world.hit(ray, T_EPS, T_MAX) {
        None => {
            let bg = background_color(ray);
            proof {
                assert(bg@ == trace_spec(world@, ray@, dd, Seq::<SampleS>::empty()));
            }
            bg
        },
        Some(hres) => {
            if depth >= MAX_DEPTH {
                let c = Vec3 { x: 0, y: 0, z: 0 };
                proof {
                    assert(c@ == trace_spec(world@, ray@, dd, Seq::<SampleS>::empty()));
                }
                return c;
            }
            if !hres.rec.is_ok() {
                let c = Vec3 { x: 0, y: 0, z: 0 };
                proof {
                    assert(c@ == trace_spec(world@, ray@, dd, Seq::<SampleS>::empty()));
                }
                return c;
            }
            let sample = draw_sample();
            match hres.material.scatter(ray, &hres.rec, &sample) {
                None => {
                    let c = Vec3 { x: 0, y: 0, z: 0 };
                    proof {
                        let ghost ss0: Seq<SampleS> = seq![sample@];
                        assert(ss0[0] == sample@);
                        assert(c@ == trace_spec(world@, ray@, dd, ss0));
                    }
                    c
                },
                Some(sr) => {
                    if !sr.scattered.is_ok() {
                        let c = Vec3 { x: 0, y: 0, z: 0 };
                        proof {
                            reveal_with_fuel(trace_spec, 2);
                            let ghost ss0: Seq<SampleS> = seq![sample@];
                            assert(ss0[0] == sample@);
                            lemma_vmul_black(sr@.attenuation);
                            assert(c@ == trace_spec(world@, ray@, dd, ss0));
                        }
                        return c;
                    }
                    let rec_c = trace(&sr.scattered, world, depth + 1);
                    let out = sr.attenuation.mul(&rec_c);
                    proof {
                        let ghost d1: int = dd + 1;
                        let ghost ssr = choose|ss: Seq<SampleS>|
                            rec_c@ == trace_spec(world@, sr.scattered@, d1, ss);
                        let ghost ssf = seq![sample@] + ssr;
                        assert(ssf[0] == sample@);
                        assert(ssf.drop_first() =~= ssr);
                        assert(out@ == trace_spec(world@, ray@, dd, ssf));
                        lemma_fmul_unit(sr@.attenuation.x, rec_c@.x);
                        lemma_fmul_unit(sr@.attenuation.y, rec_c@.y);
                        lemma_fmul_unit(sr@.attenuation.z, rec_c@.z);
                    }
                    out
                },
            }
        },
    }
}

} // verus!
